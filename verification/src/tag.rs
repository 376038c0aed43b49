//! Tag expressions: the boolean language that selects which hooks apply to
//! a scenario.
//!
//! The language has tag identifiers (`@foo`), `not`, `and`, `or` and
//! grouping parentheses; the empty expression is true for every scenario.
//! `parse_tag_expression` turns the text of an expression into an abstract
//! syntax tree, and `evaluate` decides it by membership in the scenario's
//! tag set.

use vstd::prelude::*;

verus! {

/// Abstract syntax of a tag expression.
#[derive(Debug)]
pub enum TagExpr {
    /// The empty expression: true for every scenario.
    True,
    /// Membership of one tag in the scenario's tag set.
    Tag(String),
    Not(Box<TagExpr>),
    And(Box<TagExpr>, Box<TagExpr>),
    Or(Box<TagExpr>, Box<TagExpr>),
}

/// Mathematical model of a `TagExpr`.
pub enum TagModel {
    True,
    Tag(Seq<char>),
    Not(Box<TagModel>),
    And(Box<TagModel>, Box<TagModel>),
    Or(Box<TagModel>, Box<TagModel>),
}

impl TagExpr {
    /// Mathematical model of this expression tree.
    pub open spec fn model(self) -> TagModel
        decreases self,
    {
        match self {
            TagExpr::True => TagModel::True,
            TagExpr::Tag(name) => TagModel::Tag(name@),
            TagExpr::Not(e) => TagModel::Not(Box::new((*e).model())),
            TagExpr::And(a, b) => TagModel::And(Box::new((*a).model()), Box::new((*b).model())),
            TagExpr::Or(a, b) => TagModel::Or(Box::new((*a).model()), Box::new((*b).model())),
        }
    }
}

/// Whether `name` is among the scenario's tags.
pub open spec fn has_tag(tags: Seq<Seq<char>>, name: Seq<char>) -> bool {
    exists|i: int| 0 <= i < tags.len() && tags[i] == name
}

/// The truth value of a tag expression over a scenario's tags.
pub open spec fn spec_eval(e: TagModel, tags: Seq<Seq<char>>) -> bool
    decreases e,
{
    match e {
        TagModel::True => true,
        TagModel::Tag(name) => has_tag(tags, name),
        TagModel::Not(inner) => !spec_eval(*inner, tags),
        TagModel::And(a, b) => spec_eval(*a, tags) && spec_eval(*b, tags),
        TagModel::Or(a, b) => spec_eval(*a, tags) || spec_eval(*b, tags),
    }
}

/// One token of the expression language.
#[derive(Debug)]
pub enum Token {
    LParen,
    RParen,
    NotWord,
    AndWord,
    OrWord,
    TagWord(String),
}

/// Mathematical model of a `Token`.
pub enum TokenModel {
    LParen,
    RParen,
    NotWord,
    AndWord,
    OrWord,
    TagWord(Seq<char>),
}

impl DeepView for Token {
    type V = TokenModel;

    open spec fn deep_view(&self) -> TokenModel {
        match self {
            Token::LParen => TokenModel::LParen,
            Token::RParen => TokenModel::RParen,
            Token::NotWord => TokenModel::NotWord,
            Token::AndWord => TokenModel::AndWord,
            Token::OrWord => TokenModel::OrWord,
            Token::TagWord(w) => TokenModel::TagWord(w@),
        }
    }
}

/// Whitespace separates tokens.
pub open spec fn is_space(c: char) -> bool {
    c == ' ' || c == '\t' || c == '\n' || c == '\r'
}

/// A character that may stand inside a word token.
pub open spec fn is_word_char(c: char) -> bool {
    !is_space(c) && c != '(' && c != ')'
}

/// Length of the maximal word prefix of `s`.
pub open spec fn word_len(s: Seq<char>) -> nat
    decreases s.len(),
{
    if s.len() == 0 || !is_word_char(s[0]) {
        0
    } else {
        1 + word_len(s.drop_first())
    }
}

/// The token a word stands for: the keywords `not`, `and`, `or`, and tags
/// otherwise.
pub open spec fn word_token(w: Seq<char>) -> TokenModel {
    if w == seq!['n', 'o', 't'] {
        TokenModel::NotWord
    } else if w == seq!['a', 'n', 'd'] {
        TokenModel::AndWord
    } else if w == seq!['o', 'r'] {
        TokenModel::OrWord
    } else {
        TokenModel::TagWord(w)
    }
}

/// The token stream of an expression text: split on whitespace, with the
/// parentheses as tokens of their own.
pub open spec fn spec_tokenize(s: Seq<char>) -> Seq<TokenModel>
    decreases s.len(),
    via spec_tokenize_decreases
{
    if s.len() == 0 {
        Seq::empty()
    } else if is_space(s[0]) {
        spec_tokenize(s.drop_first())
    } else if s[0] == '(' {
        seq![TokenModel::LParen] + spec_tokenize(s.drop_first())
    } else if s[0] == ')' {
        seq![TokenModel::RParen] + spec_tokenize(s.drop_first())
    } else {
        let w = word_len(s) as int;
        seq![word_token(s.take(w))] + spec_tokenize(s.skip(w))
    }
}

/// A word prefix never runs past the end of the text.
proof fn lemma_word_len_le(s: Seq<char>)
    ensures
        word_len(s) <= s.len(),
    decreases s.len(),
{
    if s.len() > 0 && is_word_char(s[0]) {
        lemma_word_len_le(s.drop_first());
    }
}

#[via_fn]
proof fn spec_tokenize_decreases(s: Seq<char>) {
    if s.len() > 0 && !is_space(s[0]) && s[0] != '(' && s[0] != ')' {
        assert(word_len(s) == 1 + word_len(s.drop_first()));
        lemma_word_len_le(s.drop_first());
    }
}

/// A word prefix extends one character at a time.
proof fn lemma_word_len_step(s: Seq<char>, k: int)
    requires
        0 <= k < s.len(),
        is_word_char(s[k]),
    ensures
        word_len(s.skip(k)) == 1 + word_len(s.skip(k + 1)),
{
    assert(s.skip(k)[0] == s[k]);
    assert(s.skip(k).drop_first() =~= s.skip(k + 1));
}

/// Compares two string slices character by character.
pub fn str_equal(a: &str, b: &str) -> (r: bool)
    ensures
        r == (a@ == b@),
{
    let an = a.unicode_len();
    let bn = b.unicode_len();
    if an != bn {
        proof {
            assert(a@ != b@);
        }
        return false;
    }
    let mut i: usize = 0;
    while i < an
        invariant
            0 <= i <= an,
            an == a@.len(),
            an == b@.len(),
            forall|j: int| 0 <= j < i ==> a@[j] == b@[j],
        decreases an - i,
    {
        if a.get_char(i) != b.get_char(i) {
            proof {
                assert(a@ != b@);
            }
            return false;
        }
        i = i + 1;
    }
    proof {
        assert(a@ =~= b@);
    }
    true
}

/// Classifies one word as its token.
fn make_word_token(w: &str) -> (t: Token)
    ensures
        t.deep_view() == word_token(w@),
{
    proof {
        reveal_strlit("not");
        reveal_strlit("and");
        reveal_strlit("or");
        assert("not"@ =~= seq!['n', 'o', 't']);
        assert("and"@ =~= seq!['a', 'n', 'd']);
        assert("or"@ =~= seq!['o', 'r']);
    }
    if str_equal(w, "not") {
        Token::NotWord
    } else if str_equal(w, "and") {
        Token::AndWord
    } else if str_equal(w, "or") {
        Token::OrWord
    } else {
        Token::TagWord(w.to_owned())
    }
}

/// True when the character at `j` may stand inside a word token.
fn word_char_at(s: &str, j: usize) -> (r: bool)
    requires
        j < s@.len(),
    ensures
        r == is_word_char(s@[j as int]),
{
    let d = s.get_char(j);
    !(d == ' ' || d == '\t' || d == '\n' || d == '\r' || d == '(' || d == ')')
}

/// Splits an expression text into its tokens.
pub fn tokenize(s: &str) -> (tokens: Vec<Token>)
    ensures
        tokens.deep_view() == spec_tokenize(s@),
{
    let n = s.unicode_len();
    let mut tokens: Vec<Token> = Vec::new();
    let mut i: usize = 0;
    proof {
        assert(s@.skip(0) =~= s@);
    }
    while i < n
        invariant
            0 <= i <= n,
            n == s@.len(),
            tokens.deep_view() + spec_tokenize(s@.skip(i as int)) =~= spec_tokenize(s@),
        decreases n - i,
    {
        let ghost before = tokens.deep_view();
        let c = s.get_char(i);
        proof {
            assert(s@.skip(i as int)[0] == s@[i as int]);
        }
        if c == ' ' || c == '\t' || c == '\n' || c == '\r' {
            proof {
                assert(s@.skip(i as int).drop_first() =~= s@.skip(i + 1));
            }
            i = i + 1;
        } else if c == '(' {
            tokens.push(Token::LParen);
            proof {
                assert(s@.skip(i as int).drop_first() =~= s@.skip(i + 1));
                assert(tokens.deep_view() =~= before + seq![TokenModel::LParen]);
            }
            i = i + 1;
        } else if c == ')' {
            tokens.push(Token::RParen);
            proof {
                assert(s@.skip(i as int).drop_first() =~= s@.skip(i + 1));
                assert(tokens.deep_view() =~= before + seq![TokenModel::RParen]);
            }
            i = i + 1;
        } else {
            let mut j: usize = i + 1;
            proof {
                lemma_word_len_step(s@, i as int);
            }
            while j < n && word_char_at(s, j)
                invariant
                    i < j <= n,
                    n == s@.len(),
                    word_len(s@.skip(i as int)) == j - i + word_len(s@.skip(j as int)),
                decreases n - j,
            {
                proof {
                    lemma_word_len_step(s@, j as int);
                }
                j = j + 1;
            }
            proof {
                if j == n {
                    assert(s@.skip(j as int) =~= Seq::<char>::empty());
                } else {
                    assert(s@.skip(j as int)[0] == s@[j as int]);
                }
                assert(word_len(s@.skip(j as int)) == 0);
                assert(word_len(s@.skip(i as int)) == j - i);
            }
            let word = s.substring_char(i, j);
            proof {
                assert(word@ =~= s@.skip(i as int).take(j - i));
            }
            tokens.push(make_word_token(word));
            proof {
                assert(s@.skip(i as int).skip(j - i) =~= s@.skip(j as int));
                assert(tokens.deep_view() =~= before + seq![word_token(s@.skip(i as int).take(j - i))]);
            }
            i = j;
        }
    }
    proof {
        assert(s@.skip(n as int) =~= Seq::<char>::empty());
        assert(tokens.deep_view() + Seq::<TokenModel>::empty() =~= tokens.deep_view());
    }
    tokens
}

/// Grammar of a disjunction: `or_expr := and_expr [ 'or' or_expr ]`.
///
/// Returns the parsed expression and the unconsumed tokens, or `None` when
/// the tokens do not start with a disjunction.  `fuel` bounds the recursion;
/// the parser is run with more fuel than any token stream can consume.
pub open spec fn spec_parse_or(t: Seq<TokenModel>, fuel: nat) -> Option<(TagModel, Seq<TokenModel>)>
    decreases fuel,
{
    if fuel == 0 {
        None
    } else {
        match spec_parse_and(t, (fuel - 1) as nat) {
            None => None,
            Some((left, rest)) => if rest.len() > 0 && rest[0] == TokenModel::OrWord {
                match spec_parse_or(rest.drop_first(), (fuel - 1) as nat) {
                    None => None,
                    Some((right, rest2)) => Some(
                        (TagModel::Or(Box::new(left), Box::new(right)), rest2),
                    ),
                }
            } else {
                Some((left, rest))
            },
        }
    }
}

/// Grammar of a conjunction: `and_expr := unary [ 'and' and_expr ]`.
pub open spec fn spec_parse_and(t: Seq<TokenModel>, fuel: nat) -> Option<
    (TagModel, Seq<TokenModel>),
>
    decreases fuel,
{
    if fuel == 0 {
        None
    } else {
        match spec_parse_unary(t, (fuel - 1) as nat) {
            None => None,
            Some((left, rest)) => if rest.len() > 0 && rest[0] == TokenModel::AndWord {
                match spec_parse_and(rest.drop_first(), (fuel - 1) as nat) {
                    None => None,
                    Some((right, rest2)) => Some(
                        (TagModel::And(Box::new(left), Box::new(right)), rest2),
                    ),
                }
            } else {
                Some((left, rest))
            },
        }
    }
}

/// Grammar of a negation: `unary := 'not' unary | primary`.
pub open spec fn spec_parse_unary(t: Seq<TokenModel>, fuel: nat) -> Option<
    (TagModel, Seq<TokenModel>),
>
    decreases fuel,
{
    if fuel == 0 {
        None
    } else if t.len() > 0 && t[0] == TokenModel::NotWord {
        match spec_parse_unary(t.drop_first(), (fuel - 1) as nat) {
            None => None,
            Some((inner, rest)) => Some((TagModel::Not(Box::new(inner)), rest)),
        }
    } else {
        spec_parse_primary(t, (fuel - 1) as nat)
    }
}

/// Grammar of a primary: `primary := '(' or_expr ')' | tag`.
pub open spec fn spec_parse_primary(t: Seq<TokenModel>, fuel: nat) -> Option<
    (TagModel, Seq<TokenModel>),
>
    decreases fuel,
{
    if fuel == 0 || t.len() == 0 {
        None
    } else if t[0] == TokenModel::LParen {
        match spec_parse_or(t.drop_first(), (fuel - 1) as nat) {
            None => None,
            Some((inner, rest)) => if rest.len() > 0 && rest[0] == TokenModel::RParen {
                Some((inner, rest.drop_first()))
            } else {
                None
            },
        }
    } else {
        match t[0] {
            TokenModel::TagWord(w) => Some((TagModel::Tag(w), t.drop_first())),
            _ => None,
        }
    }
}

/// More fuel than the recursive-descent parser can consume on any input.
pub open spec fn parse_fuel() -> nat {
    usize::MAX as nat
}

/// The language of tag expressions: the token stream of the text, parsed as
/// one disjunction with nothing left over.  The empty token stream is the
/// always-true expression.
pub open spec fn spec_parse_tag_expression(s: Seq<char>) -> Option<TagModel> {
    let tokens = spec_tokenize(s);
    if tokens.len() == 0 {
        Some(TagModel::True)
    } else {
        match spec_parse_or(tokens, parse_fuel()) {
            Some((e, rest)) => if rest.len() == 0 {
                Some(e)
            } else {
                None
            },
            None => None,
        }
    }
}

/// Parses a disjunction starting at token `pos`.
fn parse_or(tokens: &Vec<Token>, pos: usize, fuel: usize) -> (r: Option<(TagExpr, usize)>)
    requires
        pos <= tokens@.len(),
    ensures
        (r is None) == (spec_parse_or(tokens.deep_view().skip(pos as int), fuel as nat) is None),
        r matches Some((e, p)) ==> pos <= p <= tokens@.len() && spec_parse_or(
            tokens.deep_view().skip(pos as int),
            fuel as nat,
        ) == Some((e.model(), tokens.deep_view().skip(p as int))),
    decreases fuel,
{
    if fuel == 0 {
        return None;
    }
    match parse_and(tokens, pos, fuel - 1) {
        None => None,
        Some((left, rest)) => {
            if rest < tokens.len() && matches!(&tokens[rest], Token::OrWord) {
                proof {
                    assert(tokens.deep_view().skip(rest as int)[0] == tokens@[rest as int].deep_view());
                    assert(tokens.deep_view().skip(rest as int).drop_first() =~= tokens.deep_view().skip(
                        rest + 1,
                    ));
                }
                match parse_or(tokens, rest + 1, fuel - 1) {
                    None => None,
                    Some((right, rest2)) => Some(
                        (TagExpr::Or(Box::new(left), Box::new(right)), rest2),
                    ),
                }
            } else {
                proof {
                    if rest < tokens@.len() {
                        assert(tokens.deep_view().skip(rest as int)[0] == tokens@[rest as int].deep_view());
                    } else {
                        assert(tokens.deep_view().skip(rest as int).len() == 0);
                    }
                }
                Some((left, rest))
            }
        },
    }
}

/// Parses a conjunction starting at token `pos`.
fn parse_and(tokens: &Vec<Token>, pos: usize, fuel: usize) -> (r: Option<(TagExpr, usize)>)
    requires
        pos <= tokens@.len(),
    ensures
        (r is None) == (spec_parse_and(tokens.deep_view().skip(pos as int), fuel as nat) is None),
        r matches Some((e, p)) ==> pos <= p <= tokens@.len() && spec_parse_and(
            tokens.deep_view().skip(pos as int),
            fuel as nat,
        ) == Some((e.model(), tokens.deep_view().skip(p as int))),
    decreases fuel,
{
    if fuel == 0 {
        return None;
    }
    match parse_unary(tokens, pos, fuel - 1) {
        None => None,
        Some((left, rest)) => {
            if rest < tokens.len() && matches!(&tokens[rest], Token::AndWord) {
                proof {
                    assert(tokens.deep_view().skip(rest as int)[0] == tokens@[rest as int].deep_view());
                    assert(tokens.deep_view().skip(rest as int).drop_first() =~= tokens.deep_view().skip(
                        rest + 1,
                    ));
                }
                match parse_and(tokens, rest + 1, fuel - 1) {
                    None => None,
                    Some((right, rest2)) => Some(
                        (TagExpr::And(Box::new(left), Box::new(right)), rest2),
                    ),
                }
            } else {
                proof {
                    if rest < tokens@.len() {
                        assert(tokens.deep_view().skip(rest as int)[0] == tokens@[rest as int].deep_view());
                    } else {
                        assert(tokens.deep_view().skip(rest as int).len() == 0);
                    }
                }
                Some((left, rest))
            }
        },
    }
}

/// Parses a negation starting at token `pos`.
fn parse_unary(tokens: &Vec<Token>, pos: usize, fuel: usize) -> (r: Option<(TagExpr, usize)>)
    requires
        pos <= tokens@.len(),
    ensures
        (r is None) == (spec_parse_unary(tokens.deep_view().skip(pos as int), fuel as nat) is None),
        r matches Some((e, p)) ==> pos <= p <= tokens@.len() && spec_parse_unary(
            tokens.deep_view().skip(pos as int),
            fuel as nat,
        ) == Some((e.model(), tokens.deep_view().skip(p as int))),
    decreases fuel,
{
    if fuel == 0 {
        return None;
    }
    if pos < tokens.len() && matches!(&tokens[pos], Token::NotWord) {
        proof {
            assert(tokens.deep_view().skip(pos as int)[0] == tokens@[pos as int].deep_view());
            assert(tokens.deep_view().skip(pos as int).drop_first() =~= tokens.deep_view().skip(
                pos + 1,
            ));
        }
        match parse_unary(tokens, pos + 1, fuel - 1) {
            None => None,
            Some((inner, rest)) => Some((TagExpr::Not(Box::new(inner)), rest)),
        }
    } else {
        proof {
            if pos < tokens@.len() {
                assert(tokens.deep_view().skip(pos as int)[0] == tokens@[pos as int].deep_view());
            } else {
                assert(tokens.deep_view().skip(pos as int).len() == 0);
            }
        }
        parse_primary(tokens, pos, fuel - 1)
    }
}

/// Parses a primary starting at token `pos`.
fn parse_primary(tokens: &Vec<Token>, pos: usize, fuel: usize) -> (r: Option<(TagExpr, usize)>)
    requires
        pos <= tokens@.len(),
    ensures
        (r is None) == (spec_parse_primary(tokens.deep_view().skip(pos as int), fuel as nat)
            is None),
        r matches Some((e, p)) ==> pos <= p <= tokens@.len() && spec_parse_primary(
            tokens.deep_view().skip(pos as int),
            fuel as nat,
        ) == Some((e.model(), tokens.deep_view().skip(p as int))),
    decreases fuel,
{
    if fuel == 0 || pos == tokens.len() {
        proof {
            if pos == tokens@.len() {
                assert(tokens.deep_view().skip(pos as int).len() == 0);
            }
        }
        return None;
    }
    proof {
        assert(tokens.deep_view().skip(pos as int)[0] == tokens@[pos as int].deep_view());
        assert(tokens.deep_view().skip(pos as int).drop_first() =~= tokens.deep_view().skip(
            pos + 1,
        ));
    }
    if matches!(&tokens[pos], Token::LParen) {
        match parse_or(tokens, pos + 1, fuel - 1) {
            None => None,
            Some((inner, rest)) => {
                if rest < tokens.len() && matches!(&tokens[rest], Token::RParen) {
                    proof {
                        assert(tokens.deep_view().skip(rest as int)[0] == tokens@[rest as int].deep_view());
                        assert(tokens.deep_view().skip(rest as int).drop_first()
                            =~= tokens.deep_view().skip(rest + 1));
                    }
                    Some((inner, rest + 1))
                } else {
                    proof {
                        if rest < tokens@.len() {
                            assert(tokens.deep_view().skip(rest as int)[0] == tokens@[rest as int].deep_view());
                        } else {
                            assert(tokens.deep_view().skip(rest as int).len() == 0);
                        }
                    }
                    None
                }
            },
        }
    } else {
        match &tokens[pos] {
            Token::TagWord(w) => Some((TagExpr::Tag(w.clone()), pos + 1)),
            _ => None,
        }
    }
}

/// Parses the text of a tag expression.
///
/// Returns the syntax tree exactly when the text is a sentence of the tag
/// expression language; the empty (or all-whitespace) text is the
/// always-true expression.
pub fn parse_tag_expression(s: &str) -> (r: Option<TagExpr>)
    ensures
        (r is None) == (spec_parse_tag_expression(s@) is None),
        r matches Some(e) ==> spec_parse_tag_expression(s@) == Some(e.model()),
{
    let tokens = tokenize(s);
    proof {
        assert(tokens.deep_view().skip(0) =~= tokens.deep_view());
    }
    if tokens.len() == 0 {
        return Some(TagExpr::True);
    }
    match parse_or(&tokens, 0, usize::MAX) {
        None => None,
        Some((e, p)) => {
            if p == tokens.len() {
                proof {
                    assert(tokens.deep_view().skip(p as int).len() == 0);
                }
                Some(e)
            } else {
                proof {
                    assert(tokens.deep_view().skip(p as int).len() > 0);
                }
                None
            }
        },
    }
}

/// Whether `name` is among `tags`.
fn tags_contain(tags: &Vec<String>, name: &String) -> (r: bool)
    ensures
        r == has_tag(tags.deep_view(), name@),
{
    let mut i: usize = 0;
    while i < tags.len()
        invariant
            0 <= i <= tags@.len(),
            forall|j: int| 0 <= j < i ==> tags.deep_view()[j] != name@,
        decreases tags@.len() - i,
    {
        if str_equal(tags[i].as_str(), name.as_str()) {
            proof {
                assert(tags.deep_view()[i as int] == name@);
            }
            return true;
        }
        i = i + 1;
    }
    false
}

/// Decides a tag expression over a scenario's tags.
pub fn evaluate(expr: &TagExpr, tags: &Vec<String>) -> (r: bool)
    ensures
        r == spec_eval(expr.model(), tags.deep_view()),
    decreases expr,
{
    match expr {
        TagExpr::True => true,
        TagExpr::Tag(name) => tags_contain(tags, name),
        TagExpr::Not(inner) => !evaluate(inner, tags),
        TagExpr::And(a, b) => {
            let left = evaluate(a, tags);
            left && evaluate(b, tags)
        },
        TagExpr::Or(a, b) => {
            let left = evaluate(a, tags);
            left || evaluate(b, tags)
        },
    }
}

} // verus!
