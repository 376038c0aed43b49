//! Step expressions: matching a step definition's pattern against step text.
//!
//! A step definition's pattern is a regular expression that must match the
//! full step text; each capture group yields one positional argument.  The
//! matching itself is done by the regex crate; its outcome on a fixed
//! pattern and text is named by the uninterpreted function
//! `regex_captures`, and everything around the call is verified against
//! that name.

use vstd::prelude::*;

verus! {

/// What `regex::Regex::new(pattern)` followed by `captures(text)` returns:
/// `None` when the pattern does not compile or does not match anywhere in
/// `text`; on a match, one entry per capture group of the pattern, group 0
/// being the whole match, with `None` for groups that did not participate.
pub uninterp spec fn regex_captures(pattern: Seq<char>, text: Seq<char>) -> Option<
    Seq<Option<Seq<char>>>,
>;

/// Relies on `regex::Regex::new` and `regex::Regex::captures` (the body
/// converts the `Captures` to owned strings with `Captures::iter` and
/// `Match::as_str`): compiling a fixed pattern and matching it against a
/// fixed text is a function of the two character sequences alone, which
/// `regex_captures` names.  On a match the capture list is never empty and
/// its first entry is present: the `Captures` documentation states that
/// the 0th group always corresponds to the entire match.
#[verifier::external_body]
fn regex_captures_exec(pattern: &str, text: &str) -> (r: Option<Vec<Option<String>>>)
    ensures
        r.deep_view() == regex_captures(pattern@, text@),
        r matches Some(g) ==> g@.len() >= 1 && g@[0] is Some,
{
    match regex::Regex::new(pattern) {
        Ok(re) => re.captures(text).map(
            |caps| caps.iter().map(|m| m.map(|x| x.as_str().to_owned())).collect(),
        ),
        Err(_) => None,
    }
}

/// The pattern anchored to the whole text: `^(?:` pattern `)$`.
pub open spec fn spec_anchored(pattern: Seq<char>) -> Seq<char> {
    "^(?:"@ + pattern + ")$"@
}

/// Builds the anchored form of a pattern.
fn anchored(pattern: &str) -> (r: String)
    ensures
        r@ == spec_anchored(pattern@),
{
    let mut out = String::from_str("^(?:");
    out.append(pattern);
    out.append(")$");
    out
}

/// The positional arguments a pattern captures from a step text: `None`
/// when the anchored pattern does not match the whole text; on a match,
/// one substring per capture group in capture order, the empty string for
/// groups that did not participate.
pub open spec fn spec_captured_args(pattern: Seq<char>, text: Seq<char>) -> Option<Seq<Seq<char>>> {
    match regex_captures(spec_anchored(pattern), text) {
        None => None,
        Some(groups) => Some(
            Seq::new(
                (groups.len() - 1) as nat,
                |i: int|
                    match groups[i + 1] {
                        Some(s) => s,
                        None => Seq::empty(),
                    },
            ),
        ),
    }
}

/// Matches a step definition pattern against a step text.
///
/// Returns `None` exactly when the anchored pattern does not match the
/// whole text (or does not compile); on a match, the captured arguments in
/// capture order.
pub fn captured_args(pattern: &str, text: &str) -> (r: Option<Vec<String>>)
    ensures
        r.deep_view() == spec_captured_args(pattern@, text@),
{
    let anchored_pattern = anchored(pattern);
    match regex_captures_exec(anchored_pattern.as_str(), text) {
        None => None,
        Some(groups) => {
            let ghost spec_groups = regex_captures(spec_anchored(pattern@), text@).unwrap();
            let mut out: Vec<String> = Vec::new();
            let mut i: usize = 1;
            while i < groups.len()
                invariant
                    1 <= i <= groups@.len(),
                    groups.deep_view() =~= spec_groups,
                    out@.len() == i - 1,
                    forall|j: int|
                        0 <= j < i - 1 ==> #[trigger] out.deep_view()[j] == (match spec_groups[j
                            + 1] {
                            Some(s) => s,
                            None => Seq::<char>::empty(),
                        }),
                decreases groups@.len() - i,
            {
                let ghost prev = out.deep_view();
                match &groups[i] {
                    Some(s) => out.push(s.clone()),
                    None => out.push(String::new()),
                }
                proof {
                    assert(groups.deep_view()[i as int] == groups@[i as int].deep_view());
                    assert forall|j: int| 0 <= j < i implies #[trigger] out.deep_view()[j]
                        == (match spec_groups[j + 1] {
                        Some(s) => s,
                        None => Seq::<char>::empty(),
                    }) by {
                        if j < i - 1 {
                            assert(out.deep_view()[j] == prev[j]);
                        } else {
                            assert(out.deep_view()[j] == out@[j].deep_view());
                        }
                    }
                }
                i = i + 1;
            }
            proof {
                let expected = spec_captured_args(pattern@, text@).unwrap();
                assert forall|j: int| 0 <= j < out@.len() implies out.deep_view()[j]
                    == expected[j] by {}
                assert(out.deep_view() =~= expected);
            }
            Some(out)
        },
    }
}

} // verus!
