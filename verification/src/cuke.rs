//! Executable scenarios ("cukes") and step arguments.
//!
//! A cuke is what the parser collaborator produces from a feature file: a
//! named, tagged, ordered list of steps.  A matched step hands its handler
//! a vector of `StepArgument`s: one `Expression` per regex capture group,
//! then the step's docstring or table if it carries one.

use vstd::prelude::*;

use crate::glue::StepKeyword;

verus! {

/// The docstring or data table a step may carry.
#[derive(Debug)]
pub enum CukeArgument {
    DocString { content: String, content_type: Option<String> },
    Table { rows: Vec<Vec<String>> },
}

/// Mathematical model of a `CukeArgument`.
pub enum CukeArgumentModel {
    DocString { content: Seq<char>, content_type: Option<Seq<char>> },
    Table { rows: Seq<Seq<Seq<char>>> },
}

impl DeepView for CukeArgument {
    type V = CukeArgumentModel;

    open spec fn deep_view(&self) -> CukeArgumentModel {
        match self {
            CukeArgument::DocString { content, content_type } => CukeArgumentModel::DocString {
                content: content@,
                content_type: content_type.deep_view(),
            },
            CukeArgument::Table { rows } => CukeArgumentModel::Table { rows: rows.deep_view() },
        }
    }
}

/// One step of a cuke: a concrete keyword (never `Star`), the step text,
/// and an optional docstring or table.
#[derive(Debug)]
pub struct CukeStep {
    pub keyword: StepKeyword,
    pub text: String,
    pub argument: Option<CukeArgument>,
}

/// Mathematical model of a `CukeStep`.
pub struct CukeStepModel {
    pub keyword: StepKeyword,
    pub text: Seq<char>,
    pub argument: Option<CukeArgumentModel>,
}

impl DeepView for CukeStep {
    type V = CukeStepModel;

    open spec fn deep_view(&self) -> CukeStepModel {
        CukeStepModel {
            keyword: self.keyword,
            text: self.text@,
            argument: self.argument.deep_view(),
        }
    }
}

/// One executable scenario.
#[derive(Debug)]
pub struct Cuke {
    /// The source file the scenario came from.
    pub uri: String,
    /// The scenario name.
    pub name: String,
    /// The scenario's tags.
    pub tags: Vec<String>,
    /// The steps, in source order.
    pub steps: Vec<CukeStep>,
}

/// Mathematical model of a `Cuke`.
pub struct CukeModel {
    pub uri: Seq<char>,
    pub name: Seq<char>,
    pub tags: Seq<Seq<char>>,
    pub steps: Seq<CukeStepModel>,
}

impl DeepView for Cuke {
    type V = CukeModel;

    open spec fn deep_view(&self) -> CukeModel {
        CukeModel {
            uri: self.uri@,
            name: self.name@,
            tags: self.tags.deep_view(),
            steps: self.steps.deep_view(),
        }
    }
}

/// An argument handed to a step handler.
#[derive(Debug)]
pub enum StepArgument {
    /// One captured substring, per regex capture group, in capture order.
    Expression(String),
    /// The step's docstring.
    DocString { content: String, content_type: Option<String> },
    /// The step's data table.
    DataTable(DataTable),
}

/// Mathematical model of a `StepArgument`.
pub enum StepArgumentModel {
    Expression(Seq<char>),
    DocString { content: Seq<char>, content_type: Option<Seq<char>> },
    DataTable { rows: Seq<Seq<Seq<char>>> },
}

impl DeepView for StepArgument {
    type V = StepArgumentModel;

    open spec fn deep_view(&self) -> StepArgumentModel {
        match self {
            StepArgument::Expression(s) => StepArgumentModel::Expression(s@),
            StepArgument::DocString { content, content_type } => StepArgumentModel::DocString {
                content: content@,
                content_type: content_type.deep_view(),
            },
            StepArgument::DataTable(t) => StepArgumentModel::DataTable { rows: t.rows.deep_view() },
        }
    }
}

/// The rows-of-cells table a step may carry; the first row is the header.
#[derive(Debug)]
pub struct DataTable {
    pub rows: Vec<Vec<String>>,
}

/// An argument that could not be converted to the type a handler expects.
#[derive(Debug)]
pub struct FromStepArgumentError {
    pub message: String,
}

/// The outcome of converting a step argument.
pub type FromStepArgumentResult<T> = Result<T, FromStepArgumentError>;

/// Converts a row of a `DataTable` to `Self`.
pub trait FromDataTableRow: Sized {
    fn from_data_table_row(row: &[String]) -> FromStepArgumentResult<Self>;
}

impl DataTable {
    /// Converts every row but the header.  `Ok` holds one value per
    /// non-header row; the first failing conversion is returned instead.
    pub fn to_vec<T: FromDataTableRow>(&self) -> (r: FromStepArgumentResult<Vec<T>>)
        ensures
            r matches Ok(v) ==> v@.len() == if self.rows@.len() == 0 {
                0int
            } else {
                self.rows@.len() - 1
            },
    {
        let mut out: Vec<T> = Vec::new();
        let mut i: usize = 1;
        while i < self.rows.len()
            invariant
                1 <= i <= self.rows@.len() || (i == 1 && self.rows@.len() == 0),
                out@.len() == if i <= self.rows@.len() {
                    i - 1
                } else {
                    0int
                },
            decreases self.rows@.len() - i,
        {
            match T::from_data_table_row(self.rows[i].as_slice()) {
                Ok(v) => out.push(v),
                Err(e) => {
                    return Err(e);
                },
            }
            i = i + 1;
        }
        Ok(out)
    }

    /// Converts the header row.  Fails when the table has no rows.
    pub fn headers<T: FromDataTableRow>(&self) -> (r: FromStepArgumentResult<T>)
        ensures
            self.rows@.len() == 0 ==> r is Err,
    {
        if self.rows.len() >= 1 {
            T::from_data_table_row(self.rows[0].as_slice())
        } else {
            Err(FromStepArgumentError { message: no_rows_message() })
        }
    }

    /// Converts every row, the header included.  `Ok` holds one value per
    /// row; the first failing conversion is returned instead.
    pub fn all_to_vec<T: FromDataTableRow>(&self) -> (r: FromStepArgumentResult<Vec<T>>)
        ensures
            r matches Ok(v) ==> v@.len() == self.rows@.len(),
    {
        let mut out: Vec<T> = Vec::new();
        let mut i: usize = 0;
        while i < self.rows.len()
            invariant
                0 <= i <= self.rows@.len(),
                out@.len() == i,
            decreases self.rows@.len() - i,
        {
            match T::from_data_table_row(self.rows[i].as_slice()) {
                Ok(v) => out.push(v),
                Err(e) => {
                    return Err(e);
                },
            }
            i = i + 1;
        }
        Ok(out)
    }
}

/// The message of the error `headers` returns on an empty table.
fn no_rows_message() -> (r: String)
    ensures
        r@ == "No rows"@,
{
    String::from_str("No rows")
}

/// Copies a list of cells; the copy models the same list.
pub fn clone_cells(cells: &Vec<String>) -> (c: Vec<String>)
    ensures
        c.deep_view() == cells.deep_view(),
{
    let mut out: Vec<String> = Vec::new();
    let mut i: usize = 0;
    while i < cells.len()
        invariant
            0 <= i <= cells@.len(),
            out@.len() == i,
            forall|j: int| 0 <= j < i ==> #[trigger] out@[j]@ == cells@[j]@,
        decreases cells@.len() - i,
    {
        out.push(cells[i].clone());
        i = i + 1;
    }
    proof {
        assert forall|j: int| 0 <= j < cells@.len() implies out.deep_view()[j]
            == cells.deep_view()[j] by {
            assert(out@[j]@ == cells@[j]@);
        }
        assert(out.deep_view() =~= cells.deep_view());
    }
    out
}

/// Copies table rows; the copy models the same rows.
pub fn clone_rows(rows: &Vec<Vec<String>>) -> (c: Vec<Vec<String>>)
    ensures
        c.deep_view() == rows.deep_view(),
{
    let mut out: Vec<Vec<String>> = Vec::new();
    let mut i: usize = 0;
    while i < rows.len()
        invariant
            0 <= i <= rows@.len(),
            out@.len() == i,
            forall|j: int| 0 <= j < i ==> #[trigger] out@[j].deep_view() == rows@[j].deep_view(),
        decreases rows@.len() - i,
    {
        out.push(clone_cells(&rows[i]));
        i = i + 1;
    }
    proof {
        assert forall|j: int| 0 <= j < rows@.len() implies out.deep_view()[j]
            == rows.deep_view()[j] by {
            assert(out@[j].deep_view() == rows@[j].deep_view());
        }
        assert(out.deep_view() =~= rows.deep_view());
    }
    out
}

/// Copies an optional content type; the copy models the same value.
pub fn clone_content_type(ct: &Option<String>) -> (c: Option<String>)
    ensures
        c.deep_view() == ct.deep_view(),
{
    match ct {
        Some(s) => Some(s.clone()),
        None => None,
    }
}

/// Copies one step argument; the copy models the same argument.
pub fn clone_argument(arg: &StepArgument) -> (c: StepArgument)
    ensures
        c.deep_view() == arg.deep_view(),
{
    match arg {
        StepArgument::Expression(s) => StepArgument::Expression(s.clone()),
        StepArgument::DocString { content, content_type } => StepArgument::DocString {
            content: content.clone(),
            content_type: clone_content_type(content_type),
        },
        StepArgument::DataTable(t) => StepArgument::DataTable(
            DataTable { rows: clone_rows(&t.rows) },
        ),
    }
}

/// Copies an argument vector; the copy models the same arguments.
pub fn clone_arguments(args: &Vec<StepArgument>) -> (c: Vec<StepArgument>)
    ensures
        c.deep_view() == args.deep_view(),
{
    let mut out: Vec<StepArgument> = Vec::new();
    let mut i: usize = 0;
    while i < args.len()
        invariant
            0 <= i <= args@.len(),
            out@.len() == i,
            forall|j: int| 0 <= j < i ==> #[trigger] out@[j].deep_view() == args@[j].deep_view(),
        decreases args@.len() - i,
    {
        out.push(clone_argument(&args[i]));
        i = i + 1;
    }
    proof {
        assert forall|j: int| 0 <= j < args@.len() implies out.deep_view()[j]
            == args.deep_view()[j] by {
            assert(out@[j].deep_view() == args@[j].deep_view());
        }
        assert(out.deep_view() =~= args.deep_view());
    }
    out
}

} // verus!
