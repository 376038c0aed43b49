//! Source locations of registered handlers, used in diagnostics.

use vstd::prelude::*;

verus! {

/// Where a step definition or hook was declared: source file path and
/// 1-based line number.
#[derive(Debug)]
pub struct CodeLocation {
    pub file_path: String,
    pub line_number: usize,
}

/// Mathematical model of a `CodeLocation`.
pub struct LocationModel {
    pub file_path: Seq<char>,
    pub line_number: int,
}

impl DeepView for CodeLocation {
    type V = LocationModel;

    open spec fn deep_view(&self) -> LocationModel {
        LocationModel { file_path: self.file_path@, line_number: self.line_number as int }
    }
}

impl CodeLocation {
    /// Copies a location; the copy models the same location.
    pub fn clone_loc(&self) -> (c: CodeLocation)
        ensures
            c.deep_view() == self.deep_view(),
    {
        CodeLocation { file_path: self.file_path.clone(), line_number: self.line_number }
    }
}

/// Copies a list of locations; the copy models the same list.
pub fn clone_locations(locations: &Vec<CodeLocation>) -> (c: Vec<CodeLocation>)
    ensures
        c.deep_view() == locations.deep_view(),
{
    let mut out: Vec<CodeLocation> = Vec::new();
    let mut i: usize = 0;
    while i < locations.len()
        invariant
            0 <= i <= locations@.len(),
            out@.len() == i,
            forall|j: int| 0 <= j < i ==> #[trigger] out@[j].deep_view() == locations@[j].deep_view(),
        decreases locations@.len() - i,
    {
        out.push(locations[i].clone_loc());
        i = i + 1;
    }
    proof {
        assert forall|j: int| 0 <= j < locations@.len() implies out.deep_view()[j]
            == locations.deep_view()[j] by {
            assert(out@[j].deep_view() == locations@[j].deep_view());
        }
        assert(out.deep_view() =~= locations.deep_view());
    }
    out
}

} // verus!
