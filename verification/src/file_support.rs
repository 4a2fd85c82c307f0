//! Path-list filtering for directory listings.
//!
//! Walking a directory is I/O and stays with the calling layer; what is
//! decided here is which of the collected paths are kept: the ones the
//! glob pattern matches, under the same pinned matching options as the
//! archive listing (case-sensitive, a literal separator only matches a
//! separator, a literal leading dot only matches a leading dot; which
//! characters count as separators follows the host's path conventions).

use vstd::prelude::*;

use crate::archive::{glob_match, glob_new, glob_parses, glob_source};
use crate::errors::GuiError;
use crate::vault::matching_names;

verus! {

/// Keep the paths the pattern matches, in their original order; an
/// empty pattern keeps everything. A malformed pattern is invalid
/// input.
pub fn filter_paths(paths: Vec<String>, pattern: &str) -> (r: Result<Vec<String>, GuiError>)
    ensures
        r is Err <==> (pattern@.len() > 0 && !glob_parses(pattern@)),
        r is Err ==> r->Err_0 == GuiError::InvalidInput,
        r is Ok ==> r->Ok_0.deep_view() == (if pattern@.len() == 0 {
            paths.deep_view()
        } else {
            matching_names(paths.deep_view(), pattern@)
        }),
{
    if pattern.is_empty() {
        return Ok(paths);
    }
    let compiled = match glob_new(pattern) {
        Ok(p) => p,
        Err(e) => {
            return Err(e);
        },
    };
    let n: usize = paths.len();
    let mut out: Vec<String> = Vec::new();
    let mut i: usize = 0;
    proof {
        assert(paths.deep_view().take(0) =~= Seq::<Seq<char>>::empty());
    }
    while i < n
        invariant
            n == paths@.len(),
            0 <= i <= n,
            glob_source(compiled) == pattern@,
            out.deep_view() == matching_names(paths.deep_view().take(i as int), pattern@),
        decreases n - i,
    {
        let ghost prefix = paths.deep_view().take(i as int);
        if glob_match(&compiled, paths[i].as_str(), true, true, true) {
            out.push(paths[i].clone());
        }
        i = i + 1;
        proof {
            let next = paths.deep_view().take(i as int);
            assert(next.drop_last() =~= prefix);
            assert(next.last() == paths.deep_view()[i - 1]);
        }
    }
    proof {
        assert(paths.deep_view().take(n as int) =~= paths.deep_view());
    }
    Ok(out)
}

} // verus!
