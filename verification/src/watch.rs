//! Change notifications of a project folder: which changed paths are reported
//! to the editor. Hidden entries (`.shiro`, `.git`, …) and the temporary files
//! of atomic writes are never reported.

use vstd::prelude::*;
use crate::text::{chars_of, string_of, join, ends_with, matches_at, join_pieces, seqs_view};
use crate::evidence::strings_view;

verus! {

/// Suffix of the temporary file that an atomic write renames into place.
pub const TMP_SUFFIX: &'static str = ".shiro-tmp";

/// A path segment that names a hidden entry.
pub open spec fn hidden_segment(seg: Seq<char>) -> bool {
    seg.len() > 0 && seg[0] == '.'
}

/// The reported form of a changed path, given its segments below the project
/// root: the segments joined by `/`, none when a segment is hidden or the
/// path is an atomic write's temporary file.
pub open spec fn rel_path_spec(segs: Seq<Seq<char>>) -> Option<Seq<char>> {
    if exists|i: int| 0 <= i < segs.len() && hidden_segment(#[trigger] segs[i]) {
        None
    } else if ends_with(join(segs, "/"@), TMP_SUFFIX@) {
        None
    } else {
        Some(join(segs, "/"@))
    }
}

/// The reported form of a changed path, given its segments below the project root.
pub fn rel_path(segments: &[String]) -> (r: Option<String>)
    ensures
        match r {
            Some(s) => rel_path_spec(strings_view(segments@)) == Some(s@),
            None => rel_path_spec(strings_view(segments@)) is None,
        },
{
    let ghost segs = strings_view(segments@);
    let mut pieces: Vec<Vec<char>> = Vec::new();
    let mut i: usize = 0;
    while i < segments.len()
        invariant
            i <= segments@.len(),
            segs == strings_view(segments@),
            pieces@.len() == i,
            seqs_view(pieces@) == segs.take(i as int),
            forall|k: int| 0 <= k < i ==> !hidden_segment(#[trigger] segs[k]),
        decreases segments@.len() - i,
    {
        let c = chars_of(&segments[i]);
        assert(segs[i as int] == c@);
        if c.len() > 0 && c[0] == '.' {
            assert(hidden_segment(segs[i as int]));
            return None;
        }
        let ghost before = pieces@;
        pieces.push(c);
        assert forall|k: int| 0 <= k < i + 1 implies #[trigger] seqs_view(pieces@)[k] == segs.take(i as int + 1)[k] by {
            if k < i {
                assert(seqs_view(before)[k] == segs.take(i as int)[k]);
            }
        }
        assert(seqs_view(pieces@) =~= segs.take(i as int + 1));
        i = i + 1;
    }
    assert(segs.take(i as int) =~= segs);
    let joined = join_pieces(&pieces, "/");
    let tmp = chars_of(TMP_SUFFIX);
    if joined.len() >= tmp.len() && matches_at(&joined, &tmp, joined.len() - tmp.len()) {
        return None;
    }
    Some(string_of(&joined))
}

} // verus!
