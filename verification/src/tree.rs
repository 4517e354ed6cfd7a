//! The text of a project's folder tree shown to the chat model: folders and
//! manuscripts, indented by two spaces a level, hidden entries left out, cut
//! after a bounded number of lines.

use vstd::prelude::*;
use crate::paths::{is_sheet_name, is_sheet_file};
use crate::text::{chars_of, extend_all, join, join_pieces, push_str_chars, seqs_view, string_of};

verus! {

/// Lines of the tree text after which the listing is cut.
pub const TREE_MAX_LINES: usize = 200;
/// The line that marks a cut listing.
pub const TREE_CUT: &'static str = "…（已截断）";

/// One entry of a folder, as listed: folders before files, each group by name.
#[derive(Debug)]
pub struct DirEntry {
    pub name: String,
    pub is_dir: bool,
    /// The listed entries of a folder (empty for a file or an unreadable folder).
    pub children: Vec<DirEntry>,
}

pub open spec fn hidden_name(name: Seq<char>) -> bool {
    name.len() > 0 && name[0] == '.'
}

/// Whether an entry's name hides it from listings (`.shiro`, `.git`, …).
pub fn is_hidden_name(name: &str) -> (r: bool)
    ensures
        r == hidden_name(name@),
{
    let c = chars_of(name);
    c.len() > 0 && c[0] == '.'
}

/// The lines of the listing of entries `i..` of one folder at indentation
/// `prefix`, appended to `out`: a listing that reaches the line limit ends
/// with the cut mark; a folder is not opened once the limit is reached.
pub open spec fn walk_items(items: Seq<DirEntry>, i: int, prefix: Seq<char>, out: Seq<Seq<char>>) -> Seq<Seq<char>>
    decreases items, items.len() - i,
{
    if i < 0 || i >= items.len() {
        out
    } else if out.len() >= TREE_MAX_LINES {
        out.push(TREE_CUT@)
    } else {
        let it = items[i];
        if hidden_name(it.name@) {
            walk_items(items, i + 1, prefix, out)
        } else if it.is_dir {
            let opened = out.push(prefix + it.name@ + seq!['/']);
            let inner = if opened.len() >= TREE_MAX_LINES {
                opened
            } else {
                proof {
                    assert(decreases_to!(items => items[i]));
                    assert(decreases_to!(items[i] => items[i].children));
                    assert(decreases_to!(items[i].children => items[i].children@));
                }
                walk_items(it.children@, 0, prefix + seq![' ', ' '], opened)
            };
            walk_items(items, i + 1, prefix, inner)
        } else if is_sheet_name(it.name@) {
            walk_items(items, i + 1, prefix, out.push(prefix + it.name@))
        } else {
            walk_items(items, i + 1, prefix, out)
        }
    }
}

/// The tree text of a project whose root lists `items`.
pub open spec fn tree_text_spec(items: Seq<DirEntry>) -> Seq<char> {
    join(walk_items(items, 0, Seq::empty(), Seq::empty()), "\n"@)
}

fn walk(items: &Vec<DirEntry>, prefix: &Vec<char>, out: &mut Vec<Vec<char>>)
    ensures
        seqs_view(final(out)@) == walk_items(items@, 0, prefix@, seqs_view(old(out)@)),
    decreases items@,
{
    let ghost goal = walk_items(items@, 0, prefix@, seqs_view(out@));
    let mut i: usize = 0;
    while i < items.len()
        invariant
            i <= items@.len(),
            goal == walk_items(items@, 0, prefix@, seqs_view(old(out)@)),
            walk_items(items@, i as int, prefix@, seqs_view(out@)) == goal,
        decreases items@.len() - i,
    {
        let ghost before = seqs_view(out@);
        if out.len() >= TREE_MAX_LINES {
            let cut = chars_of(TREE_CUT);
            assert(before.len() == out@.len());
            assert(walk_items(items@, i as int, prefix@, before) == before.push(TREE_CUT@));
            out.push(cut);
            assert(seqs_view(out@) =~= before.push(TREE_CUT@));
            return;
        }
        let it = &items[i];
        let name = chars_of(&it.name);
        if name.len() > 0 && name[0] == '.' {
            i = i + 1;
        } else if it.is_dir {
            let mut line: Vec<char> = Vec::new();
            extend_all(&mut line, prefix);
            push_str_chars(&mut line, &it.name);
            line.push('/');
            assert(line@ =~= prefix@ + it.name@ + seq!['/']);
            out.push(line);
            assert(seqs_view(out@) =~= before.push(prefix@ + it.name@ + seq!['/']));
            if out.len() < TREE_MAX_LINES {
                let mut inner: Vec<char> = Vec::new();
                extend_all(&mut inner, prefix);
                inner.push(' ');
                inner.push(' ');
                assert(inner@ == prefix@ + seq![' ', ' ']);
                proof {
                    assert(decreases_to!(items@ => items@[i as int]));
                    assert(decreases_to!(items@[i as int] => items@[i as int].children));
                    assert(decreases_to!(items@[i as int].children => items@[i as int].children@));
                }
                walk(&it.children, &inner, out);
            }
            i = i + 1;
        } else if is_sheet_file(&it.name) {
            let mut line: Vec<char> = Vec::new();
            extend_all(&mut line, prefix);
            push_str_chars(&mut line, &it.name);
            assert(line@ =~= prefix@ + it.name@);
            out.push(line);
            assert(seqs_view(out@) =~= before.push(prefix@ + it.name@));
            i = i + 1;
        } else {
            i = i + 1;
        }
    }
}

/// The tree text of a project whose root lists `items`: one line a shown
/// entry (`name/` for a folder), joined by newlines.
pub fn tree_text(items: &Vec<DirEntry>) -> (r: String)
    ensures
        r@ == tree_text_spec(items@),
{
    let mut out: Vec<Vec<char>> = Vec::new();
    let prefix: Vec<char> = Vec::new();
    assert(seqs_view(out@) =~= Seq::<Seq<char>>::empty());
    assert(prefix@ =~= Seq::<char>::empty());
    walk(items, &prefix, &mut out);
    string_of(&join_pieces(&out, "\n"))
}

} // verus!
