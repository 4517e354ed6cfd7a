//! Path and name rules: display names, project-relative path checks, entry
//! names and the ids of tasks, sessions and characters. Paths follow Unix
//! conventions: `/` separates components.

use vstd::prelude::*;
use crate::chunk::lemma_last_index_in;
use crate::text::{chars_of, find_last_in, last_index_in, slice_to_vec, string_of, trim, trim_span};

verus! {

pub open spec fn is_dot(seg: Seq<char>) -> bool {
    seg == seq!['.']
}

pub open spec fn is_dot_dot(seg: Seq<char>) -> bool {
    seg == seq!['.', '.']
}

/// Strip trailing `/` and `\`.
pub open spec fn trim_trailing_seps(s: Seq<char>) -> Seq<char>
    decreases s.len(),
{
    if s.len() > 0 && (s.last() == '/' || s.last() == '\\') {
        trim_trailing_seps(s.drop_last())
    } else {
        s
    }
}

/// Start of the component that ends at `end` (just after the previous `/`).
pub open spec fn comp_start(t: Seq<char>, end: int) -> int {
    match last_index_in(t, 0, end, '/') {
        Some(k) => k + 1,
        None => 0,
    }
}

/// The last normal component of `t[..end]` (`Path::file_name` on Unix):
/// empty and `.` components are skipped, a final `..` gives none.
pub open spec fn last_component(t: Seq<char>, end: int) -> Option<Seq<char>>
    decreases end,
{
    if end <= 0 || end > t.len() {
        None
    } else if t[end - 1] == '/' {
        last_component(t, end - 1)
    } else {
        let start = comp_start(t, end);
        let seg = t.subrange(start, end);
        proof {
            lemma_last_index_in(t, 0, end, '/');
        }
        if is_dot(seg) {
            last_component(t, start)
        } else if is_dot_dot(seg) {
            None
        } else {
            Some(seg)
        }
    }
}

/// Display name of a folder path: its last component, trailing separators
/// ignored; the trimmed path itself when it has no normal last component.
pub open spec fn folder_name_spec(path: Seq<char>) -> Seq<char> {
    let t = trim_trailing_seps(path);
    match last_component(t, t.len() as int) {
        Some(n) => n,
        None => t,
    }
}

fn is_dot_span(s: &[char], a: usize, b: usize) -> (r: bool)
    requires
        a <= b <= s@.len(),
    ensures
        r == is_dot(s@.subrange(a as int, b as int)),
{
    let ghost sub = s@.subrange(a as int, b as int);
    let r = b - a == 1 && s[a] == '.';
    proof {
        if r {
            assert(sub =~= seq!['.']);
        }
        if is_dot(sub) {
            assert(sub.len() == 1);
            assert(sub[0] == '.');
            assert(sub[0] == s@[a as int]);
        }
    }
    r
}

fn is_dot_dot_span(s: &[char], a: usize, b: usize) -> (r: bool)
    requires
        a <= b <= s@.len(),
    ensures
        r == is_dot_dot(s@.subrange(a as int, b as int)),
{
    let ghost sub = s@.subrange(a as int, b as int);
    let r = b - a == 2 && s[a] == '.' && s[a + 1] == '.';
    proof {
        if r {
            assert(sub =~= seq!['.', '.']);
        }
        if is_dot_dot(sub) {
            assert(sub.len() == 2);
            assert(sub[0] == '.' && sub[1] == '.');
            assert(sub[0] == s@[a as int] && sub[1] == s@[a + 1]);
        }
    }
    r
}

pub fn folder_name_chars(path: &[char]) -> (r: Vec<char>)
    ensures
        r@ == folder_name_spec(path@),
{
    let mut e = path.len();
    assert(path@.take(e as int) =~= path@);
    while e > 0 && (path[e - 1] == '/' || path[e - 1] == '\\')
        invariant
            e <= path@.len(),
            trim_trailing_seps(path@) == trim_trailing_seps(path@.take(e as int)),
        decreases e,
    {
        assert(path@.take(e as int).drop_last() =~= path@.take(e - 1));
        e -= 1;
    }
    assert(trim_trailing_seps(path@.take(e as int)) == path@.take(e as int));
    let t = slice_to_vec(path, 0, e);
    assert(t@ =~= path@.take(e as int));
    let mut end = t.len();
    while end > 0
        invariant
            end <= t@.len(),
            t@ == trim_trailing_seps(path@),
            last_component(t@, t@.len() as int) == last_component(t@, end as int),
        decreases end,
    {
        if t[end - 1] == '/' {
            end -= 1;
        } else {
            proof {
                lemma_last_index_in(t@, 0, end as int, '/');
            }
            let start = match find_last_in(&t, 0, end, '/') {
                Some(k) => k + 1,
                None => 0,
            };
            assert(start as int == comp_start(t@, end as int));
            if is_dot_span(&t, start, end) {
                end = start;
            } else if is_dot_dot_span(&t, start, end) {
                return t;
            } else {
                return slice_to_vec(&t, start, end);
            }
        }
    }
    t
}

/// The display name of a folder path.
pub fn folder_name(path: &str) -> (r: String)
    ensures
        r@ == folder_name_spec(path@),
{
    let p = chars_of(path);
    string_of(&folder_name_chars(&p))
}


pub open spec fn is_sep(c: char) -> bool {
    c == '/' || c == '\\'
}

/// Offset of the first `/` or `\` in `s` (its length when there is none).
pub open spec fn first_sep(s: Seq<char>) -> nat
    decreases s.len(),
{
    if s.len() == 0 {
        0
    } else if is_sep(s[0]) {
        0
    } else {
        1 + first_sep(s.drop_first())
    }
}

/// Some segment of `s` (split at `/` and `\`) is `.` or `..`.
pub open spec fn has_dot_segment(s: Seq<char>) -> bool
    decreases s.len(),
{
    let k = first_sep(s);
    let seg = s.take(k as int);
    if is_dot(seg) || is_dot_dot(seg) {
        true
    } else if k < s.len() {
        has_dot_segment(s.skip(k + 1 as int))
    } else {
        false
    }
}

pub proof fn lemma_first_sep(s: Seq<char>, i: int)
    requires
        0 <= i <= s.len(),
        forall|k: int| 0 <= k < i ==> !is_sep(s[k]),
        i == s.len() || is_sep(s[i]),
    ensures
        first_sep(s) == i,
    decreases i,
{
    if i > 0 {
        lemma_first_sep(s.drop_first(), i - 1);
    }
}

pub fn has_dot_segment_chars(s: &[char]) -> (r: bool)
    ensures
        r == has_dot_segment(s@),
{
    let n = s.len();
    let mut p: usize = 0;
    assert(s@.skip(0) =~= s@);
    loop
        invariant
            n == s@.len(),
            p <= n,
            has_dot_segment(s@) == has_dot_segment(s@.skip(p as int)),
        decreases n - p,
    {
        let ghost rest = s@.skip(p as int);
        let mut q = p;
        while q < n && s[q] != '/' && s[q] != '\\'
            invariant
                p <= q <= n == s@.len(),
                forall|k: int| p <= k < q ==> !is_sep(s@[k]),
            decreases n - q,
        {
            q += 1;
        }
        proof {
            lemma_first_sep(rest, q - p);
        }
        assert(rest.take(q - p) =~= s@.subrange(p as int, q as int));
        if is_dot_span(s, p, q) || is_dot_dot_span(s, p, q) {
            return true;
        }
        if q >= n {
            return false;
        }
        assert(rest.skip(q - p + 1) =~= s@.skip(q + 1));
        p = q + 1;
    }
}

/// A project-relative path accepted by `resolve_inside`: not absolute, no
/// `.` or `..` segment, not blank.
pub open spec fn rel_path_ok(rel: Seq<char>) -> bool {
    !(rel.len() > 0 && rel[0] == '/') && !has_dot_segment(rel) && trim(rel).len() > 0
}

/// The check of a path relative to a project folder (and of `legal_rel` for chat proposals):
/// `Ok` with nothing to add when `rel` may be joined to the project root.
pub fn check_relative_path(rel: &str) -> (r: Result<(), crate::error::ApiFailure>)
    ensures
        r is Ok <==> rel_path_ok(rel@),
        r matches Err(f) ==> f.kind == crate::error::ErrorKind::BadRequest && f.message@ == "非法的文件路径"@,
{
    let v = chars_of(rel);
    let (a, b) = trim_span(&v, 0, v.len());
    assert(v@.subrange(0, v@.len() as int) =~= v@);
    if (v.len() > 0 && v[0] == '/') || has_dot_segment_chars(&v) || a == b {
        Err(crate::error::bad_request("非法的文件路径"))
    } else {
        Ok(())
    }
}

/// Whether a relative path is legal (chat proposal targets).
pub fn legal_rel(rel: &str) -> (r: bool)
    ensures
        r == rel_path_ok(rel@),
{
    check_relative_path(rel).is_ok()
}

/// Characters not allowed in entry names.
pub open spec fn is_invalid_name_char(c: char) -> bool {
    c == '/' || c == '\\' || c == ':' || c == '*' || c == '?' || c == '"' || c == '<' || c == '>' || c == '|'
}

/// A valid entry name (after trimming): not empty, not `.` or `..`, none of `\ / : * ? " < > |`.
pub open spec fn name_ok(t: Seq<char>) -> bool {
    t.len() > 0 && !is_dot(t) && !is_dot_dot(t) && forall|i: int| 0 <= i < t.len() ==> !is_invalid_name_char(#[trigger] t[i])
}

/// The trimmed name, or a bad request.
pub fn validate_name(name: &str) -> (r: Result<String, crate::error::ApiFailure>)
    ensures
        match r {
            Ok(n) => name_ok(trim(name@)) && n@ == trim(name@),
            Err(f) => !name_ok(trim(name@)) && f.kind == crate::error::ErrorKind::BadRequest
                && f.message@ == "名称不能为空，且不能包含 \\ / : * ? \" < > | 字符"@,
        },
{
    let v = chars_of(name);
    let (a, b) = trim_span(&v, 0, v.len());
    assert(v@.subrange(0, v@.len() as int) =~= v@);
    let t = slice_to_vec(&v, a, b);
    let mut bad = t.len() == 0 || is_dot_span(&t, 0, t.len()) || is_dot_dot_span(&t, 0, t.len());
    assert(t@.subrange(0, t@.len() as int) =~= t@);
    assert(t@ == trim(name@));
    let mut i: usize = 0;
    while i < t.len()
        invariant
            i <= t@.len(),
            !bad ==> t@.len() > 0 && !is_dot(t@) && !is_dot_dot(t@),
            !bad ==> forall|k: int| 0 <= k < i ==> !is_invalid_name_char(#[trigger] t@[k]),
            bad ==> !name_ok(t@),
        decreases t@.len() - i,
    {
        let c = t[i];
        if c == '/' || c == '\\' || c == ':' || c == '*' || c == '?' || c == '"' || c == '<' || c == '>' || c == '|' {
            bad = true;
        }
        i += 1;
    }
    if bad {
        Err(crate::error::bad_request("名称不能为空，且不能包含 \\ / : * ? \" < > | 字符"))
    } else {
        Ok(string_of(&t))
    }
}

/// Ids of tasks, chat sessions and characters: not empty, not starting with
/// `.`, no path separator.
pub open spec fn id_ok(id: Seq<char>) -> bool {
    id.len() > 0 && id[0] != '.' && forall|i: int| 0 <= i < id.len() ==> !is_sep(#[trigger] id[i])
}

pub fn valid_id(id: &str) -> (r: bool)
    ensures
        r == id_ok(id@),
{
    let v = chars_of(id);
    if v.len() == 0 {
        return false;
    }
    if v[0] == '.' {
        assert(id@[0] == '.');
        return false;
    }
    let mut i: usize = 0;
    while i < v.len()
        invariant
            i <= v@.len(),
            v@ == id@,
            forall|k: int| 0 <= k < i ==> !is_sep(#[trigger] v@[k]),
        decreases v@.len() - i,
    {
        if v[i] == '/' || v[i] == '\\' {
            assert(is_sep(id@[i as int]));
            return false;
        }
        i += 1;
    }
    true
}

/// Whether a character card id is legal.
pub fn valid_asset_id(id: &str) -> (r: bool)
    ensures
        r == id_ok(id@),
{
    valid_id(id)
}

/// Whether a task id is legal.
pub fn valid_task_id(id: &str) -> (r: bool)
    ensures
        r == id_ok(id@),
{
    valid_id(id)
}

/// Whether a chat session id is legal.
pub fn valid_session_id(id: &str) -> (r: bool)
    ensures
        r == id_ok(id@),
{
    valid_id(id)
}

/// `c` lowercases (`char::to_lowercase`) to the ASCII lowercase letter or dot `x`.
pub open spec fn lowers_to(c: char, x: char) -> bool {
    c == x || (('a' <= x <= 'z') && c as u32 == x as u32 - 32) || (x == 'k' && c == '\u{212A}')
}

/// The lowercased `name` ends with the ASCII lowercase `suffix`.
pub open spec fn ends_with_lower(name: Seq<char>, suffix: Seq<char>) -> bool {
    name.len() >= suffix.len() && forall|i: int| 0 <= i < suffix.len() ==> #[trigger] lowers_to(name[name.len() - suffix.len() + i], suffix[i])
}

pub fn ends_with_lower_exec(name: &[char], suffix: &[char]) -> (r: bool)
    requires
        forall|i: int| 0 <= i < suffix@.len() ==> ('a' <= #[trigger] suffix@[i] <= 'z') || suffix@[i] == '.',
    ensures
        r == ends_with_lower(name@, suffix@),
{
    if name.len() < suffix.len() {
        return false;
    }
    let off = name.len() - suffix.len();
    let mut i: usize = 0;
    while i < suffix.len()
        invariant
            i <= suffix@.len(),
            name@.len() == name.len(),
            suffix@.len() == suffix.len(),
            off + suffix@.len() == name@.len(),
            forall|k: int| 0 <= k < suffix@.len() ==> ('a' <= #[trigger] suffix@[k] <= 'z') || suffix@[k] == '.',
            forall|k: int| 0 <= k < i ==> #[trigger] lowers_to(name@[off + k], suffix@[k]),
        decreases suffix@.len() - i,
    {
        let c = name[off + i];
        let x = suffix[i];
        let ok = c == x || (x != '.' && (x as u32) >= 32 && (c as u32) == (x as u32) - 32) || (x == 'k' && c == '\u{212A}');
        if !ok {
            assert(!lowers_to(name@[name@.len() - suffix@.len() + i as int], suffix@[i as int]));
            return false;
        }
        i += 1;
    }
    true
}

/// Sheet (manuscript) files: `.md`, `.markdown` (markdown) and `.txt` (plain text), in any case.
pub open spec fn is_sheet_name(name: Seq<char>) -> bool {
    ends_with_lower(name, seq!['.', 'm', 'd']) || ends_with_lower(name, seq!['.', 'm', 'a', 'r', 'k', 'd', 'o', 'w', 'n'])
        || ends_with_lower(name, seq!['.', 't', 'x', 't'])
}

/// Whether a file name is a manuscript (`.md`, `.markdown`, `.txt`).
pub fn is_sheet_file(name: &str) -> (r: bool)
    ensures
        r == is_sheet_name(name@),
{
    let v = chars_of(name);
    let md = vec!['.', 'm', 'd'];
    let markdown = vec!['.', 'm', 'a', 'r', 'k', 'd', 'o', 'w', 'n'];
    let txt = vec!['.', 't', 'x', 't'];
    assert(md@ =~= seq!['.', 'm', 'd']);
    assert(markdown@ =~= seq!['.', 'm', 'a', 'r', 'k', 'd', 'o', 'w', 'n']);
    assert(txt@ =~= seq!['.', 't', 'x', 't']);
    ends_with_lower_exec(&v, &md) || ends_with_lower_exec(&v, &markdown) || ends_with_lower_exec(&v, &txt)
}

/// Whether a sheet is markdown (not `.txt`).
pub fn is_markdown_sheet(name: &str) -> (r: bool)
    ensures
        r == !ends_with_lower(name@, seq!['.', 't', 'x', 't']),
{
    let v = chars_of(name);
    let txt = vec!['.', 't', 'x', 't'];
    assert(txt@ =~= seq!['.', 't', 'x', 't']);
    !ends_with_lower_exec(&v, &txt)
}

/// Paths below the `.shiro` working folder (first segment `.shiro`) are
/// never removed or renamed.
pub open spec fn under_work_folder(rel: Seq<char>) -> bool {
    rel.take(first_sep(rel) as int) == seq!['.', 's', 'h', 'i', 'r', 'o']
}

pub fn is_under_work_folder(rel: &str) -> (r: bool)
    ensures
        r == under_work_folder(rel@),
{
    let v = chars_of(rel);
    let mut q: usize = 0;
    while q < v.len() && v[q] != '/' && v[q] != '\\'
        invariant
            q <= v@.len(),
            forall|k: int| 0 <= k < q ==> !is_sep(v@[k]),
        decreases v@.len() - q,
    {
        q += 1;
    }
    proof {
        lemma_first_sep(v@, q as int);
    }
    let w = vec!['.', 's', 'h', 'i', 'r', 'o'];
    assert(w@ =~= seq!['.', 's', 'h', 'i', 'r', 'o']);
    let seg = slice_to_vec(&v, 0, q);
    assert(seg@ =~= v@.take(q as int));
    crate::text::chars_eq(&seg, &w)
}

} // verus!
