//! Material probing: whether dialogue lines carry an explicit speaker
//! (script) or not (prose), and the citation units (scene headings) of each
//! segment. Deterministic, no model.

use vstd::prelude::*;
use crate::chunk::{is_scene_heading, is_scene_heading_line, source_segs_view, SegV, SourceSegment};
use crate::text::{
    contains_chars_vec, seqs_view, strings_of,
    chars_of, extend_all, is_whitespace_char, is_ws, line_spans, lines, run_len, slice_to_vec,
    spans_match, string_of, trim, trim_span,
};

verus! {

/// At most this many non-empty lines are sampled to decide the form.
pub const ATTRIBUTION_SAMPLE_LINES: usize = 1000;

/// Characters a speaker name may not contain.
pub open spec fn is_name_char(c: char) -> bool {
    !is_ws(c) && c != '：' && c != ':' && c != '，' && c != '。' && c != '！' && c != '？'
        && c != '…' && c != '·' && c != '「' && c != '」' && c != '『' && c != '』' && c != '('
        && c != ')' && c != '（' && c != '）'
}

pub fn is_name_char_exec(c: char) -> (r: bool)
    ensures
        r == is_name_char(c),
{
    !is_whitespace_char(c) && c != '：' && c != ':' && c != '，' && c != '。' && c != '！'
        && c != '？' && c != '…' && c != '·' && c != '「' && c != '」' && c != '『' && c != '』'
        && c != '(' && c != ')' && c != '（' && c != '）'
}

pub open spec fn name_class() -> spec_fn(char) -> bool {
    |c: char| is_name_char(c)
}

pub open spec fn ws_class() -> spec_fn(char) -> bool {
    |c: char| is_ws(c)
}

/// `\s*(.+)$` matches `u`: some whitespace, then at least one more
/// character, no newline among those.
pub open spec fn tail_matches(u: Seq<char>) -> bool {
    exists|k: int| #[trigger] tail_split_at(u, k)
}

/// `u[..k]` is whitespace and `u[k..]` is non-empty without a newline.
pub open spec fn tail_split_at(u: Seq<char>, k: int) -> bool {
    0 <= k < u.len() && (forall|i: int| 0 <= i < k ==> is_ws(#[trigger] u[i])) && (forall|i: int|
        k <= i < u.len() ==> #[trigger] u[i] != '\n')
}

fn tail_matches_exec(t: &[char], from: usize) -> (r: bool)
    requires
        from <= t@.len(),
    ensures
        r == tail_matches(t@.skip(from as int)),
{
    let ghost u = t@.skip(from as int);
    let n = t.len();
    if from >= n {
        return false;
    }
    // position of the last newline, if any
    let mut j = n;
    let mut last_nl: Option<usize> = None;
    while j > from
        invariant
            from <= j <= n == t@.len(),
            last_nl is None ==> forall|i: int| j <= i < n ==> t@[i] != '\n',
            last_nl matches Some(m) ==> j <= m < n && t@[m as int] == '\n' && forall|i: int| m < i < n ==> t@[i] != '\n',
        decreases j - from,
    {
        if last_nl.is_none() && t[j - 1] == '\n' {
            last_nl = Some(j - 1);
        }
        j -= 1;
    }
    match last_nl {
        None => {
            assert(forall|i: int| 0 <= i < u.len() ==> u[i] == t@[from + i]);
            assert(tail_split_at(u, 0));
            true
        },
        Some(m) => {
            if m + 1 >= n {
                assert forall|k: int| !tail_split_at(u, k) by {
                    assert(u[u.len() - 1] == t@[m as int]);
                }
                return false;
            }
            let mut i = from;
            while i <= m
                invariant
                    from <= i <= m + 1,
                    m < n == t@.len(),
                    u == t@.skip(from as int),
                    m + 1 < n,
                    t@[m as int] == '\n',
                    forall|x: int| from <= x < i ==> is_ws(t@[x]),
                decreases m + 1 - i,
            {
                if !is_whitespace_char(t[i]) {
                    assert forall|k: int| !tail_split_at(u, k) by {
                        assert(u[m - from] == t@[m as int]);
                        assert(u[i - from] == t@[i as int]);
                        if tail_split_at(u, k) {
                            if k <= i - from {
                                assert(u[m - from] != '\n');
                            } else {
                                assert(is_ws(u[i - from]));
                            }
                        }
                    }
                    return false;
                }
                i += 1;
            }
            let ghost k = m + 1 - from;
            assert(forall|x: int| 0 <= x < k ==> #[trigger] u[x] == t@[from + x]);
            assert(forall|x: int| k <= x < u.len() ==> #[trigger] u[x] == t@[from + x]);
            assert(tail_split_at(u, k));
            true
        },
    }
}


pub open spec fn is_colon(c: char) -> bool {
    c == '：' || c == ':'
}

/// Offset of the character after the whitespace run that starts at `q`.
pub open spec fn after_ws(t: Seq<char>, q: int) -> int {
    q + run_len(t, q, ws_class())
}

/// From `q` on: optional whitespace, a colon, then the speech.
pub open spec fn colon_tail(t: Seq<char>, q: int) -> bool {
    let p = after_ws(t, q);
    0 <= p < t.len() && is_colon(t[p]) && tail_matches(t.skip(p + 1))
}

/// The name `t[a..a+l]` is followed by an optional `】` and a colon form.
pub open spec fn colon_form(t: Seq<char>, a: int, l: int) -> bool {
    (a + l < t.len() && t[a + l] == '】' && colon_tail(t, a + l + 1)) || colon_tail(t, a + l)
}

/// Where the speech starts after the colon form of `t[a..a+l]`.
pub open spec fn colon_speech_start(t: Seq<char>, a: int, l: int) -> int {
    if a + l < t.len() && t[a + l] == '】' && colon_tail(t, a + l + 1) {
        after_ws(t, a + l + 1) + 1
    } else {
        after_ws(t, a + l) + 1
    }
}

/// The bracket form: `t[a..a+l]` is followed by `】` and the speech.
pub open spec fn bracket_form(t: Seq<char>, a: int, l: int) -> bool {
    a + l < t.len() && t[a + l] == '】' && tail_matches(t.skip(a + l + 1))
}

/// Longest name length `<= l` from `a` for which the form holds
/// (the regex engine tries the longest name first).
pub open spec fn name_len(t: Seq<char>, a: int, l: int, bracket: bool) -> Option<int>
    decreases l,
{
    if l <= 0 {
        None
    } else if (if bracket { bracket_form(t, a, l) } else { colon_form(t, a, l) }) {
        Some(l)
    } else {
        name_len(t, a, l - 1, bracket)
    }
}

pub open spec fn max_name_len(t: Seq<char>, a: int) -> int {
    let r = run_len(t, a, name_class()) as int;
    if r < 12 { r } else { 12 }
}

/// `^(【?)(name{1,12})】?\s*[：:]\s*(.+)$`: (name start, name length).
pub open spec fn colon_line(t: Seq<char>) -> Option<(int, int)> {
    let with_bracket = if t.len() > 0 && t[0] == '【' { name_len(t, 1, max_name_len(t, 1), false) } else { None };
    match with_bracket {
        Some(l) => Some((1, l)),
        None => match name_len(t, 0, max_name_len(t, 0), false) {
            Some(l) => Some((0, l)),
            None => None,
        },
    }
}

/// `^【(name{1,12})】\s*(.+)$`: name length.
pub open spec fn bracket_line(t: Seq<char>) -> Option<int> {
    if t.len() > 0 && t[0] == '【' {
        name_len(t, 1, max_name_len(t, 1), true)
    } else {
        None
    }
}

/// Narration lead-ins that look like speakers but are not.
pub open spec fn is_narration_word(w: Seq<char>) -> bool {
    w == seq!['他', '说'] || w == seq!['她', '说'] || w == seq!['我', '说'] || w == seq!['你', '说']
        || w == seq!['他', '说', '道'] || w == seq!['她', '说', '道'] || w == seq!['心', '想']
        || w == seq!['暗', '想']
}

/// A dialogue attribution line: (speaker, speech). Two forms:
/// `名字：台词` (name at most 12 characters, no punctuation) and
/// `【名字】台词` (the bracket marks the speaker, the colon may be left out).
pub open spec fn dialogue_parse(line: Seq<char>) -> Option<(Seq<char>, Seq<char>)> {
    let t = trim(line);
    let parsed: Option<(Seq<char>, Seq<char>)> = match colon_line(t) {
        Some((a, l)) => Some((t.subrange(a, a + l), trim(t.skip(colon_speech_start(t, a, l))))),
        None => match bracket_line(t) {
            Some(l) => Some((t.subrange(1, 1 + l), trim(t.skip(l + 2)))),
            None => None,
        },
    };
    match parsed {
        Some((name, speech)) => if is_narration_word(name) || speech.len() == 0 { None } else { Some((name, speech)) },
        None => None,
    }
}

fn ws_end(t: &[char], q: usize) -> (r: usize)
    requires
        q <= t@.len(),
    ensures
        r == after_ws(t@, q as int),
        q <= r <= t@.len(),
{
    let mut i = q;
    while i < t.len() && is_whitespace_char(t[i])
        invariant
            q <= i <= t@.len(),
            run_len(t@, q as int, ws_class()) == (i - q) + run_len(t@, i as int, ws_class()),
        decreases t@.len() - i,
    {
        i += 1;
    }
    i
}

fn colon_tail_exec(t: &[char], q: usize) -> (r: bool)
    requires
        q <= t@.len(),
    ensures
        r == colon_tail(t@, q as int),
{
    let p = ws_end(t, q);
    p < t.len() && (t[p] == '：' || t[p] == ':') && tail_matches_exec(t, p + 1)
}

fn colon_form_exec(t: &[char], a: usize, l: usize) -> (r: bool)
    requires
        a + l <= t@.len(),
    ensures
        r == colon_form(t@, a as int, l as int),
{
    let n = t.len();
    assert(t@.len() == n);
    (a + l < t.len() && t[a + l] == '】' && colon_tail_exec(t, a + l + 1)) || colon_tail_exec(t, a + l)
}

fn bracket_form_exec(t: &[char], a: usize, l: usize) -> (r: bool)
    requires
        a + l <= t@.len(),
    ensures
        r == bracket_form(t@, a as int, l as int),
{
    let n = t.len();
    assert(t@.len() == n);
    a + l < t.len() && t[a + l] == '】' && tail_matches_exec(t, a + l + 1)
}

fn name_run(t: &[char], a: usize) -> (r: usize)
    requires
        a <= t@.len(),
    ensures
        r as int == max_name_len(t@, a as int),
        a + r <= t@.len(),
{
    let mut i = a;
    while i < t.len() && is_name_char_exec(t[i])
        invariant
            a <= i <= t@.len(),
            run_len(t@, a as int, name_class()) == (i - a) + run_len(t@, i as int, name_class()),
        decreases t@.len() - i,
    {
        i += 1;
    }
    if i - a < 12 { i - a } else { 12 }
}

pub proof fn lemma_name_len(t: Seq<char>, a: int, l: int, bracket: bool)
    ensures
        name_len(t, a, l, bracket) matches Some(x) ==> 1 <= x <= l && (if bracket { bracket_form(t, a, x) } else { colon_form(t, a, x) }),
    decreases l,
{
    if l > 0 {
        lemma_name_len(t, a, l - 1, bracket);
    }
}

fn name_len_exec(t: &[char], a: usize, bracket: bool) -> (r: Option<usize>)
    requires
        a <= t@.len(),
    ensures
        match r { Some(l) => Some(l as int), None => None } == name_len(t@, a as int, max_name_len(t@, a as int), bracket),
        r matches Some(l) ==> 1 <= l && a + l <= t@.len(),
{
    let top = name_run(t, a);
    let mut l = top;
    while l > 0
        invariant
            a + top <= t@.len(),
            top as int == max_name_len(t@, a as int),
            l <= top,
            name_len(t@, a as int, top as int, bracket) == name_len(t@, a as int, l as int, bracket),
        decreases l,
    {
        let ok = if bracket { bracket_form_exec(t, a, l) } else { colon_form_exec(t, a, l) };
        if ok {
            assert(name_len(t@, a as int, l as int, bracket) == Some(l as int));
            assert(name_len(t@, a as int, max_name_len(t@, a as int), bracket) == Some(l as int));
            return Some(l);
        }
        l -= 1;
    }
    None
}

fn is_narration_word_exec(w: &[char]) -> (r: bool)
    ensures
        r == is_narration_word(w@),
{
    let n = w.len();
    if n == 2 {
        let (x, y) = (w[0], w[1]);
        let r = (y == '说' && (x == '他' || x == '她' || x == '我' || x == '你')) || (y == '想' && (x == '心' || x == '暗'));
        proof {
            if r {
                assert(w@ =~= seq![x, y]);
            } else {
                assert(!is_narration_word(w@)) by {
                    if is_narration_word(w@) {
                        assert(w@[0] == x && w@[1] == y);
                    }
                }
            }
        }
        r
    } else if n == 3 {
        let (x, y, z) = (w[0], w[1], w[2]);
        let r = (x == '他' || x == '她') && y == '说' && z == '道';
        proof {
            if r {
                assert(w@ =~= seq![x, y, z]);
            } else {
                assert(!is_narration_word(w@)) by {
                    if is_narration_word(w@) {
                        assert(w@[0] == x && w@[1] == y && w@[2] == z);
                    }
                }
            }
        }
        r
    } else {
        assert(!is_narration_word(w@)) by {
            if is_narration_word(w@) {
                assert(w@.len() == 2 || w@.len() == 3);
            }
        }
        false
    }
}

/// Trimmed `t[from..]` as a vector.
fn trimmed_tail(t: &[char], from: usize) -> (r: Vec<char>)
    requires
        from <= t@.len(),
    ensures
        r@ == trim(t@.skip(from as int)),
{
    let (a, b) = trim_span(t, from, t.len());
    assert(t@.subrange(from as int, t@.len() as int) =~= t@.skip(from as int));
    slice_to_vec(t, a, b)
}

/// The speaker and speech of the colon form of `t[a..a+l]`.
fn colon_parts(t: &Vec<char>, a: usize, l: usize) -> (r: (Vec<char>, Vec<char>))
    requires
        colon_form(t@, a as int, l as int),
        1 <= l,
        a + l <= t@.len(),
    ensures
        r.0@ == t@.subrange(a as int, a + l),
        r.1@ == trim(t@.skip(colon_speech_start(t@, a as int, l as int))),
{
    let tn = t.len();
    assert(t@.len() == tn);
    let start = if a + l < tn && t[a + l] == '】' && colon_tail_exec(t, a + l + 1) {
        ws_end(t, a + l + 1) + 1
    } else {
        ws_end(t, a + l) + 1
    };
    proof {
        if a + l < tn && t@[a + l] == '】' && colon_tail(t@, a + l + 1) {
        } else {
            assert(colon_tail(t@, a + l));
        }
    }
    (slice_to_vec(t, a, a + l), trimmed_tail(t, start))
}

/// The colon form of a trimmed line.
fn colon_parse(t: &Vec<char>) -> (r: Option<(Vec<char>, Vec<char>)>)
    ensures
        match r {
            Some((n, s)) => colon_line(t@) matches Some((a, l)) && n@ == t@.subrange(a, a + l)
                && s@ == trim(t@.skip(colon_speech_start(t@, a, l))),
            None => colon_line(t@) is None,
        },
{
    proof {
        lemma_name_len(t@, 1, max_name_len(t@, 1), false);
        lemma_name_len(t@, 0, max_name_len(t@, 0), false);
    }
    if t.len() > 0 && t[0] == '【' {
        match name_len_exec(t, 1, false) {
            Some(l) => {
                return Some(colon_parts(t, 1, l));
            },
            None => {},
        }
    }
    match name_len_exec(t, 0, false) {
        Some(l) => Some(colon_parts(t, 0, l)),
        None => None,
    }
}

/// The bracket form of a trimmed line.
fn bracket_parse(t: &Vec<char>) -> (r: Option<(Vec<char>, Vec<char>)>)
    ensures
        match r {
            Some((n, s)) => bracket_line(t@) matches Some(l) && n@ == t@.subrange(1, 1 + l)
                && s@ == trim(t@.skip(l + 2)),
            None => bracket_line(t@) is None,
        },
{
    proof {
        lemma_name_len(t@, 1, max_name_len(t@, 1), true);
    }
    if t.len() > 0 && t[0] == '【' {
        match name_len_exec(t, 1, true) {
            Some(l) => {
                let tn = t.len();
                assert(t@.len() == tn);
                return Some((slice_to_vec(t, 1, 1 + l), trimmed_tail(t, l + 2)));
            },
            None => {},
        }
    }
    None
}

/// Parse a dialogue attribution line of characters into (speaker, speech).
pub fn parse_dialogue_chars(line: &[char]) -> (r: Option<(Vec<char>, Vec<char>)>)
    ensures
        match r {
            Some((n, s)) => dialogue_parse(line@) == Some((n@, s@)),
            None => dialogue_parse(line@) is None,
        },
{
    let (lo, hi) = trim_span(line, 0, line.len());
    assert(line@.subrange(0, line@.len() as int) =~= line@);
    let t = slice_to_vec(line, lo, hi);
    let parsed = match colon_parse(&t) {
        Some(p) => Some(p),
        None => bracket_parse(&t),
    };
    match parsed {
        Some((name, speech)) => {
            if is_narration_word_exec(&name) || speech.len() == 0 {
                None
            } else {
                Some((name, speech))
            }
        },
        None => None,
    }
}

/// (speaker, speech) of an attribution line.
pub fn parse_dialogue_line(line: &str) -> (r: Option<(String, String)>)
    ensures
        match r {
            Some((n, s)) => dialogue_parse(line@) == Some((n@, s@)),
            None => dialogue_parse(line@) is None,
        },
{
    let v = chars_of(line);
    match parse_dialogue_chars(&v) {
        Some((n, s)) => Some((string_of(&n), string_of(&s))),
        None => None,
    }
}


// ---- citation units ----

/// Scene headings among the first `k` lines, trimmed, without repeats, in order.
pub open spec fn scenes_upto(ls: Seq<Seq<char>>, k: int) -> Seq<Seq<char>>
    decreases k,
{
    if k <= 0 {
        seq![]
    } else {
        let prev = scenes_upto(ls, k - 1);
        let t = trim(ls[k - 1]);
        if is_scene_heading_line(ls[k - 1]) && !prev.contains(t) {
            prev.push(t)
        } else {
            prev
        }
    }
}

/// The scene headings of a segment (its citation units).
pub open spec fn scenes_of(content: Seq<char>) -> Seq<Seq<char>> {
    scenes_upto(lines(content), lines(content).len() as int)
}

/// Scene headings of a segment's text.
pub fn extract_scenes(content: &[char]) -> (r: Vec<Vec<char>>)
    ensures
        seqs_view(r@) == scenes_of(content@),
{
    let spans = line_spans(content);
    let mut out: Vec<Vec<char>> = Vec::new();
    let mut k: usize = 0;
    while k < spans.len()
        invariant
            k <= spans@.len(),
            spans_match(content@, spans@, lines(content@)),
            seqs_view(out@) == scenes_upto(lines(content@), k as int),
        decreases spans@.len() - k,
    {
        let (lo, hi) = spans[k];
        assert(spans@[k as int].0 <= spans@[k as int].1 <= content@.len());
        let line = slice_to_vec(content, lo, hi);
        assert(line@ == lines(content@)[k as int]);
        if is_scene_heading(&line) {
            let (a, b) = trim_span(&line, 0, line.len());
            assert(line@.subrange(0, line@.len() as int) =~= line@);
            let t = slice_to_vec(&line, a, b);
            if !contains_chars_vec(&out, &t) {
                let ghost prev = out@;
                out.push(t);
                assert(seqs_view(out@) =~= seqs_view(prev).push(t@));
            }
        }
        k += 1;
    }
    out
}

/// Citation units of one chunk segment.
#[derive(Debug, Clone, PartialEq)]
pub struct SegmentUnits {
    /// The chunk segment's label.
    pub segment: String,
    /// Scene headings inside the segment, in order, without repeats.
    pub scenes: Vec<String>,
}

pub open spec fn units_of(seg: SegV) -> (Seq<char>, Seq<Seq<char>>) {
    (seg.0, scenes_of(seg.1))
}

pub open spec fn units_view(u: SegmentUnits) -> (Seq<char>, Seq<Seq<char>>) {
    (u.segment@, u.scenes@.map_values(|s: String| s@))
}

/// The citation-unit table: for every chunk segment its scene headings.
pub fn citation_units(chunks: &[SourceSegment]) -> (r: Vec<SegmentUnits>)
    ensures
        r@.len() == chunks@.len(),
        forall|k: int| 0 <= k < chunks@.len() ==> #[trigger] units_view(r@[k]) == units_of(chunks@[k]@),
{
    let mut r: Vec<SegmentUnits> = Vec::new();
    let mut k: usize = 0;
    while k < chunks.len()
        invariant
            k <= chunks@.len(),
            r@.len() == k,
            forall|j: int| 0 <= j < k ==> #[trigger] units_view(r@[j]) == units_of(chunks@[j]@),
        decreases chunks@.len() - k,
    {
        let content = chars_of(chunks[k].content.as_str());
        let scenes = extract_scenes(&content);
        let label = chunks[k].label.clone();
        let u = SegmentUnits { segment: label, scenes: strings_of(&scenes) };
        assert(units_view(u) == units_of(chunks@[k as int]@));
        r.push(u);
        k += 1;
    }
    r
}

/// The last scene heading among the first `k` lines.
pub open spec fn last_scene_upto(ls: Seq<Seq<char>>, k: int) -> Option<Seq<char>>
    decreases k,
{
    if k <= 0 {
        None
    } else if is_scene_heading_line(ls[k - 1]) {
        Some(trim(ls[k - 1]))
    } else {
        last_scene_upto(ls, k - 1)
    }
}

/// The scene a line belongs to: the nearest scene heading before line
/// `line_idx`, or the segment label when there is none.
pub open spec fn scene_at_spec(segment: Seq<char>, label: Seq<char>, line_idx: int) -> Seq<char> {
    let ls = lines(segment);
    let k = if line_idx < ls.len() { line_idx } else { ls.len() as int };
    match last_scene_upto(ls, k) {
        Some(t) => t,
        None => label,
    }
}

pub fn scene_at_chars(segment: &[char], label: &[char], line_idx: usize) -> (r: Vec<char>)
    ensures
        r@ == scene_at_spec(segment@, label@, line_idx as int),
{
    let spans = line_spans(segment);
    let k = if line_idx < spans.len() { line_idx } else { spans.len() };
    let mut j = k;
    while j > 0
        invariant
            j <= k <= spans@.len(),
            spans_match(segment@, spans@, lines(segment@)),
            k as int == (if (line_idx as int) < lines(segment@).len() { line_idx as int } else { lines(segment@).len() as int }),
            last_scene_upto(lines(segment@), k as int) == last_scene_upto(lines(segment@), j as int),
        decreases j,
    {
        let (lo, hi) = spans[j - 1];
        assert(spans@[j - 1].0 <= spans@[j - 1].1 <= segment@.len());
        let line = slice_to_vec(segment, lo, hi);
        assert(line@ == lines(segment@)[j - 1]);
        if is_scene_heading(&line) {
            let (a, b) = trim_span(&line, 0, line.len());
            assert(line@.subrange(0, line@.len() as int) =~= line@);
            return slice_to_vec(&line, a, b);
        }
        j -= 1;
    }
    let r = slice_to_vec(label, 0, label.len());
    assert(label@.subrange(0, label@.len() as int) =~= label@);
    r
}

/// The scene that holds line `line_idx` of a segment.
pub fn scene_at(segment: &str, seg_label: &str, line_idx: usize) -> (r: String)
    ensures
        r@ == scene_at_spec(segment@, seg_label@, line_idx as int),
{
    let s = chars_of(segment);
    let l = chars_of(seg_label);
    string_of(&scene_at_chars(&s, &l, line_idx))
}

// ---- attribution form ----

/// Over the first `k` lines: (attribution hits, sampled non-empty lines),
/// sampling at most 1000 non-empty lines.
pub open spec fn sample_upto(ls: Seq<Seq<char>>, k: int) -> (nat, nat)
    decreases k,
{
    if k <= 0 {
        (0, 0)
    } else {
        let prev = sample_upto(ls, k - 1);
        if trim(ls[k - 1]).len() > 0 && prev.1 < 1000 {
            (prev.0 + if dialogue_parse(ls[k - 1]) is Some { 1nat } else { 0nat }, prev.1 + 1)
        } else {
            prev
        }
    }
}

pub open spec fn attribution_sample_of(content: Seq<char>) -> (nat, nat) {
    sample_upto(lines(content), lines(content).len() as int)
}

/// The material is a script when at least 60% of the sampled lines carry an
/// explicit speaker.
pub open spec fn is_script_form(hits: nat, sampled: nat) -> bool {
    sampled > 0 && 5 * hits >= 3 * sampled
}

/// Attribution statistics of a text.
#[derive(Debug, Clone, PartialEq)]
pub struct AttributionSample {
    /// "script" | "prose"
    pub form: String,
    pub hits: usize,
    pub sampled: usize,
}

/// Form of the material: counts attribution lines among the first 1000
/// non-empty lines.
pub fn attribution_sample(content: &str) -> (r: AttributionSample)
    ensures
        r.hits == attribution_sample_of(content@).0,
        r.sampled == attribution_sample_of(content@).1,
        r.form@ == (if is_script_form(r.hits as nat, r.sampled as nat) { "script"@ } else { "prose"@ }),
{
    let c = chars_of(content);
    let spans = line_spans(&c);
    let mut hits: usize = 0;
    let mut n: usize = 0;
    let mut k: usize = 0;
    while k < spans.len()
        invariant
            k <= spans@.len(),
            spans_match(c@, spans@, lines(c@)),
            (hits as nat, n as nat) == sample_upto(lines(c@), k as int),
            hits <= n <= 1000,
        decreases spans@.len() - k,
    {
        let (lo, hi) = spans[k];
        assert(spans@[k as int].0 <= spans@[k as int].1 <= c@.len());
        let (a, b) = trim_span(&c, lo, hi);
        if a < b && n < ATTRIBUTION_SAMPLE_LINES {
            let line = slice_to_vec(&c, lo, hi);
            assert(line@ == lines(c@)[k as int]);
            if parse_dialogue_chars(&line).is_some() {
                hits += 1;
            }
            n += 1;
        }
        k += 1;
    }
    let script = n > 0 && 5 * hits >= 3 * n;
    AttributionSample { form: if script { "script".to_owned() } else { "prose".to_owned() }, hits, sampled: n }
}

} // verus!
