//! Chunking (stage 0 of book deconstruction): split a whole text into
//! segments that are annotated one by one. Purely deterministic: no model,
//! no semantic judgement, the same input always gives the same output.

use vstd::prelude::*;
use crate::text::{
    chars_of, string_of,
    extend_all, push_decimal, byte_len_at_least,
    byte_len, decimal, find_last_in, is_ws, is_whitespace_char, join, last_index_in, lemma_run_len_bound,
    line_spans, line_start, lines, matches_at, spans_match, run_len, slice_to_vec, starts_with, trim, trim_span,
};

verus! {

/// Heading lines longer than this (in characters) are never headings.
pub const MAX_HEADING_LINE_CHARS: usize = 80;
/// The chapter path needs at least this many headings (and kept chapters).
pub const MIN_HEADING_COUNT: usize = 3;
/// A chapter (heading line included) shorter than this is discarded.
pub const MIN_CHAPTER_BODY_CHARS: usize = 120;
/// Chapters are merged in groups so that about this many segments remain.
pub const TARGET_SEGMENT_COUNT: usize = 12;
/// Sliding window: target segment length.
pub const TARGET_SEGMENT_CHARS: usize = 10000;
/// Sliding window: a newline boundary must lie beyond this many characters.
pub const MIN_SEGMENT_CHARS: usize = 6000;
/// Sliding window: newline boundaries are searched up to this length.
pub const MAX_SEGMENT_CHARS: usize = 16000;
/// Sliding window: consecutive segments overlap by this many characters.
pub const CHUNK_OVERLAP_CHARS: usize = 400;
/// Merged chapter segments longer than this are split again.
pub const MAX_MERGED_SEGMENT_CHARS: usize = 48000;
/// A re-split only cuts at a newline at least this many UTF-8 bytes in,
/// so that a heading line alone never becomes a segment.
pub const RESPLIT_MIN_CUT_BYTES: usize = 200;

// ---- character classes of the heading grammar ----

/// Decimal digits of the grammar: the characters of the Unicode general
/// category Nd (decimal numbers), as ranges of code points.
pub open spec fn is_decimal_code(u: u32) -> bool {
    (0x30 <= u && u <= 0x39) || (0x660 <= u && u <= 0x669) || (0x6f0 <= u && u <= 0x6f9)
        || (0x7c0 <= u && u <= 0x7c9) || (0x966 <= u && u <= 0x96f) || (0x9e6 <= u && u <= 0x9ef)
        || (0xa66 <= u && u <= 0xa6f) || (0xae6 <= u && u <= 0xaef) || (0xb66 <= u && u <= 0xb6f)
        || (0xbe6 <= u && u <= 0xbef) || (0xc66 <= u && u <= 0xc6f) || (0xce6 <= u && u <= 0xcef)
        || (0xd66 <= u && u <= 0xd6f) || (0xde6 <= u && u <= 0xdef) || (0xe50 <= u && u <= 0xe59)
        || (0xed0 <= u && u <= 0xed9) || (0xf20 <= u && u <= 0xf29) || (0x1040 <= u && u <= 0x1049)
        || (0x1090 <= u && u <= 0x1099) || (0x17e0 <= u && u <= 0x17e9) || (0x1810 <= u && u <= 0x1819)
        || (0x1946 <= u && u <= 0x194f) || (0x19d0 <= u && u <= 0x19d9) || (0x1a80 <= u && u <= 0x1a89)
        || (0x1a90 <= u && u <= 0x1a99) || (0x1b50 <= u && u <= 0x1b59) || (0x1bb0 <= u && u <= 0x1bb9)
        || (0x1c40 <= u && u <= 0x1c49) || (0x1c50 <= u && u <= 0x1c59) || (0xa620 <= u && u <= 0xa629)
        || (0xa8d0 <= u && u <= 0xa8d9) || (0xa900 <= u && u <= 0xa909) || (0xa9d0 <= u && u <= 0xa9d9)
        || (0xa9f0 <= u && u <= 0xa9f9) || (0xaa50 <= u && u <= 0xaa59) || (0xabf0 <= u && u <= 0xabf9)
        || (0xff10 <= u && u <= 0xff19) || (0x104a0 <= u && u <= 0x104a9) || (0x10d30 <= u && u <= 0x10d39)
        || (0x10d40 <= u && u <= 0x10d49) || (0x11066 <= u && u <= 0x1106f) || (0x110f0 <= u && u <= 0x110f9)
        || (0x11136 <= u && u <= 0x1113f) || (0x111d0 <= u && u <= 0x111d9) || (0x112f0 <= u && u <= 0x112f9)
        || (0x11450 <= u && u <= 0x11459) || (0x114d0 <= u && u <= 0x114d9) || (0x11650 <= u && u <= 0x11659)
        || (0x116c0 <= u && u <= 0x116c9) || (0x116d0 <= u && u <= 0x116e3) || (0x11730 <= u && u <= 0x11739)
        || (0x118e0 <= u && u <= 0x118e9) || (0x11950 <= u && u <= 0x11959) || (0x11bf0 <= u && u <= 0x11bf9)
        || (0x11c50 <= u && u <= 0x11c59) || (0x11d50 <= u && u <= 0x11d59) || (0x11da0 <= u && u <= 0x11da9)
        || (0x11f50 <= u && u <= 0x11f59) || (0x16130 <= u && u <= 0x16139) || (0x16a60 <= u && u <= 0x16a69)
        || (0x16ac0 <= u && u <= 0x16ac9) || (0x16b50 <= u && u <= 0x16b59) || (0x16d70 <= u && u <= 0x16d79)
        || (0x1ccf0 <= u && u <= 0x1ccf9) || (0x1d7ce <= u && u <= 0x1d7ff) || (0x1e140 <= u && u <= 0x1e149)
        || (0x1e2f0 <= u && u <= 0x1e2f9) || (0x1e4f0 <= u && u <= 0x1e4f9) || (0x1e5f1 <= u && u <= 0x1e5fa)
        || (0x1e950 <= u && u <= 0x1e959) || (0x1fbf0 <= u && u <= 0x1fbf9)
}

pub open spec fn is_decimal_digit(c: char) -> bool {
    is_decimal_code(c as u32)
}

/// Whether a code point is a decimal digit (Unicode Nd).
fn decimal_code(u: u32) -> (r: bool)
    ensures
        r == is_decimal_code(u),
{
    (0x30 <= u && u <= 0x39) || (0x660 <= u && u <= 0x669) || (0x6f0 <= u && u <= 0x6f9)
        || (0x7c0 <= u && u <= 0x7c9) || (0x966 <= u && u <= 0x96f) || (0x9e6 <= u && u <= 0x9ef)
        || (0xa66 <= u && u <= 0xa6f) || (0xae6 <= u && u <= 0xaef) || (0xb66 <= u && u <= 0xb6f)
        || (0xbe6 <= u && u <= 0xbef) || (0xc66 <= u && u <= 0xc6f) || (0xce6 <= u && u <= 0xcef)
        || (0xd66 <= u && u <= 0xd6f) || (0xde6 <= u && u <= 0xdef) || (0xe50 <= u && u <= 0xe59)
        || (0xed0 <= u && u <= 0xed9) || (0xf20 <= u && u <= 0xf29) || (0x1040 <= u && u <= 0x1049)
        || (0x1090 <= u && u <= 0x1099) || (0x17e0 <= u && u <= 0x17e9) || (0x1810 <= u && u <= 0x1819)
        || (0x1946 <= u && u <= 0x194f) || (0x19d0 <= u && u <= 0x19d9) || (0x1a80 <= u && u <= 0x1a89)
        || (0x1a90 <= u && u <= 0x1a99) || (0x1b50 <= u && u <= 0x1b59) || (0x1bb0 <= u && u <= 0x1bb9)
        || (0x1c40 <= u && u <= 0x1c49) || (0x1c50 <= u && u <= 0x1c59) || (0xa620 <= u && u <= 0xa629)
        || (0xa8d0 <= u && u <= 0xa8d9) || (0xa900 <= u && u <= 0xa909) || (0xa9d0 <= u && u <= 0xa9d9)
        || (0xa9f0 <= u && u <= 0xa9f9) || (0xaa50 <= u && u <= 0xaa59) || (0xabf0 <= u && u <= 0xabf9)
        || (0xff10 <= u && u <= 0xff19) || (0x104a0 <= u && u <= 0x104a9) || (0x10d30 <= u && u <= 0x10d39)
        || (0x10d40 <= u && u <= 0x10d49) || (0x11066 <= u && u <= 0x1106f) || (0x110f0 <= u && u <= 0x110f9)
        || (0x11136 <= u && u <= 0x1113f) || (0x111d0 <= u && u <= 0x111d9) || (0x112f0 <= u && u <= 0x112f9)
        || (0x11450 <= u && u <= 0x11459) || (0x114d0 <= u && u <= 0x114d9) || (0x11650 <= u && u <= 0x11659)
        || (0x116c0 <= u && u <= 0x116c9) || (0x116d0 <= u && u <= 0x116e3) || (0x11730 <= u && u <= 0x11739)
        || (0x118e0 <= u && u <= 0x118e9) || (0x11950 <= u && u <= 0x11959) || (0x11bf0 <= u && u <= 0x11bf9)
        || (0x11c50 <= u && u <= 0x11c59) || (0x11d50 <= u && u <= 0x11d59) || (0x11da0 <= u && u <= 0x11da9)
        || (0x11f50 <= u && u <= 0x11f59) || (0x16130 <= u && u <= 0x16139) || (0x16a60 <= u && u <= 0x16a69)
        || (0x16ac0 <= u && u <= 0x16ac9) || (0x16b50 <= u && u <= 0x16b59) || (0x16d70 <= u && u <= 0x16d79)
        || (0x1ccf0 <= u && u <= 0x1ccf9) || (0x1d7ce <= u && u <= 0x1d7ff) || (0x1e140 <= u && u <= 0x1e149)
        || (0x1e2f0 <= u && u <= 0x1e2f9) || (0x1e4f0 <= u && u <= 0x1e4f9) || (0x1e5f1 <= u && u <= 0x1e5fa)
        || (0x1e950 <= u && u <= 0x1e959) || (0x1fbf0 <= u && u <= 0x1fbf9)
}

pub open spec fn is_cn_numeral(c: char) -> bool {
    c == '零' || c == '一' || c == '二' || c == '三' || c == '四' || c == '五' || c == '六'
        || c == '七' || c == '八' || c == '九' || c == '十' || c == '百' || c == '千'
}

/// Numerals allowed after `第` in chapter and heading-scene numbers.
pub open spec fn is_heading_numeral(c: char) -> bool {
    is_cn_numeral(c) || c == '万' || c == '两' || is_decimal_digit(c)
}

/// Numerals allowed after `第` in scene headings found inside segments.
pub open spec fn is_scene_numeral(c: char) -> bool {
    is_cn_numeral(c) || is_decimal_digit(c)
}

pub open spec fn is_chapter_unit(c: char) -> bool {
    c == '章' || c == '节' || c == '回' || c == '卷' || c == '部' || c == '集' || c == '篇'
}

pub open spec fn is_scene_unit(c: char) -> bool {
    c == '场' || c == '幕'
}

/// Character classes by tag: 0 whitespace, 1 decimal digit,
/// 2 heading numeral, 3 scene numeral, otherwise newline.
pub open spec fn class_pred(tag: u8) -> spec_fn(char) -> bool {
    |c: char|
        if tag == 0 {
            is_ws(c)
        } else if tag == 1 {
            is_decimal_digit(c)
        } else if tag == 2 {
            is_heading_numeral(c)
        } else if tag == 3 {
            is_scene_numeral(c)
        } else {
            c == '\n'
        }
}

pub fn in_class(c: char, tag: u8) -> (r: bool)
    ensures
        r == class_pred(tag)(c),
{
    let u = c as u32;
    let digit = decimal_code(u);
    let cn = c == '零' || c == '一' || c == '二' || c == '三' || c == '四' || c == '五'
        || c == '六' || c == '七' || c == '八' || c == '九' || c == '十' || c == '百' || c == '千';
    if tag == 0 {
        is_whitespace_char(c)
    } else if tag == 1 {
        digit
    } else if tag == 2 {
        cn || c == '万' || c == '两' || digit
    } else if tag == 3 {
        cn || digit
    } else {
        c == '\n'
    }
}

pub fn run_of(s: &[char], from: usize, tag: u8) -> (r: usize)
    requires
        from <= s@.len(),
    ensures
        r == run_len(s@, from as int, class_pred(tag)),
        from + r <= s@.len(),
{
    let mut i = from;
    while i < s.len() && in_class(s[i], tag)
        invariant
            from <= i <= s@.len(),
            run_len(s@, from as int, class_pred(tag)) == (i - from) + run_len(s@, i as int, class_pred(tag)),
        decreases s@.len() - i,
    {
        i += 1;
    }
    i - from
}

// ---- the heading grammar ----

/// `第` + numerals (class `numerals`) + a unit character: length of the keyword.
pub open spec fn numbered_kw(t: Seq<char>, numerals: u8, scene: bool) -> Option<nat> {
    if t.len() > 0 && t[0] == '第' {
        let r = run_len(t, 1, class_pred(numerals));
        if r >= 1 && 1 + r < t.len() && (if scene { is_scene_unit(t[1 + r as int]) } else { is_chapter_unit(t[1 + r as int]) }) {
            Some(2 + r)
        } else {
            None
        }
    } else {
        None
    }
}

/// `prefix` + at least `min_ws` whitespace + one or more digits.
pub open spec fn counted_kw(t: Seq<char>, prefix: Seq<char>, min_ws: nat) -> Option<nat> {
    if starts_with(t, prefix) {
        let w = run_len(t, prefix.len() as int, class_pred(0));
        let d = run_len(t, prefix.len() + w as int, class_pred(1));
        if w >= min_ws && d >= 1 {
            Some(prefix.len() + w + d)
        } else {
            None
        }
    } else {
        None
    }
}

pub open spec fn fixed_kw(t: Seq<char>, word: Seq<char>) -> Option<nat> {
    if starts_with(t, word) {
        Some(word.len())
    } else {
        None
    }
}

/// After a keyword of length `k`: at most `max` further characters, none a newline.
pub open spec fn kw_fits(t: Seq<char>, kw: Option<nat>, max: nat) -> bool {
    match kw {
        Some(k) => k <= t.len() && t.len() - k <= max && forall|i: int| k <= i < t.len() ==> t[i] != '\n',
        None => false,
    }
}

/// Chinese chapter headings: 序章 / 楔子 / 尾声 / 后记 / 番外 / 第N章(节回卷部集篇).
pub open spec fn chapter_heading(t: Seq<char>) -> bool {
    kw_fits(t, fixed_kw(t, seq!['序', '章']), 40) || kw_fits(t, fixed_kw(t, seq!['楔', '子']), 40)
        || kw_fits(t, fixed_kw(t, seq!['尾', '声']), 40) || kw_fits(t, fixed_kw(t, seq!['后', '记']), 40)
        || kw_fits(t, fixed_kw(t, seq!['番', '外']), 40) || kw_fits(t, numbered_kw(t, 2, false), 40)
}

/// English chapter headings: `chapter 12` / `chap. 3`.
pub open spec fn english_heading(t: Seq<char>) -> bool {
    kw_fits(t, counted_kw(t, seq!['c', 'h', 'a', 'p', 't', 'e', 'r'], 1), 40)
        || kw_fits(t, counted_kw(t, seq!['c', 'h', 'a', 'p', '.'], 0), 40)
}

/// Script scene headings: 第N场(幕) / 场3 / S3 / INT. / EXT. / 内景 / 外景.
pub open spec fn scene_heading(t: Seq<char>, numerals: u8) -> bool {
    kw_fits(t, numbered_kw(t, numerals, true), 60) || kw_fits(t, counted_kw(t, seq!['场'], 0), 60)
        || kw_fits(t, counted_kw(t, seq!['S'], 0), 60) || kw_fits(t, fixed_kw(t, seq!['I', 'N', 'T', '.']), 60)
        || kw_fits(t, fixed_kw(t, seq!['E', 'X', 'T', '.']), 60) || kw_fits(t, fixed_kw(t, seq!['内', '景']), 60)
        || kw_fits(t, fixed_kw(t, seq!['外', '景']), 60)
}

/// A trimmed line `t` is a heading of the chunker.
pub open spec fn is_heading_text(t: Seq<char>) -> bool {
    t.len() > 0 && t.len() <= 80 && (chapter_heading(t) || english_heading(t) || scene_heading(t, 2))
}

/// A line is a scene heading (as used for citation units inside segments).
pub open spec fn is_scene_heading_line(line: Seq<char>) -> bool {
    let t = trim(line);
    t.len() > 0 && t.len() <= 80 && scene_heading(t, 3)
}

fn no_newline_from(t: &[char], k: usize) -> (r: bool)
    requires
        k <= t@.len(),
    ensures
        r == forall|i: int| k <= i < t@.len() ==> t@[i] != '\n',
{
    let mut i = k;
    while i < t.len()
        invariant
            k <= i <= t@.len(),
            forall|j: int| k <= j < i ==> t@[j] != '\n',
        decreases t@.len() - i,
    {
        if t[i] == '\n' {
            return false;
        }
        i += 1;
    }
    true
}

fn kw_fits_exec(t: &[char], kw: Option<usize>, max: usize) -> (r: bool)
    ensures
        r == kw_fits(t@, match kw { Some(k) => Some(k as nat), None => None }, max as nat),
{
    match kw {
        Some(k) => k <= t.len() && t.len() - k <= max && no_newline_from(t, k),
        None => false,
    }
}

fn numbered_kw_exec(t: &[char], numerals: u8, scene: bool) -> (r: Option<usize>)
    ensures
        match r { Some(k) => Some(k as nat), None => None } == numbered_kw(t@, numerals, scene),
{
    if t.len() > 0 && t[0] == '第' {
        let r = run_of(t, 1, numerals);
        if r >= 1 && 1 + r < t.len() {
            let u = t[1 + r];
            let unit = if scene {
                u == '场' || u == '幕'
            } else {
                u == '章' || u == '节' || u == '回' || u == '卷' || u == '部' || u == '集' || u == '篇'
            };
            if unit {
                return Some(2 + r);
            }
        }
    }
    None
}

fn counted_kw_exec(t: &[char], prefix: &[char], min_ws: usize) -> (r: Option<usize>)
    ensures
        match r { Some(k) => Some(k as nat), None => None } == counted_kw(t@, prefix@, min_ws as nat),
{
    if matches_at(t, prefix, 0) {
        assert(prefix@.len() <= t@.len());
        let tl = t.len();
        assert(t@.len() == tl);
        let w = run_of(t, prefix.len(), 0);
        assert(prefix@.len() + w <= t@.len());
        let d = run_of(t, prefix.len() + w, 1);
        assert(prefix@.len() + w + d <= t@.len());
        if w >= min_ws && d >= 1 {
            return Some(prefix.len() + w + d);
        }
    }
    None
}

fn fixed_kw_exec(t: &[char], word: &[char]) -> (r: Option<usize>)
    ensures
        match r { Some(k) => Some(k as nat), None => None } == fixed_kw(t@, word@),
{
    if matches_at(t, word, 0) {
        Some(word.len())
    } else {
        None
    }
}

fn fixed_fits(t: &[char], word: &[char], max: usize) -> (r: bool)
    ensures
        r == kw_fits(t@, fixed_kw(t@, word@), max as nat),
{
    kw_fits_exec(t, fixed_kw_exec(t, word), max)
}

fn counted_fits(t: &[char], prefix: &[char], min_ws: usize, max: usize) -> (r: bool)
    ensures
        r == kw_fits(t@, counted_kw(t@, prefix@, min_ws as nat), max as nat),
{
    kw_fits_exec(t, counted_kw_exec(t, prefix, min_ws), max)
}

fn scene_heading_exec(t: &[char], numerals: u8) -> (r: bool)
    ensures
        r == scene_heading(t@, numerals),
{
    let a = vec!['场'];
    let b = vec!['S'];
    let c = vec!['I', 'N', 'T', '.'];
    let d = vec!['E', 'X', 'T', '.'];
    let e = vec!['内', '景'];
    let f = vec!['外', '景'];
    assert(a@ =~= seq!['场']);
    assert(b@ =~= seq!['S']);
    assert(c@ =~= seq!['I', 'N', 'T', '.']);
    assert(d@ =~= seq!['E', 'X', 'T', '.']);
    assert(e@ =~= seq!['内', '景']);
    assert(f@ =~= seq!['外', '景']);
    kw_fits_exec(t, numbered_kw_exec(t, numerals, true), 60) || counted_fits(t, &a, 0, 60)
        || counted_fits(t, &b, 0, 60) || fixed_fits(t, &c, 60) || fixed_fits(t, &d, 60)
        || fixed_fits(t, &e, 60) || fixed_fits(t, &f, 60)
}

fn heading_exec(t: &[char]) -> (r: bool)
    ensures
        r == (chapter_heading(t@) || english_heading(t@) || scene_heading(t@, 2)),
{
    let w1 = vec!['序', '章'];
    let w2 = vec!['楔', '子'];
    let w3 = vec!['尾', '声'];
    let w4 = vec!['后', '记'];
    let w5 = vec!['番', '外'];
    let e1 = vec!['c', 'h', 'a', 'p', 't', 'e', 'r'];
    let e2 = vec!['c', 'h', 'a', 'p', '.'];
    assert(w1@ =~= seq!['序', '章']);
    assert(w2@ =~= seq!['楔', '子']);
    assert(w3@ =~= seq!['尾', '声']);
    assert(w4@ =~= seq!['后', '记']);
    assert(w5@ =~= seq!['番', '外']);
    assert(e1@ =~= seq!['c', 'h', 'a', 'p', 't', 'e', 'r']);
    assert(e2@ =~= seq!['c', 'h', 'a', 'p', '.']);
    let chapter = fixed_fits(t, &w1, 40) || fixed_fits(t, &w2, 40) || fixed_fits(t, &w3, 40)
        || fixed_fits(t, &w4, 40) || fixed_fits(t, &w5, 40)
        || kw_fits_exec(t, numbered_kw_exec(t, 2, false), 40);
    let english = counted_fits(t, &e1, 1, 40) || counted_fits(t, &e2, 0, 40);
    chapter || english || scene_heading_exec(t, 2)
}

/// Whether the line `s[lo..hi]` is a chunker heading once trimmed.
pub fn is_heading_span(s: &[char], lo: usize, hi: usize) -> (r: bool)
    requires
        lo <= hi <= s@.len(),
    ensures
        r == is_heading_text(trim(s@.subrange(lo as int, hi as int))),
{
    let (a, b) = trim_span(s, lo, hi);
    if a == b || b - a > MAX_HEADING_LINE_CHARS {
        return false;
    }
    let t = slice_to_vec(s, a, b);
    heading_exec(&t)
}

/// Whether a line is a scene heading: the trimmed line matches the scene grammar.
pub fn is_scene_heading(line: &[char]) -> (r: bool)
    ensures
        r == is_scene_heading_line(line@),
{
    let (a, b) = trim_span(line, 0, line.len());
    assert(line@.subrange(0, line@.len() as int) =~= line@);
    if a == b || b - a > MAX_HEADING_LINE_CHARS {
        return false;
    }
    let t = slice_to_vec(line, a, b);
    scene_heading_exec(&t, 3)
}


// ---- the chunking plan ----

/// A segment seen as (label, content).
pub type SegV = (Seq<char>, Seq<char>);

/// `s.replace("\r\n", "\n").replace('\r', "\n")`
pub open spec fn normalize_newlines(s: Seq<char>) -> Seq<char>
    decreases s.len(),
{
    if s.len() == 0 {
        s
    } else if s[0] == '\r' {
        if s.len() > 1 && s[1] == '\n' {
            seq!['\n'] + normalize_newlines(s.skip(2))
        } else {
            seq!['\n'] + normalize_newlines(s.skip(1))
        }
    } else {
        seq![s[0]] + normalize_newlines(s.skip(1))
    }
}

/// Headings among the first `k` lines: (line index, trimmed line).
pub open spec fn headings_upto(ls: Seq<Seq<char>>, k: int) -> Seq<(int, Seq<char>)>
    decreases k,
{
    if k <= 0 {
        seq![]
    } else {
        let prev = headings_upto(ls, k - 1);
        let t = trim(ls[k - 1]);
        if is_heading_text(t) {
            prev.push((k - 1, t))
        } else {
            prev
        }
    }
}

/// The headings of a text, in order.
pub open spec fn headings(s: Seq<char>) -> Seq<(int, Seq<char>)> {
    headings_upto(lines(s), lines(s).len() as int)
}

/// End offset of chapter `i`: the start of the next heading line, or the end of the text.
pub open spec fn chapter_end(s: Seq<char>, hs: Seq<(int, Seq<char>)>, i: int) -> int {
    if i + 1 < hs.len() {
        line_start(s, hs[i + 1].0 as nat) as int
    } else {
        s.len() as int
    }
}

/// Chapter `i`: the text from its heading line up to the next heading line, trimmed.
pub open spec fn chapter_body(s: Seq<char>, hs: Seq<(int, Seq<char>)>, i: int) -> Seq<char> {
    trim(s.subrange(line_start(s, hs[i].0 as nat) as int, chapter_end(s, hs, i)))
}

/// The first `i` chapters: kept (heading, body) pairs, discarded count and
/// discarded characters.
pub open spec fn chapters_upto(s: Seq<char>, hs: Seq<(int, Seq<char>)>, i: int) -> (Seq<SegV>, nat, nat)
    decreases i,
{
    if i <= 0 {
        (seq![], 0, 0)
    } else {
        let prev = chapters_upto(s, hs, i - 1);
        let b = chapter_body(s, hs, i - 1);
        if b.len() < 120 {
            (prev.0, prev.1 + 1, prev.2 + b.len())
        } else {
            (prev.0.push((hs[i - 1].1, b)), prev.1, prev.2)
        }
    }
}

/// Several chapters merged into one segment: "first ~ last" and the bodies
/// joined by a blank line.
pub open spec fn group_segment(items: Seq<SegV>) -> SegV {
    let label = if items.len() == 1 {
        items[0].0
    } else {
        items[0].0 + seq![' ', '~', ' '] + items.last().0
    };
    (label, join(items.map_values(|x: SegV| x.1), seq!['\n', '\n']))
}

pub open spec fn groups_from(ch: Seq<SegV>, g: int, idx: int) -> Seq<SegV>
    decreases ch.len() - idx,
{
    if g <= 0 || idx < 0 || idx >= ch.len() {
        seq![]
    } else {
        let end = if idx + g < ch.len() { idx + g } else { ch.len() as int };
        seq![group_segment(ch.subrange(idx, end))] + groups_from(ch, g, end)
    }
}

pub open spec fn cn_digit(d: nat) -> char {
    if d == 1 { '一' } else if d == 2 { '二' } else if d == 3 { '三' } else if d == 4 { '四' }
    else if d == 5 { '五' } else if d == 6 { '六' } else if d == 7 { '七' } else if d == 8 { '八' }
    else { '九' }
}

/// Label of part `part` of a re-split segment: the label itself, then
/// label（二）, label（三）, ... and decimal numbers from part 10 on.
pub open spec fn part_label(label: Seq<char>, part: nat) -> Seq<char> {
    if part == 1 {
        label
    } else {
        let suffix = if part <= 9 { seq![cn_digit(part)] } else { decimal(part) };
        label + seq!['（'] + suffix + seq!['）']
    }
}

/// Where a re-split cuts `rest`: at the last newline before the size limit
/// when that newline lies at least 200 bytes in, else at the limit.
pub open spec fn resplit_cut(rest: Seq<char>) -> int {
    let limit = if rest.len() < 48000 { rest.len() as int } else { 48000 };
    if limit < rest.len() {
        match last_index_in(rest, 0, limit, '\n') {
            Some(nl) => if nl > 0 && byte_len(rest.take(nl)) >= 200 { nl } else { limit },
            None => limit,
        }
    } else {
        limit
    }
}

pub proof fn lemma_resplit_cut(rest: Seq<char>)
    requires
        rest.len() > 0,
    ensures
        1 <= resplit_cut(rest) <= rest.len(),
        resplit_cut(rest) <= 48000,
{
    let limit = if rest.len() < 48000 { rest.len() as int } else { 48000 };
    if limit < rest.len() {
        lemma_last_index_in(rest, 0, limit, '\n');
    }
}

pub proof fn lemma_last_index_in(s: Seq<char>, lo: int, hi: int, c: char)
    ensures
        last_index_in(s, lo, hi, c) matches Some(k) ==> lo <= k < hi && s[k] == c,
        last_index_in(s, lo, hi, c) matches Some(k) ==> forall|j: int| k < j < hi ==> s[j] != c,
        last_index_in(s, lo, hi, c) is None ==> forall|j: int| lo <= j < hi ==> s[j] != c,
    decreases hi - lo,
{
    if hi > lo && s[hi - 1] != c {
        lemma_last_index_in(s, lo, hi - 1, c);
    }
}

/// Parts of an oversized segment, from offset `pos` of its content on.
pub open spec fn parts_from(label: Seq<char>, c: Seq<char>, pos: int, part: nat) -> Seq<SegV>
    decreases c.len() - pos,
{
    if pos < 0 || pos >= c.len() {
        seq![]
    } else {
        let rest = c.skip(pos);
        let cut = resplit_cut(rest);
        let chunk = trim(rest.take(cut));
        let next = pos + cut + run_len(c, pos + cut, class_pred(4));
        let head = if chunk.len() > 0 { seq![(part_label(label, part), chunk)] } else { seq![] };
        proof {
            lemma_resplit_cut(rest);
            lemma_run_len_bound(c, pos + cut, class_pred(4));
        }
        head + parts_from(label, c, next, part + 1)
    }
}

/// A segment kept as is when small enough, otherwise split into parts.
pub open spec fn resplit(seg: SegV) -> Seq<SegV> {
    if seg.1.len() <= 48000 {
        seq![seg]
    } else {
        parts_from(seg.0, seg.1, 0, 1)
    }
}

pub open spec fn finalize_upto(segs: Seq<SegV>, k: int) -> Seq<SegV>
    decreases k,
{
    if k <= 0 {
        seq![]
    } else {
        finalize_upto(segs, k - 1) + resplit(segs[k - 1])
    }
}

/// The chapter path: groups of chapters merged to about 12 segments, then
/// oversized segments split again.
pub open spec fn merge_chapters(ch: Seq<SegV>) -> Seq<SegV> {
    let merged = if ch.len() <= 12 {
        ch
    } else {
        groups_from(ch, (ch.len() / 12 + if ch.len() % 12 == 0 { 0int } else { 1int }) as int, 0)
    };
    finalize_upto(merged, merged.len() as int)
}

/// End of the sliding-window segment that starts at `start`.
pub open spec fn plain_boundary(c: Seq<char>, start: int) -> int {
    let total = c.len() as int;
    let target_end = if start + 10000 < total { start + 10000 } else { total };
    if target_end < total {
        let limit = if start + 16000 < total { start + 16000 } else { total };
        match last_index_in(c, start, limit, '\n') {
            Some(k) => if k + 1 > start + 6000 { k + 1 } else { target_end },
            None => target_end,
        }
    } else {
        target_end
    }
}

/// "片段 N"
pub open spec fn plain_label(order: nat) -> Seq<char> {
    seq!['片', '段', ' '] + decimal(order)
}

/// Sliding-window segments from offset `start` on, numbered from `order`.
pub open spec fn plain_from(c: Seq<char>, start: int, order: nat) -> Seq<SegV>
    decreases c.len() - start,
{
    if start < 0 || start >= c.len() {
        seq![]
    } else {
        let b = plain_boundary(c, start);
        let t = trim(c.subrange(start, b));
        let head = if t.len() > 0 { seq![(plain_label(order), t)] } else { seq![] };
        let next_order = if t.len() > 0 { order + 1 } else { order };
        if b >= c.len() {
            head
        } else {
            let back = b - 400;
            let next = if back > start + 1 { back } else { start + 1 };
            head + plain_from(c, next, next_order)
        }
    }
}

/// The whole chunking of a text: (chapter path taken, segments, discarded
/// chapter count, discarded chapter characters, total characters).
pub open spec fn plan_chunks(content: Seq<char>) -> (bool, Seq<SegV>, nat, nat, nat) {
    let c = normalize_newlines(content);
    let hs = headings(c);
    if hs.len() >= 3 {
        let ch = chapters_upto(c, hs, hs.len() as int);
        if ch.0.len() >= 3 {
            (true, merge_chapters(ch.0), ch.1, ch.2, c.len())
        } else {
            (false, plain_from(c, 0, 1), ch.1, ch.2, c.len())
        }
    } else {
        (false, plain_from(c, 0, 1), 0, 0, c.len())
    }
}


// ---- executable chunking ----

/// Executable segments as (label, content) character vectors.
pub open spec fn segs_view(v: Seq<(Vec<char>, Vec<char>)>) -> Seq<SegV> {
    v.map_values(|p: (Vec<char>, Vec<char>)| (p.0@, p.1@))
}

pub open spec fn heads_match(e: Seq<(usize, Vec<char>)>, sp: Seq<(int, Seq<char>)>) -> bool {
    &&& e.len() == sp.len()
    &&& forall|k: int| 0 <= k < e.len() ==> #[trigger] e[k].0 as int == sp[k].0 && e[k].1@ == sp[k].1
}

pub fn normalize_newlines_exec(s: &[char]) -> (r: Vec<char>)
    ensures
        r@ == normalize_newlines(s@),
{
    let mut out: Vec<char> = Vec::new();
    let mut i: usize = 0;
    let n = s.len();
    assert(s@.skip(0) =~= s@);
    while i < n
        invariant
            n == s@.len(),
            i <= n,
            out@ + normalize_newlines(s@.skip(i as int)) == normalize_newlines(s@),
        decreases n - i,
    {
        let ghost rest = s@.skip(i as int);
        let ghost prev = out@;
        assert(rest[0] == s@[i as int]);
        if s[i] == '\r' {
            out.push('\n');
            if i + 1 < n && s[i + 1] == '\n' {
                assert(rest[1] == s@[i + 1]);
                assert(rest.skip(2) =~= s@.skip(i + 2));
                assert(prev.push('\n') + normalize_newlines(s@.skip(i + 2))
                    =~= prev + (seq!['\n'] + normalize_newlines(rest.skip(2))));
                i += 2;
            } else {
                assert(rest.skip(1) =~= s@.skip(i + 1));
                assert(prev.push('\n') + normalize_newlines(s@.skip(i + 1))
                    =~= prev + (seq!['\n'] + normalize_newlines(rest.skip(1))));
                i += 1;
            }
        } else {
            out.push(s[i]);
            assert(rest.skip(1) =~= s@.skip(i + 1));
            assert(prev.push(rest[0]) + normalize_newlines(s@.skip(i + 1))
                =~= prev + (seq![rest[0]] + normalize_newlines(rest.skip(1))));
            i += 1;
        }
    }
    assert(s@.skip(n as int) =~= Seq::<char>::empty());
    assert(out@ + Seq::<char>::empty() =~= out@);
    out
}


/// The trimmed line `s[lo..hi]` when it is a heading.
fn heading_at(s: &[char], lo: usize, hi: usize) -> (r: Option<Vec<char>>)
    requires
        lo <= hi <= s@.len(),
    ensures
        r is Some <==> is_heading_text(trim(s@.subrange(lo as int, hi as int))),
        r matches Some(t) ==> t@ == trim(s@.subrange(lo as int, hi as int)),
{
    let (a, b) = trim_span(s, lo, hi);
    if a == b || b - a > MAX_HEADING_LINE_CHARS {
        return None;
    }
    let t = slice_to_vec(s, a, b);
    if heading_exec(&t) {
        Some(t)
    } else {
        None
    }
}

pub proof fn lemma_headings_upto(ls: Seq<Seq<char>>, k: int)
    requires
        0 <= k <= ls.len(),
    ensures
        forall|i: int| 0 <= i < headings_upto(ls, k).len() ==> 0 <= #[trigger] headings_upto(ls, k)[i].0 < k,
        forall|i: int, j: int| 0 <= i < j < headings_upto(ls, k).len()
            ==> headings_upto(ls, k)[i].0 < headings_upto(ls, k)[j].0,
    decreases k,
{
    if k > 0 {
        lemma_headings_upto(ls, k - 1);
        let prev = headings_upto(ls, k - 1);
        let t = trim(ls[k - 1]);
        if is_heading_text(t) {
            let cur = prev.push((k - 1, t));
            assert(headings_upto(ls, k) == cur);
            assert forall|i: int| 0 <= i < cur.len() implies 0 <= #[trigger] cur[i].0 < k by {
                if i < prev.len() {
                    assert(cur[i] == prev[i]);
                }
            }
            assert forall|i: int, j: int| 0 <= i < j < cur.len() implies cur[i].0 < cur[j].0 by {
                assert(cur[i] == prev[i]);
                if j < prev.len() {
                    assert(cur[j] == prev[j]);
                }
            }
        }
    }
}

/// Scan every line of `c` for headings.
fn detect_headings(c: &[char], spans: &Vec<(usize, usize)>) -> (r: Vec<(usize, Vec<char>)>)
    requires
        spans_match(c@, spans@, lines(c@)),
    ensures
        heads_match(r@, headings(c@)),
{
    let mut r: Vec<(usize, Vec<char>)> = Vec::new();
    let mut k: usize = 0;
    while k < spans.len()
        invariant
            k <= spans@.len(),
            spans_match(c@, spans@, lines(c@)),
            heads_match(r@, headings_upto(lines(c@), k as int)),
        decreases spans@.len() - k,
    {
        let (lo, hi) = spans[k];
        assert(spans@[k as int].0 <= spans@[k as int].1 <= c@.len());
        let h = heading_at(c, lo, hi);
        match h {
            Some(t) => {
                r.push((k, t));
            },
            None => {},
        }
        k += 1;
    }
    r
}

/// Split the text at its headings into chapters, dropping the short ones.
fn split_by_chapters(c: &[char], spans: &Vec<(usize, usize)>, hs: &Vec<(usize, Vec<char>)>)
    -> (r: (Vec<(Vec<char>, Vec<char>)>, usize, usize))
    requires
        spans_match(c@, spans@, lines(c@)),
        forall|k: int| 0 <= k < spans@.len() ==> #[trigger] spans@[k].0 == line_start(c@, k as nat),
        forall|j: int, k: int| 0 <= j < k < spans@.len() ==> spans@[j].0 < spans@[k].0,
        heads_match(hs@, headings(c@)),
    ensures
        segs_view(r.0@) == chapters_upto(c@, headings(c@), hs@.len() as int).0,
        r.1 == chapters_upto(c@, headings(c@), hs@.len() as int).1,
        r.2 == chapters_upto(c@, headings(c@), hs@.len() as int).2,
{
    let ghost sh = headings(c@);
    proof {
        lemma_headings_upto(lines(c@), lines(c@).len() as int);
    }
    let n = c.len();
    let mut out: Vec<(Vec<char>, Vec<char>)> = Vec::new();
    let mut dcount: usize = 0;
    let mut dchars: usize = 0;
    let mut i: usize = 0;
    while i < hs.len()
        invariant
            n == c@.len(),
            i <= hs@.len(),
            spans_match(c@, spans@, lines(c@)),
            forall|k: int| 0 <= k < spans@.len() ==> #[trigger] spans@[k].0 == line_start(c@, k as nat),
            forall|j: int, k: int| 0 <= j < k < spans@.len() ==> spans@[j].0 < spans@[k].0,
            heads_match(hs@, sh),
            sh == headings(c@),
            forall|x: int| 0 <= x < sh.len() ==> 0 <= #[trigger] sh[x].0 < spans@.len(),
            forall|x: int, y: int| 0 <= x < y < sh.len() ==> sh[x].0 < sh[y].0,
            segs_view(out@) == chapters_upto(c@, sh, i as int).0,
            dcount == chapters_upto(c@, sh, i as int).1,
            dchars == chapters_upto(c@, sh, i as int).2,
            dcount <= i,
            i < hs@.len() ==> dchars <= spans@[hs@[i as int].0 as int].0,
            i >= hs@.len() ==> dchars <= n,
        decreases hs@.len() - i,
    {
        let li = hs[i].0;
        assert(li as int == sh[i as int].0);
        let start = spans[li].0;
        let end = if i + 1 < hs.len() {
            let lj = hs[i + 1].0;
            assert(lj as int == sh[i + 1].0);
            spans[lj].0
        } else {
            n
        };
        assert(spans@[li as int].0 <= spans@[li as int].1 <= n);
        assert(start <= end <= n);
        assert(start as int == line_start(c@, sh[i as int].0 as nat));
        assert(end as int == chapter_end(c@, sh, i as int));
        let (a, b) = trim_span(c, start, end);
        let ghost body = chapter_body(c@, sh, i as int);
        assert(c@.subrange(a as int, b as int) == body);
        if b - a < MIN_CHAPTER_BODY_CHARS {
            dcount = dcount + 1;
            dchars = dchars + (b - a);
        } else {
            let label = slice_to_vec(&hs[i].1, 0, hs[i].1.len());
            assert(hs[i as int].1@.subrange(0, hs[i as int].1@.len() as int) =~= hs[i as int].1@);
            let content = slice_to_vec(c, a, b);
            let ghost prev = out@;
            out.push((label, content));
            assert(segs_view(out@) =~= segs_view(prev).push((sh[i as int].1, body)));
        }
        i += 1;
    }
    (out, dcount, dchars)
}


pub proof fn lemma_join_step(ps: Seq<Seq<char>>, sep: Seq<char>, m: int)
    requires
        0 <= m < ps.len(),
    ensures
        m == 0 ==> join(ps.take(m + 1), sep) == ps[0],
        m > 0 ==> join(ps.take(m + 1), sep) == join(ps.take(m), sep) + sep + ps[m],
{
    assert(ps.take(m + 1).drop_last() =~= ps.take(m));
}

/// Chapters `ch[idx..end]` merged into one segment.
fn group_exec(ch: &Vec<(Vec<char>, Vec<char>)>, idx: usize, end: usize) -> (r: (Vec<char>, Vec<char>))
    requires
        idx < end <= ch@.len(),
    ensures
        (r.0@, r.1@) == group_segment(segs_view(ch@).subrange(idx as int, end as int)),
{
    let ghost items = segs_view(ch@).subrange(idx as int, end as int);
    let mut label: Vec<char> = Vec::new();
    extend_all(&mut label, &ch[idx].0);
    if end - idx > 1 {
        label.push(' ');
        label.push('~');
        label.push(' ');
        extend_all(&mut label, &ch[end - 1].0);
    }
    assert(label@ =~= group_segment(items).0);
    let ghost pieces = items.map_values(|x: SegV| x.1);
    let mut content: Vec<char> = Vec::new();
    let mut k = idx;
    while k < end
        invariant
            idx <= k <= end <= ch@.len(),
            items == segs_view(ch@).subrange(idx as int, end as int),
            pieces == items.map_values(|x: SegV| x.1),
            k > idx ==> content@ == join(pieces.take(k - idx), seq!['\n', '\n']),
            k == idx ==> content@ == Seq::<char>::empty(),
        decreases end - k,
    {
        proof {
            lemma_join_step(pieces, seq!['\n', '\n'], k - idx);
        }
        assert(pieces[k - idx] == ch@[k as int].1@);
        if k > idx {
            content.push('\n');
            content.push('\n');
        }
        extend_all(&mut content, &ch[k].1);
        assert(k == idx ==> content@ =~= pieces[0]);
        k += 1;
    }
    assert(pieces.take(end - idx) =~= pieces);
    (label, content)
}

fn merge_groups(ch: &Vec<(Vec<char>, Vec<char>)>) -> (r: Vec<(Vec<char>, Vec<char>)>)
    ensures
        segs_view(r@) == groups_from(segs_view(ch@), (ch@.len() / 12 + if ch@.len() % 12 == 0 { 0int } else { 1int }) as int, 0),
{
    let n = ch.len();
    let g = n / 12 + if n % 12 == 0 { 0 } else { 1 };
    let ghost sv = segs_view(ch@);
    let mut out: Vec<(Vec<char>, Vec<char>)> = Vec::new();
    let mut idx: usize = 0;
    if g == 0 {
        return out;
    }
    while idx < n
        invariant
            n == ch@.len(),
            sv == segs_view(ch@),
            g >= 1,
            g == n / 12 + if n % 12 == 0 { 0int } else { 1int },
            idx <= n,
            segs_view(out@) + groups_from(sv, g as int, idx as int) == groups_from(sv, g as int, 0),
        decreases n - idx,
    {
        let end = if n - idx > g { idx + g } else { n };
        let seg = group_exec(ch, idx, end);
        let ghost prev = out@;
        out.push(seg);
        assert(segs_view(out@) =~= segs_view(prev).push(group_segment(sv.subrange(idx as int, end as int))));
        assert(segs_view(out@) + groups_from(sv, g as int, end as int)
            =~= segs_view(prev) + groups_from(sv, g as int, idx as int));
        idx = end;
    }
    assert(segs_view(out@) + Seq::<SegV>::empty() =~= segs_view(out@));
    out
}

pub proof fn lemma_last_index_shift(c: Seq<char>, pos: int, lo: int, hi: int, x: char)
    requires
        0 <= pos,
        0 <= lo,
        pos + hi <= c.len(),
    ensures
        last_index_in(c.skip(pos), lo, hi, x) == match last_index_in(c, pos + lo, pos + hi, x) {
            Some(k) => Some(k - pos),
            None => None,
        },
    decreases hi - lo,
{
    if hi > lo {
        assert(c.skip(pos)[hi - 1] == c[pos + hi - 1]);
        lemma_last_index_shift(c, pos, lo, hi - 1, x);
    }
}

/// Label of part `part`.
fn part_label_exec(label: &Vec<char>, part: u64) -> (r: Vec<char>)
    requires
        part >= 1,
    ensures
        r@ == part_label(label@, part as nat),
{
    let mut r: Vec<char> = Vec::new();
    extend_all(&mut r, label);
    if part == 1 {
        assert(r@ =~= label@);
        return r;
    }
    r.push('（');
    let ghost before = r@;
    if part <= 9 {
        let d = if part == 2 { '二' } else if part == 3 { '三' } else if part == 4 { '四' }
            else if part == 5 { '五' } else if part == 6 { '六' } else if part == 7 { '七' }
            else if part == 8 { '八' } else { '九' };
        r.push(d);
        assert(r@ =~= before + seq![cn_digit(part as nat)]);
    } else {
        push_decimal(&mut r, part);
    }
    r.push('）');
    assert(r@ =~= part_label(label@, part as nat));
    r
}

/// Append the parts of an oversized segment (or the segment itself) to `out`.
fn resplit_exec(label: &Vec<char>, c: &Vec<char>, out: &mut Vec<(Vec<char>, Vec<char>)>)
    ensures
        segs_view(final(out)@) == segs_view(old(out)@) + resplit((label@, c@)),
{
    let n = c.len();
    if n <= MAX_MERGED_SEGMENT_CHARS {
        let ghost prev = out@;
        out.push((slice_to_vec(label, 0, label.len()), slice_to_vec(c, 0, n)));
        assert(label@.subrange(0, label@.len() as int) =~= label@);
        assert(c@.subrange(0, n as int) =~= c@);
        assert(segs_view(out@) =~= segs_view(prev) + seq![(label@, c@)]);
        return;
    }
    let ghost out0 = segs_view(out@);
    let mut pos: usize = 0;
    let mut part: u128 = 1;
    while pos < n
        invariant
            n == c@.len(),
            n > 48000,
            pos <= n,
            1 <= part <= pos + 1,
            segs_view(out@) + parts_from(label@, c@, pos as int, part as nat) == out0 + parts_from(label@, c@, 0, 1),
        decreases n - pos,
    {
        let ghost rest = c@.skip(pos as int);
        let remaining = n - pos;
        let limit = if remaining < MAX_MERGED_SEGMENT_CHARS { remaining } else { MAX_MERGED_SEGMENT_CHARS };
        let mut cut = limit;
        if limit < remaining {
            proof {
                lemma_last_index_shift(c@, pos as int, 0, limit as int, '\n');
            }
            match find_last_in(c, pos, pos + limit, '\n') {
                Some(k) => {
                    proof {
                        lemma_last_index_in(c@, pos as int, pos + limit, '\n');
                    }
                    let nl = k - pos;
                    assert(rest.take(nl as int) =~= c@.subrange(pos as int, k as int));
                    if nl > 0 && byte_len_at_least(c, pos, k, RESPLIT_MIN_CUT_BYTES) {
                        cut = nl;
                    }
                },
                None => {},
            }
        }
        assert(cut as int == resplit_cut(rest));
        proof {
            lemma_resplit_cut(rest);
        }
        let (a, b) = trim_span(c, pos, pos + cut);
        assert(rest.take(cut as int) =~= c@.subrange(pos as int, pos + cut));
        let skip = run_of(c, pos + cut, 4);
        let next = pos + cut + skip;
        let ghost prev = out@;
        if a < b {
            let lab = part_label_exec(label, part as u64);
            let body = slice_to_vec(c, a, b);
            out.push((lab, body));
        }
        assert(segs_view(out@) =~= segs_view(prev) + (if trim(rest.take(cut as int)).len() > 0 {
            seq![(part_label(label@, part as nat), trim(rest.take(cut as int)))]
        } else {
            Seq::<SegV>::empty()
        }));
        assert(segs_view(out@) + parts_from(label@, c@, next as int, (part + 1) as nat)
            =~= segs_view(prev) + parts_from(label@, c@, pos as int, part as nat));
        pos = next;
        part = part + 1;
    }
    assert(segs_view(out@) + Seq::<SegV>::empty() =~= segs_view(out@));
}


fn finalize_exec(segs: &Vec<(Vec<char>, Vec<char>)>) -> (r: Vec<(Vec<char>, Vec<char>)>)
    ensures
        segs_view(r@) == finalize_upto(segs_view(segs@), segs@.len() as int),
{
    let mut out: Vec<(Vec<char>, Vec<char>)> = Vec::new();
    let mut k: usize = 0;
    while k < segs.len()
        invariant
            k <= segs@.len(),
            segs_view(out@) == finalize_upto(segs_view(segs@), k as int),
        decreases segs@.len() - k,
    {
        resplit_exec(&segs[k].0, &segs[k].1, &mut out);
        assert(segs_view(segs@)[k as int] == (segs@[k as int].0@, segs@[k as int].1@));
        k += 1;
    }
    out
}

fn merge_exec(ch: &Vec<(Vec<char>, Vec<char>)>) -> (r: Vec<(Vec<char>, Vec<char>)>)
    ensures
        segs_view(r@) == merge_chapters(segs_view(ch@)),
{
    if ch.len() <= TARGET_SEGMENT_COUNT {
        finalize_exec(ch)
    } else {
        let merged = merge_groups(ch);
        finalize_exec(&merged)
    }
}

/// Sliding-window split of the whole text.
fn split_plain(c: &Vec<char>) -> (r: Vec<(Vec<char>, Vec<char>)>)
    ensures
        segs_view(r@) == plain_from(c@, 0, 1),
{
    let total = c.len();
    let mut out: Vec<(Vec<char>, Vec<char>)> = Vec::new();
    let mut start: usize = 0;
    let mut order: u128 = 1;
    while start < total
        invariant
            total == c@.len(),
            start <= total,
            1 <= order <= start + 1,
            segs_view(out@) + plain_from(c@, start as int, order as nat) == plain_from(c@, 0, 1),
        decreases total - start,
    {
        let target_end = if total - start > TARGET_SEGMENT_CHARS { start + TARGET_SEGMENT_CHARS } else { total };
        let mut boundary = target_end;
        if target_end < total {
            let limit = if total - start > MAX_SEGMENT_CHARS { start + MAX_SEGMENT_CHARS } else { total };
            proof {
                lemma_last_index_in(c@, start as int, limit as int, '\n');
            }
            match find_last_in(c, start, limit, '\n') {
                Some(k) => {
                    if k + 1 > start + MIN_SEGMENT_CHARS {
                        boundary = k + 1;
                    }
                },
                None => {},
            }
        }
        assert(boundary as int == plain_boundary(c@, start as int));
        let (a, b) = trim_span(c, start, boundary);
        let ghost prev = out@;
        let ghost t = trim(c@.subrange(start as int, boundary as int));
        let mut next_order = order;
        if a < b {
            let mut label: Vec<char> = Vec::new();
            label.push('片');
            label.push('段');
            label.push(' ');
            push_decimal(&mut label, order as u64);
            assert(label@ =~= plain_label(order as nat));
            let body = slice_to_vec(c, a, b);
            out.push((label, body));
            next_order = order + 1;
        }
        let ghost head = if t.len() > 0 { seq![(plain_label(order as nat), t)] } else { Seq::<SegV>::empty() };
        assert(segs_view(out@) =~= segs_view(prev) + head);
        if boundary >= total {
            assert(segs_view(out@) + plain_from(c@, total as int, next_order as nat) =~= segs_view(prev) + plain_from(c@, start as int, order as nat));
            start = total;
        } else {
            let back = if boundary > CHUNK_OVERLAP_CHARS { boundary - CHUNK_OVERLAP_CHARS } else { 0 };
            let next = if back > start + 1 { back } else { start + 1 };
            assert(next as int == (if boundary - 400 > start + 1 { boundary - 400 } else { start + 1 }));
            assert(segs_view(out@) + plain_from(c@, next as int, next_order as nat) =~= segs_view(prev) + plain_from(c@, start as int, order as nat));
            start = next;
        }
        order = next_order;
    }
    assert(segs_view(out@) + Seq::<SegV>::empty() =~= segs_view(out@));
    out
}

// ---- the public chunking contract ----

/// A source segment: chapter/scene heading (or "片段 N") and its trimmed text.
#[derive(Debug, Clone, PartialEq)]
pub struct SourceSegment {
    pub label: String,
    pub content: String,
}

impl View for SourceSegment {
    type V = SegV;

    open spec fn view(&self) -> SegV {
        (self.label@, self.content@)
    }
}

#[derive(Debug, Clone, PartialEq)]
pub struct ChunkStats {
    /// "chapter" | "plain"
    pub strategy: String,
    pub segment_count: usize,
    pub covered_char_length: usize,
    pub total_char_length: usize,
    pub discarded_chapter_count: usize,
    pub discarded_chapter_chars: usize,
}

#[derive(Debug, Clone, PartialEq)]
pub struct ChunkResult {
    pub segments: Vec<SourceSegment>,
    pub stats: ChunkStats,
}

pub open spec fn source_segs_view(v: Seq<SourceSegment>) -> Seq<SegV> {
    v.map_values(|s: SourceSegment| s@)
}

/// `r` is the chunking `plan` of a text.
pub open spec fn chunk_result_is(r: ChunkResult, plan: (bool, Seq<SegV>, nat, nat, nat)) -> bool {
    &&& source_segs_view(r.segments@) == plan.1
    &&& r.stats.strategy@ == (if plan.0 { "chapter"@ } else { "plain"@ })
    &&& r.stats.segment_count == r.segments@.len()
    &&& r.stats.covered_char_length == plan.4
    &&& r.stats.total_char_length == plan.4
    &&& r.stats.discarded_chapter_count == plan.2
    &&& r.stats.discarded_chapter_chars == plan.3
}

fn to_source_segments(v: &Vec<(Vec<char>, Vec<char>)>) -> (r: Vec<SourceSegment>)
    ensures
        source_segs_view(r@) == segs_view(v@),
{
    let mut r: Vec<SourceSegment> = Vec::new();
    let mut k: usize = 0;
    while k < v.len()
        invariant
            k <= v@.len(),
            source_segs_view(r@) == segs_view(v@).take(k as int),
        decreases v@.len() - k,
    {
        let seg = SourceSegment { label: string_of(&v[k].0), content: string_of(&v[k].1) };
        let ghost prev = r@;
        assert(seg@ == segs_view(v@)[k as int]);
        r.push(seg);
        assert(source_segs_view(r@) =~= source_segs_view(prev).push(seg@));
        assert(segs_view(v@).take(k + 1) =~= segs_view(v@).take(k as int).push(segs_view(v@)[k as int]));
        k += 1;
    }
    assert(segs_view(v@).take(v@.len() as int) =~= segs_view(v@));
    r
}

/// Split a whole text into segments: chapters when it has at least three
/// headings (and at least three chapters survive the length filter), a
/// sliding window otherwise.
pub fn build_chunks(content: &str) -> (r: ChunkResult)
    ensures
        chunk_result_is(r, plan_chunks(content@)),
{
    let raw = chars_of(content);
    let c = normalize_newlines_exec(&raw);
    let spans = line_spans(&c);
    let hs = detect_headings(&c, &spans);
    let total = c.len();
    let (segs, chapter, dcount, dchars) = if hs.len() >= MIN_HEADING_COUNT {
        let (ch, dcount, dchars) = split_by_chapters(&c, &spans, &hs);
        if ch.len() >= MIN_HEADING_COUNT {
            (merge_exec(&ch), true, dcount, dchars)
        } else {
            (split_plain(&c), false, dcount, dchars)
        }
    } else {
        (split_plain(&c), false, 0, 0)
    };
    let segments = to_source_segments(&segs);
    let strategy = if chapter { "chapter".to_owned() } else { "plain".to_owned() };
    let count = segments.len();
    ChunkResult {
        segments,
        stats: ChunkStats {
            strategy,
            segment_count: count,
            covered_char_length: total,
            total_char_length: total,
            discarded_chapter_count: dcount,
            discarded_chapter_chars: dchars,
        },
    }
}


/// The target segment length for a configured value: the target
/// length of a segment (10000 when not configured), clamped to the allowed range.
pub fn segment_chars(configured: Option<usize>) -> (r: usize)
    ensures
        r == (match configured {
            None => TARGET_SEGMENT_CHARS,
            Some(v) => if v < MIN_SEGMENT_CHARS {
                MIN_SEGMENT_CHARS
            } else if v > MAX_SEGMENT_CHARS {
                MAX_SEGMENT_CHARS
            } else {
                v
            },
        }),
        MIN_SEGMENT_CHARS <= r <= MAX_SEGMENT_CHARS,
{
    let v = match configured {
        Some(v) => v,
        None => TARGET_SEGMENT_CHARS,
    };
    if v < MIN_SEGMENT_CHARS {
        MIN_SEGMENT_CHARS
    } else if v > MAX_SEGMENT_CHARS {
        MAX_SEGMENT_CHARS
    } else {
        v
    }
}


proof fn lemma_parts_bound(label: Seq<char>, c: Seq<char>, pos: int, part: nat)
    ensures
        forall|j: int| 0 <= j < parts_from(label, c, pos, part).len() ==> 0 < (#[trigger] parts_from(label, c, pos, part)[j]).1.len() <= 48000,
    decreases c.len() - pos,
{
    if !(pos < 0 || pos >= c.len()) {
        let rest = c.skip(pos);
        let cut = resplit_cut(rest);
        let chunk = trim(rest.take(cut));
        let next = pos + cut + run_len(c, pos + cut, class_pred(4));
        lemma_resplit_cut(rest);
        lemma_run_len_bound(c, pos + cut, class_pred(4));
        crate::text::lemma_trim_len(rest.take(cut));
        lemma_parts_bound(label, c, next, part + 1);
        let head: Seq<SegV> = if chunk.len() > 0 { seq![(part_label(label, part), chunk)] } else { seq![] };
        let tail = parts_from(label, c, next, part + 1);
        assert(parts_from(label, c, pos, part) == head + tail);
        assert forall|j: int| 0 <= j < (head + tail).len() implies 0 < (#[trigger] (head + tail)[j]).1.len() <= 48000 by {
            if j < head.len() {
                assert((head + tail)[j] == head[j]);
            } else {
                assert((head + tail)[j] == tail[j - head.len()]);
            }
        }
    }
}

proof fn lemma_finalize_bound(segs: Seq<SegV>, k: int)
    ensures
        forall|j: int| 0 <= j < finalize_upto(segs, k).len() ==> (#[trigger] finalize_upto(segs, k)[j]).1.len() <= 48000,
    decreases k,
{
    if k > 0 {
        lemma_finalize_bound(segs, k - 1);
        let prev = finalize_upto(segs, k - 1);
        let last = resplit(segs[k - 1]);
        if segs[k - 1].1.len() > 48000 {
            lemma_parts_bound(segs[k - 1].0, segs[k - 1].1, 0, 1);
        }
        assert forall|j: int| 0 <= j < (prev + last).len() implies (#[trigger] (prev + last)[j]).1.len() <= 48000 by {
            if j < prev.len() {
                assert((prev + last)[j] == prev[j]);
            } else {
                assert((prev + last)[j] == last[j - prev.len()]);
            }
        }
    }
}

proof fn lemma_plain_bound(c: Seq<char>, start: int, order: nat)
    ensures
        forall|j: int| 0 <= j < plain_from(c, start, order).len() ==> 0 < (#[trigger] plain_from(c, start, order)[j]).1.len() <= 16000,
    decreases c.len() - start,
{
    if !(start < 0 || start >= c.len()) {
        let b = plain_boundary(c, start);
        let total = c.len() as int;
        let target_end = if start + 10000 < total { start + 10000 } else { total };
        if target_end < total {
            let limit = if start + 16000 < total { start + 16000 } else { total };
            crate::llm::lemma_last_index_range(c, start, limit, '\n');
        }
        assert(start < b <= start + 16000 && b <= c.len());
        let t = trim(c.subrange(start, b));
        crate::text::lemma_trim_len(c.subrange(start, b));
        let head: Seq<SegV> = if t.len() > 0 { seq![(plain_label(order), t)] } else { seq![] };
        let next_order = if t.len() > 0 { order + 1 } else { order };
        if b < c.len() {
            let back = b - 400;
            let next = if back > start + 1 { back } else { start + 1 };
            lemma_plain_bound(c, next, next_order);
            let tail = plain_from(c, next, next_order);
            assert forall|j: int| 0 <= j < (head + tail).len() implies 0 < (#[trigger] (head + tail)[j]).1.len() <= 16000 by {
                if j < head.len() {
                    assert((head + tail)[j] == head[j]);
                } else {
                    assert((head + tail)[j] == tail[j - head.len()]);
                }
            }
        }
    }
}

/// Law of the chunker: no segment holds more than 48000 characters; on the
/// plain path no segment is empty or holds more than 16000 characters.
pub proof fn law_segment_sizes(content: Seq<char>)
    ensures
        forall|j: int| 0 <= j < plan_chunks(content).1.len() ==> (#[trigger] plan_chunks(content).1[j]).1.len() <= 48000,
        !plan_chunks(content).0 ==> forall|j: int| 0 <= j < plan_chunks(content).1.len()
            ==> 0 < (#[trigger] plan_chunks(content).1[j]).1.len() <= 16000,
{
    let c = normalize_newlines(content);
    let hs = headings(c);
    lemma_plain_bound(c, 0, 1);
    if hs.len() >= 3 {
        let ch = chapters_upto(c, hs, hs.len() as int);
        if ch.0.len() >= 3 {
            let merged = if ch.0.len() <= 12 {
                ch.0
            } else {
                groups_from(ch.0, (ch.0.len() / 12 + if ch.0.len() % 12 == 0 { 0int } else { 1int }) as int, 0)
            };
            lemma_finalize_bound(merged, merged.len() as int);
        }
    }
}

/// Law of the chunker: chunking depends on the text alone, so two results
/// for the same text hold the same segments and statistics.
pub proof fn law_chunking_deterministic(content: Seq<char>, r1: ChunkResult, r2: ChunkResult)
    requires
        chunk_result_is(r1, plan_chunks(content)),
        chunk_result_is(r2, plan_chunks(content)),
    ensures
        source_segs_view(r1.segments@) == source_segs_view(r2.segments@),
        r1.stats.strategy@ == r2.stats.strategy@,
        r1.stats.segment_count == r2.stats.segment_count,
        r1.stats.covered_char_length == r2.stats.covered_char_length,
        r1.stats.discarded_chapter_count == r2.stats.discarded_chapter_count,
        r1.stats.discarded_chapter_chars == r2.stats.discarded_chapter_chars,
{
    assert(r1.segments@.len() == source_segs_view(r1.segments@).len());
    assert(r2.segments@.len() == source_segs_view(r2.segments@).len());
}

/// Normalised text holds no carriage return.
pub proof fn lemma_normalized_has_no_cr(s: Seq<char>)
    ensures
        forall|i: int| 0 <= i < normalize_newlines(s).len() ==> #[trigger] normalize_newlines(s)[i] != '\r',
    decreases s.len(),
{
    if s.len() > 0 {
        let rest = if s[0] == '\r' && s.len() > 1 && s[1] == '\n' { s.skip(2) } else { s.skip(1) };
        lemma_normalized_has_no_cr(rest);
        let head = if s[0] == '\r' { '\n' } else { s[0] };
        assert(normalize_newlines(s) == seq![head] + normalize_newlines(rest));
        assert forall|i: int| 0 <= i < normalize_newlines(s).len() implies #[trigger] normalize_newlines(s)[i] != '\r' by {
            if i > 0 {
                assert(normalize_newlines(s)[i] == normalize_newlines(rest)[i - 1]);
            }
        }
    }
}

/// Text without carriage returns is left as it is.
pub proof fn lemma_normalize_without_cr(s: Seq<char>)
    requires
        forall|i: int| 0 <= i < s.len() ==> #[trigger] s[i] != '\r',
    ensures
        normalize_newlines(s) == s,
    decreases s.len(),
{
    if s.len() > 0 {
        assert(s[0] != '\r');
        assert forall|i: int| 0 <= i < s.skip(1).len() implies #[trigger] s.skip(1)[i] != '\r' by {
            assert(s.skip(1)[i] == s[i + 1]);
        }
        lemma_normalize_without_cr(s.skip(1));
        assert(seq![s[0]] + s.skip(1) =~= s);
    }
}

/// Law of the chunker: line endings do not matter. A text with CRLF or lone
/// CR line endings chunks exactly as the same text with LF line endings.
pub proof fn law_line_endings_irrelevant(content: Seq<char>)
    ensures
        plan_chunks(content) == plan_chunks(normalize_newlines(content)),
{
    lemma_normalized_has_no_cr(content);
    lemma_normalize_without_cr(normalize_newlines(content));
}

/// Total length of some pieces of text.
pub open spec fn pieces_len(ps: Seq<Seq<char>>) -> nat
    decreases ps.len(),
{
    if ps.len() == 0 { 0 } else { pieces_len(ps.drop_last()) + ps.last().len() }
}

/// Where piece `k` starts in the pieces joined by `sep`.
pub open spec fn piece_offset(ps: Seq<Seq<char>>, sep: Seq<char>, k: int) -> int {
    pieces_len(ps.take(k)) + sep.len() * k
}

/// Joined pieces are as long as the pieces and the separators between them.
proof fn lemma_join_len(ps: Seq<Seq<char>>, sep: Seq<char>)
    requires
        ps.len() > 0,
    ensures
        join(ps, sep).len() == pieces_len(ps) + sep.len() * (ps.len() - 1),
    decreases ps.len(),
{
    let n = ps.len() as int;
    if n == 1 {
        assert(ps.drop_last() =~= Seq::<Seq<char>>::empty());
        assert(pieces_len(Seq::<Seq<char>>::empty()) == 0);
        assert(sep.len() * (n - 1) == 0) by (nonlinear_arith) requires n == 1;
    } else {
        lemma_join_len(ps.drop_last(), sep);
        assert(sep.len() * (n - 1) == sep.len() * (n - 2) + sep.len()) by (nonlinear_arith);
    }
}

/// Joined pieces hold each piece in full at its offset.
pub proof fn lemma_join_layout(ps: Seq<Seq<char>>, sep: Seq<char>)
    requires
        ps.len() > 0,
    ensures
        join(ps, sep).len() == pieces_len(ps) + sep.len() * (ps.len() - 1),
        forall|k: int| 0 <= k < ps.len() ==> join(ps, sep).subrange(
            piece_offset(ps, sep, k), piece_offset(ps, sep, k) + ps[k].len()) == #[trigger] ps[k],
    decreases ps.len(),
{
    lemma_join_len(ps, sep);
    let n = ps.len() as int;
    if n == 1 {
        assert(ps.take(0) =~= Seq::<Seq<char>>::empty());
        assert(pieces_len(Seq::<Seq<char>>::empty()) == 0);
        assert(piece_offset(ps, sep, 0) == 0);
        assert(join(ps, sep) == ps[0]);
        assert(join(ps, sep).subrange(0, ps[0].len() as int) =~= ps[0]);
    } else {
        let front = ps.drop_last();
        lemma_join_layout(front, sep);
        let jf = join(front, sep);
        let j = join(ps, sep);
        assert(j == jf + sep + ps.last());
        assert forall|k: int| 0 <= k < n implies j.subrange(
            piece_offset(ps, sep, k), piece_offset(ps, sep, k) + ps[k].len()) == #[trigger] ps[k] by {
            if k < n - 1 {
                assert(ps.take(k) =~= front.take(k));
                assert(front[k] == ps[k]);
                let lo = piece_offset(ps, sep, k);
                assert(lo == piece_offset(front, sep, k));
                lemma_offset_bound(front, sep, k);
                assert(j.subrange(lo, lo + ps[k].len()) =~= jf.subrange(lo, lo + ps[k].len()));
            } else {
                assert(ps.take(k) =~= front);
                assert(piece_offset(ps, sep, k) == jf.len() + sep.len());
                assert(j.subrange((jf.len() + sep.len()) as int, j.len() as int) =~= ps.last());
            }
        }
    }
}

proof fn lemma_offset_bound(ps: Seq<Seq<char>>, sep: Seq<char>, k: int)
    requires
        0 <= k < ps.len(),
    ensures
        piece_offset(ps, sep, k) + ps[k].len() <= pieces_len(ps) + sep.len() * (ps.len() - 1),
        piece_offset(ps, sep, k) >= 0,
    decreases ps.len(),
{
    let n = ps.len() as int;
    assert(sep.len() * k >= 0) by (nonlinear_arith) requires k >= 0;
    if k == n - 1 {
        assert(ps.take(k) =~= ps.drop_last());
    } else {
        lemma_offset_bound(ps.drop_last(), sep, k);
        assert(ps.take(k) =~= ps.drop_last().take(k));
        assert(ps.drop_last()[k] == ps[k]);
        assert(sep.len() * (n - 1) == sep.len() * (n - 2) + sep.len()) by (nonlinear_arith);
    }
}

/// Law of chapter merging: a merged group loses no chapter text. Its content
/// is as long as its chapters' bodies together plus a blank line between each
/// two, and each body stands in it, in order, after the bodies before it and
/// their blank lines; its label names the first and the last chapter.
pub proof fn law_merge_keeps_every_chapter(items: Seq<SegV>)
    requires
        items.len() > 0,
    ensures
        group_segment(items).1.len() == pieces_len(items.map_values(|x: SegV| x.1)) + 2 * (items.len() - 1),
        forall|k: int| 0 <= k < items.len() ==> group_segment(items).1.subrange(
            pieces_len(items.take(k).map_values(|x: SegV| x.1)) + 2 * k,
            pieces_len(items.take(k).map_values(|x: SegV| x.1)) + 2 * k + items[k].1.len()) == #[trigger] items[k].1,
        items.len() == 1 ==> group_segment(items).0 == items[0].0,
        items.len() > 1 ==> group_segment(items).0 == items[0].0 + seq![' ', '~', ' '] + items.last().0,
{
    let ps = items.map_values(|x: SegV| x.1);
    let sep = seq!['\n', '\n'];
    lemma_join_layout(ps, sep);
    assert forall|k: int| 0 <= k < items.len() implies group_segment(items).1.subrange(
        pieces_len(items.take(k).map_values(|x: SegV| x.1)) + 2 * k,
        pieces_len(items.take(k).map_values(|x: SegV| x.1)) + 2 * k + items[k].1.len()) == #[trigger] items[k].1 by {
        assert(items.take(k).map_values(|x: SegV| x.1) =~= ps.take(k));
        assert(ps[k] == items[k].1);
    }
}

/// Groups from chapter `m * g` on: group `i` merges the chapters
/// `(m + i) * g` up to the next multiple of `g` (or the last chapter).
proof fn lemma_groups_from(ch: Seq<SegV>, g: int, m: int)
    requires
        g >= 1,
        m >= 0,
    ensures
        groups_from(ch, g, m * g).len() == (if m * g >= ch.len() { 0 } else { (ch.len() - m * g + g - 1) / g }),
        forall|i: int| 0 <= i < groups_from(ch, g, m * g).len() ==> #[trigger] groups_from(ch, g, m * g)[i]
            == group_segment(ch.subrange((m + i) * g, if (m + i + 1) * g < ch.len() { (m + i + 1) * g } else { ch.len() as int })),
    decreases (if m * g < ch.len() { ch.len() - m * g } else { 0 }),
{
    assert(m * g >= 0) by (nonlinear_arith) requires m >= 0, g >= 1;
    assert((m + 1) * g == m * g + g) by (nonlinear_arith);
    if m * g < ch.len() {
        let idx = m * g;
        let end = if idx + g < ch.len() { idx + g } else { ch.len() as int };
        assert(ch.len() - (m + 1) * g < ch.len() - m * g);
        lemma_groups_from(ch, g, m + 1);
        let rest = groups_from(ch, g, (m + 1) * g);
        let all = groups_from(ch, g, idx);
        assert(all == seq![group_segment(ch.subrange(idx, end))] + groups_from(ch, g, end));
        if idx + g < ch.len() {
            assert(end == (m + 1) * g);
            let x = ch.len() - idx - g + g - 1;
            assert((ch.len() - idx + g - 1) / g == (ch.len() - (m + 1) * g + g - 1) / g + 1) by (nonlinear_arith)
                requires g >= 1, x >= 0, ch.len() - idx + g - 1 == x + g, ch.len() - (m + 1) * g + g - 1 == x;
        } else {
            assert(groups_from(ch, g, end).len() == 0);
            assert((ch.len() - idx + g - 1) / g == 1) by (nonlinear_arith)
                requires g >= 1, 0 < ch.len() - idx <= g;
        }
        assert forall|i: int| 0 <= i < all.len() implies #[trigger] all[i]
            == group_segment(ch.subrange((m + i) * g, if (m + i + 1) * g < ch.len() { (m + i + 1) * g } else { ch.len() as int })) by {
            assert((m + i) * g == m * g + i * g) by (nonlinear_arith);
            assert((m + i + 1) * g == m * g + i * g + g) by (nonlinear_arith);
            if i > 0 {
                assert(all[i] == rest[i - 1]);
                assert((m + 1 + (i - 1)) == m + i);
            } else {
                assert(i * g == 0) by (nonlinear_arith) requires i == 0;
            }
        }
    }
}

/// Law of chapter merging: with groups of `g` chapters, the groups cover the
/// chapters in order, each chapter in exactly one group: group `i` merges
/// chapters `i * g` up to `(i + 1) * g` (the last group what remains), and
/// there are as many groups as `g` goes into the chapter count, rounded up.
pub proof fn law_groups_cover_chapters(ch: Seq<SegV>, g: int)
    requires
        g >= 1,
    ensures
        groups_from(ch, g, 0).len() == (ch.len() + g - 1) / g,
        forall|i: int| 0 <= i < groups_from(ch, g, 0).len() ==> #[trigger] groups_from(ch, g, 0)[i]
            == group_segment(ch.subrange(i * g, if (i + 1) * g < ch.len() { (i + 1) * g } else { ch.len() as int })),
{
    lemma_groups_from(ch, g, 0);
    assert(0 * g == 0);
    if ch.len() == 0 {
        assert((g - 1) / g == 0) by (nonlinear_arith) requires g >= 1;
    }
}
} // verus!
