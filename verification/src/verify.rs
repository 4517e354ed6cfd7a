//! Quote verification: every 「quote」（unit） in a generated file is looked
//! up in the source text after normalisation; quotes that cannot be found
//! are reported and, after one regeneration, lose their quote marks.

use vstd::prelude::*;
use crate::chunk::{SegV, SourceSegment};
use crate::text::{
    chars_eq, chars_of, contains_chars, contains_seq, extend_all, extend_range, is_whitespace_char,
    is_ws, matches_at, occurs_at, run_len, slice_to_vec, string_of, trim, trim_span,
};

verus! {

/// A quote and its citation unit.
#[derive(Debug, Clone, PartialEq)]
pub struct QuoteCite {
    pub quote: String,
    pub unit: String,
}

#[derive(Debug, Clone, PartialEq)]
pub struct RemovedQuote {
    pub file: String,
    pub quote: String,
    pub unit: String,
}

#[derive(Debug, Clone, PartialEq)]
pub struct VerifyReport {
    /// Quotes that were found in the source.
    pub passed: usize,
    /// Quotes removed after the second failure.
    pub removed: Vec<RemovedQuote>,
}

pub open spec fn not_close_quote() -> spec_fn(char) -> bool {
    |c: char| c != '」'
}

pub open spec fn not_close_paren() -> spec_fn(char) -> bool {
    |c: char| c != '）'
}

/// `「([^」]{2,300})」（([^）]{1,80})）` at position `i`: (quote length, unit length).
pub open spec fn quote_at(t: Seq<char>, i: int) -> Option<(int, int)> {
    if 0 <= i < t.len() && t[i] == '「' {
        let q = run_len(t, i + 1, not_close_quote()) as int;
        let ustart = i + q + 3;
        if 2 <= q <= 300 && i + q + 2 < t.len() && t[i + q + 2] == '（' {
            let u = run_len(t, ustart, not_close_paren()) as int;
            if 1 <= u <= 80 && ustart + u < t.len() {
                Some((q, u))
            } else {
                None
            }
        } else {
            None
        }
    } else {
        None
    }
}

/// All quotes from offset `i` on (leftmost, non-overlapping): (quote, trimmed unit).
pub open spec fn quotes_from(t: Seq<char>, i: int) -> Seq<(Seq<char>, Seq<char>)>
    decreases t.len() - i,
{
    if i < 0 || i >= t.len() {
        seq![]
    } else {
        match quote_at(t, i) {
            Some((q, u)) => {
                seq![(t.subrange(i + 1, i + 1 + q), trim(t.subrange(i + q + 3, i + q + 3 + u)))]
                    + quotes_from(t, i + q + u + 4)
            },
            None => quotes_from(t, i + 1),
        }
    }
}

pub open spec fn cite_view(c: QuoteCite) -> (Seq<char>, Seq<char>) {
    (c.quote@, c.unit@)
}

fn run_not(t: &[char], from: usize, stop: char) -> (r: usize)
    requires
        from <= t@.len(),
        stop == '」' || stop == '）',
    ensures
        r == run_len(t@, from as int, if stop == '」' { not_close_quote() } else { not_close_paren() }),
        from + r <= t@.len(),
{
    let ghost p = if stop == '」' { not_close_quote() } else { not_close_paren() };
    let mut i = from;
    while i < t.len() && t[i] != stop
        invariant
            from <= i <= t@.len(),
            p == (if stop == '」' { not_close_quote() } else { not_close_paren() }),
            stop == '」' || stop == '）',
            run_len(t@, from as int, p) == (i - from) + run_len(t@, i as int, p),
        decreases t@.len() - i,
    {
        i += 1;
    }
    i - from
}

fn quote_at_exec(t: &[char], i: usize) -> (r: Option<(usize, usize)>)
    requires
        i < t@.len(),
    ensures
        match r { Some((q, u)) => quote_at(t@, i as int) == Some((q as int, u as int)), None => quote_at(t@, i as int) is None },
        r matches Some((q, u)) ==> i + q + u + 4 <= t@.len(),
{
    let n = t.len();
    assert(t@.len() == n);
    if t[i] != '「' {
        return None;
    }
    let q = run_not(t, i + 1, '」');
    if 2 <= q && q <= 300 && n - i > q + 2 && t[i + q + 2] == '（' {
        let ustart = i + q + 3;
        let u = run_not(t, ustart, '）');
        if 1 <= u && u <= 80 && ustart + u < n {
            return Some((q, u));
        }
    }
    None
}

/// The quotes of a text, over characters.
pub fn extract_quotes_chars(t: &[char]) -> (r: Vec<(Vec<char>, Vec<char>)>)
    ensures
        r@.map_values(|p: (Vec<char>, Vec<char>)| (p.0@, p.1@)) == quotes_from(t@, 0),
{
    let n = t.len();
    let mut out: Vec<(Vec<char>, Vec<char>)> = Vec::new();
    let mut i: usize = 0;
    while i < n
        invariant
            n == t@.len(),
            i <= n,
            out@.map_values(|p: (Vec<char>, Vec<char>)| (p.0@, p.1@)) + quotes_from(t@, i as int) == quotes_from(t@, 0),
        decreases n - i,
    {
        let ghost prev = out@.map_values(|p: (Vec<char>, Vec<char>)| (p.0@, p.1@));
        match quote_at_exec(t, i) {
            Some((q, u)) => {
                let quote = slice_to_vec(t, i + 1, i + 1 + q);
                let (a, b) = trim_span(t, i + q + 3, i + q + 3 + u);
                let unit = slice_to_vec(t, a, b);
                out.push((quote, unit));
                assert(out@.map_values(|p: (Vec<char>, Vec<char>)| (p.0@, p.1@)) + quotes_from(t@, i + q + u + 4)
                    =~= prev + quotes_from(t@, i as int));
                i = i + q + u + 4;
            },
            None => {
                i += 1;
            },
        }
    }
    assert(out@.map_values(|p: (Vec<char>, Vec<char>)| (p.0@, p.1@)) + Seq::<(Seq<char>, Seq<char>)>::empty()
        =~= out@.map_values(|p: (Vec<char>, Vec<char>)| (p.0@, p.1@)));
    out
}

/// All 「quote」（unit） pairs of a text, in order.
pub fn extract_quotes(text: &str) -> (r: Vec<QuoteCite>)
    ensures
        r@.map_values(|c: QuoteCite| cite_view(c)) == quotes_from(text@, 0),
{
    let t = chars_of(text);
    let pairs = extract_quotes_chars(&t);
    let mut out: Vec<QuoteCite> = Vec::new();
    let mut k: usize = 0;
    while k < pairs.len()
        invariant
            k <= pairs@.len(),
            t@ == text@,
            pairs@.map_values(|p: (Vec<char>, Vec<char>)| (p.0@, p.1@)) == quotes_from(t@, 0),
            out@.map_values(|c: QuoteCite| cite_view(c)) == quotes_from(t@, 0).take(k as int),
        decreases pairs@.len() - k,
    {
        let ghost prev = out@.map_values(|c: QuoteCite| cite_view(c));
        out.push(QuoteCite { quote: string_of(&pairs[k].0), unit: string_of(&pairs[k].1) });
        assert(out@.map_values(|c: QuoteCite| cite_view(c)) =~= prev.push((pairs@[k as int].0@, pairs@[k as int].1@)));
        assert(quotes_from(t@, 0).take(k + 1) =~= quotes_from(t@, 0).take(k as int).push(quotes_from(t@, 0)[k as int]));
        k += 1;
    }
    assert(quotes_from(t@, 0).take(pairs@.len() as int) =~= quotes_from(t@, 0));
    out
}


// ---- normalisation ----

/// Quote characters dropped by normalisation.
pub open spec fn is_quote_char(c: char) -> bool {
    c == '「' || c == '」' || c == '『' || c == '』' || c == '"' || c == '\'' || c == '“' || c == '”'
        || c == '‘' || c == '’'
}

/// Full-width punctuation mapped to its ASCII form.
pub open spec fn fold_punct(c: char) -> char {
    if c == '：' || c == '﹕' { ':' }
    else if c == '，' || c == '､' { ',' }
    else if c == '。' { '.' }
    else if c == '？' { '?' }
    else if c == '！' { '!' }
    else if c == '；' { ';' }
    else if c == '（' { '(' }
    else if c == '）' { ')' }
    else if c == '…' { '.' }
    else if c == '—' || c == '―' || c == '–' { '-' }
    else { c }
}

/// Normalisation: drop all whitespace and quote characters, fold common
/// full-width punctuation.
pub open spec fn normalize_spec(s: Seq<char>) -> Seq<char>
    decreases s.len(),
{
    if s.len() == 0 {
        seq![]
    } else {
        let prev = normalize_spec(s.drop_last());
        let c = s.last();
        if is_ws(c) || is_quote_char(c) { prev } else { prev.push(fold_punct(c)) }
    }
}

pub fn normalize_chars(s: &[char]) -> (r: Vec<char>)
    ensures
        r@ == normalize_spec(s@),
{
    let mut out: Vec<char> = Vec::new();
    let mut i: usize = 0;
    while i < s.len()
        invariant
            i <= s@.len(),
            out@ == normalize_spec(s@.take(i as int)),
        decreases s@.len() - i,
    {
        let c = s[i];
        assert(s@.take(i + 1).drop_last() =~= s@.take(i as int));
        let quote = c == '「' || c == '」' || c == '『' || c == '』' || c == '"' || c == '\'' || c == '“'
            || c == '”' || c == '‘' || c == '’';
        if !is_whitespace_char(c) && !quote {
            let m = if c == '：' || c == '﹕' { ':' }
                else if c == '，' || c == '､' { ',' }
                else if c == '。' { '.' }
                else if c == '？' { '?' }
                else if c == '！' { '!' }
                else if c == '；' { ';' }
                else if c == '（' { '(' }
                else if c == '）' { ')' }
                else if c == '…' { '.' }
                else if c == '—' || c == '―' || c == '–' { '-' }
                else { c };
            out.push(m);
        }
        i += 1;
    }
    assert(s@.take(s@.len() as int) =~= s@);
    out
}

/// A text normalised for quote lookup.
pub fn normalize(s: &str) -> (r: String)
    ensures
        r@ == normalize_spec(s@),
{
    let v = chars_of(s);
    string_of(&normalize_chars(&v))
}

// ---- verification ----

pub open spec fn is_seg_placeholder(u: Seq<char>) -> bool {
    u == seq!['S', 'E', 'G']
}

/// Whether a quote (normalised `q`) with unit `unit` is found: in a segment
/// whose label contains the unit, or anywhere in the full text; units still
/// holding the `SEG` placeholder only go by the full text.
pub open spec fn quote_found(q: Seq<char>, unit: Seq<char>, segs: Seq<SegV>, full_norm: Seq<char>) -> bool {
    if is_seg_placeholder(unit) {
        contains_seq(full_norm, q)
    } else {
        (exists|i: int| 0 <= i < segs.len() && #[trigger] contains_seq(segs[i].0, unit)
            && contains_seq(normalize_spec(segs[i].1), q)) || contains_seq(full_norm, q)
    }
}

/// Quotes among the first `k` that fail, without repeats, in order.
pub open spec fn failed_upto(qs: Seq<(Seq<char>, Seq<char>)>, segs: Seq<SegV>, full_norm: Seq<char>, k: int) -> Seq<(Seq<char>, Seq<char>)>
    decreases k,
{
    if k <= 0 {
        seq![]
    } else {
        let prev = failed_upto(qs, segs, full_norm, k - 1);
        let qc = qs[k - 1];
        let q = normalize_spec(qc.0);
        if q.len() == 0 || quote_found(q, qc.1, segs, full_norm) || prev.contains(qc) {
            prev
        } else {
            prev.push(qc)
        }
    }
}

/// The failed quotes of a file.
pub open spec fn verify_spec(text: Seq<char>, segs: Seq<SegV>, full: Seq<char>) -> Seq<(Seq<char>, Seq<char>)> {
    let qs = quotes_from(text, 0);
    failed_upto(qs, segs, normalize_spec(full), qs.len() as int)
}

fn cites_contains(list: &Vec<QuoteCite>, q: &[char], u: &[char]) -> (r: bool)
    ensures
        r == list@.map_values(|c: QuoteCite| cite_view(c)).contains((q@, u@)),
{
    let ghost lv = list@.map_values(|c: QuoteCite| cite_view(c));
    let mut i: usize = 0;
    while i < list.len()
        invariant
            i <= list@.len(),
            lv == list@.map_values(|c: QuoteCite| cite_view(c)),
            forall|k: int| 0 <= k < i ==> lv[k] != (q@, u@),
        decreases list@.len() - i,
    {
        let cq = chars_of(list[i].quote.as_str());
        let cu = chars_of(list[i].unit.as_str());
        if chars_eq(&cq, q) && chars_eq(&cu, u) {
            assert(lv[i as int] == (q@, u@));
            return true;
        }
        i += 1;
    }
    false
}

/// The quotes of `text` that cannot be
/// found in the source (without repeats).
pub fn verify_text(text: &str, segments: &[SourceSegment], full_text: &str) -> (r: Vec<QuoteCite>)
    ensures
        r@.map_values(|c: QuoteCite| cite_view(c)) == verify_spec(text@, segments@.map_values(|s: SourceSegment| s@), full_text@),
{
    let ghost sv = segments@.map_values(|s: SourceSegment| s@);
    let full = chars_of(full_text);
    let full_norm = normalize_chars(&full);
    let mut labels: Vec<Vec<char>> = Vec::new();
    let mut bodies: Vec<Vec<char>> = Vec::new();
    let mut k: usize = 0;
    while k < segments.len()
        invariant
            k <= segments@.len(),
            sv == segments@.map_values(|s: SourceSegment| s@),
            labels@.len() == k && bodies@.len() == k,
            forall|j: int| 0 <= j < k ==> #[trigger] labels@[j]@ == sv[j].0 && bodies@[j]@ == normalize_spec(sv[j].1),
        decreases segments@.len() - k,
    {
        labels.push(chars_of(segments[k].label.as_str()));
        let body = chars_of(segments[k].content.as_str());
        bodies.push(normalize_chars(&body));
        k += 1;
    }
    let qs = extract_quotes(text);
    let ghost qv = quotes_from(text@, 0);
    let seg_word = vec!['S', 'E', 'G'];
    assert(seg_word@ =~= seq!['S', 'E', 'G']);
    let mut failed: Vec<QuoteCite> = Vec::new();
    let mut i: usize = 0;
    while i < qs.len()
        invariant
            i <= qs@.len(),
            sv == segments@.map_values(|s: SourceSegment| s@),
            labels@.len() == sv.len() && bodies@.len() == sv.len(),
            forall|j: int| 0 <= j < sv.len() ==> #[trigger] labels@[j]@ == sv[j].0 && bodies@[j]@ == normalize_spec(sv[j].1),
            qs@.map_values(|c: QuoteCite| cite_view(c)) == qv,
            qv == quotes_from(text@, 0),
            full_norm@ == normalize_spec(full_text@),
            seg_word@ == seq!['S', 'E', 'G'],
            failed@.map_values(|c: QuoteCite| cite_view(c)) == failed_upto(qv, sv, full_norm@, i as int),
        decreases qs@.len() - i,
    {
        let quote = chars_of(qs[i].quote.as_str());
        let unit = chars_of(qs[i].unit.as_str());
        assert(qv[i as int] == (quote@, unit@));
        let q = normalize_chars(&quote);
        if q.len() > 0 {
            let hit = if chars_eq(&unit, &seg_word) {
                contains_chars(&full_norm, &q)
            } else {
                let mut unit_hit = false;
                let mut j: usize = 0;
                while j < labels.len()
                    invariant
                        j <= labels@.len() == bodies@.len() == sv.len(),
                        forall|x: int| 0 <= x < sv.len() ==> #[trigger] labels@[x]@ == sv[x].0 && bodies@[x]@ == normalize_spec(sv[x].1),
                        unit_hit == exists|x: int| 0 <= x < j && #[trigger] contains_seq(sv[x].0, unit@)
                            && contains_seq(normalize_spec(sv[x].1), q@),
                    decreases labels@.len() - j,
                {
                    if !unit_hit && contains_chars(&labels[j], &unit) && contains_chars(&bodies[j], &q) {
                        unit_hit = true;
                    }
                    j += 1;
                }
                unit_hit || contains_chars(&full_norm, &q)
            };
            let ghost prev = failed@.map_values(|c: QuoteCite| cite_view(c));
            if !hit && !cites_contains(&failed, &quote, &unit) {
                failed.push(QuoteCite { quote: string_of(&quote), unit: string_of(&unit) });
                assert(failed@.map_values(|c: QuoteCite| cite_view(c)) =~= prev.push((quote@, unit@)));
            }
        }
        i += 1;
    }
    failed
}

// ---- degradation of failed quotes ----

/// `s.replace(pat, rep)` for a non-empty pattern.
pub open spec fn replace_all(s: Seq<char>, pat: Seq<char>, rep: Seq<char>) -> Seq<char>
    decreases s.len(),
{
    if pat.len() == 0 || s.len() < pat.len() {
        s
    } else if s.take(pat.len() as int) == pat {
        rep + replace_all(s.skip(pat.len() as int), pat, rep)
    } else {
        seq![s[0]] + replace_all(s.skip(1), pat, rep)
    }
}

pub fn replace_chars(s: &[char], pat: &[char], rep: &[char]) -> (r: Vec<char>)
    ensures
        r@ == replace_all(s@, pat@, rep@),
{
    let n = s.len();
    let mut out: Vec<char> = Vec::new();
    let mut i: usize = 0;
    assert(s@.skip(0) =~= s@);
    while i < n
        invariant
            n == s@.len(),
            i <= n,
            out@ + replace_all(s@.skip(i as int), pat@, rep@) == replace_all(s@, pat@, rep@),
        decreases n - i,
    {
        let ghost rest = s@.skip(i as int);
        let ghost prev = out@;
        if pat.len() == 0 || n - i < pat.len() {
            extend_range(&mut out, s, i, n);
            assert(s@.subrange(i as int, n as int) =~= rest);
            assert(out@ + replace_all(s@.skip(n as int), pat@, rep@) =~= prev + replace_all(rest, pat@, rep@));
            i = n;
        } else if matches_at(s, pat, i) {
            assert(rest.take(pat@.len() as int) =~= s@.subrange(i as int, i + pat@.len()));
            extend_all(&mut out, rep);
            assert(rest.skip(pat@.len() as int) =~= s@.skip(i + pat@.len()));
            assert(out@ + replace_all(s@.skip(i + pat@.len()), pat@, rep@) =~= prev + replace_all(rest, pat@, rep@));
            i = i + pat.len();
        } else {
            assert(rest.take(pat@.len() as int) =~= s@.subrange(i as int, i + pat@.len()));
            out.push(s[i]);
            assert(rest.skip(1) =~= s@.skip(i + 1));
            assert(out@ + replace_all(s@.skip(i + 1), pat@, rep@) =~= prev + replace_all(rest, pat@, rep@));
            i += 1;
        }
    }
    assert(s@.skip(n as int) =~= Seq::<char>::empty());
    assert(out@ + Seq::<char>::empty() =~= out@);
    out
}

/// 「quote」（unit）
pub open spec fn marked_quote(q: Seq<char>, u: Seq<char>) -> Seq<char> {
    seq!['「'] + q + seq!['」', '（'] + u + seq!['）']
}

/// The text after degrading the first `k` failed quotes: each
/// 「quote」（unit） becomes the bare quote followed by `note`.
pub open spec fn strip_upto(text: Seq<char>, failed: Seq<(Seq<char>, Seq<char>)>, note: Seq<char>, k: int) -> Seq<char>
    decreases k,
{
    if k <= 0 {
        text
    } else {
        let qc = failed[k - 1];
        replace_all(strip_upto(text, failed, note, k - 1), marked_quote(qc.0, qc.1), qc.0 + note)
    }
}

/// Removes the quote marks of failed
/// quotes, keeping their words with a machine-readable degradation note.
pub fn strip_failed_quotes(text: &str, failed: &[QuoteCite]) -> (r: String)
    ensures
        r@ == strip_upto(text@, failed@.map_values(|c: QuoteCite| cite_view(c)), "（引文未在原文定位，已去除引号）"@, failed@.len() as int),
{
    let note = chars_of("（引文未在原文定位，已去除引号）");
    let mut out = chars_of(text);
    let ghost fv = failed@.map_values(|c: QuoteCite| cite_view(c));
    let mut k: usize = 0;
    while k < failed.len()
        invariant
            k <= failed@.len(),
            fv == failed@.map_values(|c: QuoteCite| cite_view(c)),
            note@ == "（引文未在原文定位，已去除引号）"@,
            out@ == strip_upto(text@, fv, note@, k as int),
        decreases failed@.len() - k,
    {
        let q = chars_of(failed[k].quote.as_str());
        let u = chars_of(failed[k].unit.as_str());
        let mut marked: Vec<char> = Vec::new();
        marked.push('「');
        extend_all(&mut marked, &q);
        marked.push('」');
        marked.push('（');
        extend_all(&mut marked, &u);
        marked.push('）');
        assert(marked@ =~= marked_quote(q@, u@));
        let mut degraded: Vec<char> = Vec::new();
        extend_all(&mut degraded, &q);
        extend_all(&mut degraded, &note);
        assert(degraded@ =~= q@ + note@);
        assert(fv[k as int] == (q@, u@));
        out = replace_chars(&out, &marked, &degraded);
        k += 1;
    }
    string_of(&out)
}


/// Law of quote normalisation: normalising twice gives the same text as
/// normalising once.
pub proof fn law_normalize_idempotent(s: Seq<char>)
    ensures
        normalize_spec(normalize_spec(s)) == normalize_spec(s),
    decreases s.len(),
{
    if s.len() > 0 {
        law_normalize_idempotent(s.drop_last());
        let prev = normalize_spec(s.drop_last());
        let c = s.last();
        if !(is_ws(c) || is_quote_char(c)) {
            let f = fold_punct(c);
            let t = prev.push(f);
            assert(t.drop_last() =~= prev);
            assert(t.last() == f);
            assert(!is_ws(f) && !is_quote_char(f));
            assert(fold_punct(f) == f);
        }
    }
}


/// Law of quote normalisation: the normalised text holds no whitespace and
/// no quote character, and is never longer than the text it came from.
pub proof fn law_normalize_clean(s: Seq<char>)
    ensures
        forall|i: int| 0 <= i < normalize_spec(s).len()
            ==> !is_ws(#[trigger] normalize_spec(s)[i]) && !is_quote_char(normalize_spec(s)[i]),
        normalize_spec(s).len() <= s.len(),
    decreases s.len(),
{
    if s.len() > 0 {
        law_normalize_clean(s.drop_last());
        let prev = normalize_spec(s.drop_last());
        let c = s.last();
        if !(is_ws(c) || is_quote_char(c)) {
            let f = fold_punct(c);
            assert(!is_ws(f) && !is_quote_char(f));
            assert forall|i: int| 0 <= i < prev.push(f).len()
                implies !is_ws(#[trigger] prev.push(f)[i]) && !is_quote_char(prev.push(f)[i]) by {
                if i < prev.len() {
                    assert(prev.push(f)[i] == prev[i]);
                }
            }
        }
    }
}

/// Failed quotes among the first `k`: no (quote, unit) pair twice, and each
/// one cited among those quotes and not found.
proof fn lemma_failed_distinct(qs: Seq<(Seq<char>, Seq<char>)>, segs: Seq<SegV>, full_norm: Seq<char>, k: int)
    requires
        k <= qs.len(),
    ensures
        forall|i: int, j: int| 0 <= i < j < failed_upto(qs, segs, full_norm, k).len()
            ==> #[trigger] failed_upto(qs, segs, full_norm, k)[i] != #[trigger] failed_upto(qs, segs, full_norm, k)[j],
        forall|i: int| 0 <= i < failed_upto(qs, segs, full_norm, k).len() ==> {
            let f = #[trigger] failed_upto(qs, segs, full_norm, k)[i];
            &&& qs.take(k).contains(f)
            &&& normalize_spec(f.0).len() > 0
            &&& !quote_found(normalize_spec(f.0), f.1, segs, full_norm)
        },
    decreases k,
{
    if k > 0 {
        lemma_failed_distinct(qs, segs, full_norm, k - 1);
        let prev = failed_upto(qs, segs, full_norm, k - 1);
        let qc = qs[k - 1];
        assert(qs.take(k) =~= qs.take(k - 1).push(qc));
        assert forall|x: (Seq<char>, Seq<char>)| qs.take(k - 1).contains(x) implies qs.take(k).contains(x) by {
            let w = choose|w: int| 0 <= w < qs.take(k - 1).len() && #[trigger] qs.take(k - 1)[w] == x;
            assert(qs.take(k)[w] == x);
        }
        assert(qs.take(k)[k - 1] == qc);
        let cur = failed_upto(qs, segs, full_norm, k);
        if cur != prev {
            assert(cur == prev.push(qc));
            assert forall|i: int, j: int| 0 <= i < j < cur.len() implies #[trigger] cur[i] != #[trigger] cur[j] by {
                if j == prev.len() {
                    assert(cur[i] == prev[i]);
                    assert(prev.contains(prev[i]));
                }
            }
        }
    }
}

/// Law of quote verification: each failing quote is reported once, even when
/// the card cites it several times; every reported quote is cited in the
/// text, not blank once normalised, and found neither in a segment of its
/// unit nor in the full text.
pub proof fn law_failed_quotes_distinct(text: Seq<char>, segs: Seq<SegV>, full: Seq<char>)
    ensures
        forall|i: int, j: int| 0 <= i < j < verify_spec(text, segs, full).len()
            ==> #[trigger] verify_spec(text, segs, full)[i] != #[trigger] verify_spec(text, segs, full)[j],
        forall|i: int| 0 <= i < verify_spec(text, segs, full).len() ==> {
            let f = #[trigger] verify_spec(text, segs, full)[i];
            &&& quotes_from(text, 0).contains(f)
            &&& normalize_spec(f.0).len() > 0
            &&& !quote_found(normalize_spec(f.0), f.1, segs, normalize_spec(full))
        },
{
    let qs = quotes_from(text, 0);
    lemma_failed_distinct(qs, segs, normalize_spec(full), qs.len() as int);
    assert(qs.take(qs.len() as int) =~= qs);
}
} // verus!
