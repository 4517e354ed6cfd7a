//! Character-level text primitives shared by every other module.
//! Strings are viewed as `Seq<char>`; the executable helpers work on
//! `Vec<char>` and convert at the edges.

use vstd::prelude::*;

verus! {

/// The Unicode `White_Space` property: the set `char::is_whitespace`,
/// `str::trim` and `str::split_whitespace` use.
pub open spec fn is_ws(c: char) -> bool {
    let u = c as u32;
    (0x9 <= u && u <= 0xd) || u == 0x20 || u == 0x85 || u == 0xa0 || u == 0x1680
        || (0x2000 <= u && u <= 0x200a) || u == 0x2028 || u == 0x2029 || u == 0x202f
        || u == 0x205f || u == 0x3000
}

pub fn is_whitespace_char(c: char) -> (r: bool)
    ensures
        r == is_ws(c),
{
    let u = c as u32;
    (0x9 <= u && u <= 0xd) || u == 0x20 || u == 0x85 || u == 0xa0 || u == 0x1680
        || (0x2000 <= u && u <= 0x200a) || u == 0x2028 || u == 0x2029 || u == 0x202f
        || u == 0x205f || u == 0x3000
}

/// `str::trim_start`
pub open spec fn trim_start(s: Seq<char>) -> Seq<char>
    decreases s.len(),
{
    if s.len() > 0 && is_ws(s[0]) {
        trim_start(s.drop_first())
    } else {
        s
    }
}

/// `str::trim_end`
pub open spec fn trim_end(s: Seq<char>) -> Seq<char>
    decreases s.len(),
{
    if s.len() > 0 && is_ws(s.last()) {
        trim_end(s.drop_last())
    } else {
        s
    }
}

/// `str::trim`
pub open spec fn trim(s: Seq<char>) -> Seq<char> {
    trim_end(trim_start(s))
}

/// Bounds of the trimmed part of `s[lo..hi]`.
pub fn trim_span(s: &[char], lo: usize, hi: usize) -> (r: (usize, usize))
    requires
        lo <= hi <= s@.len(),
    ensures
        lo <= r.0 <= r.1 <= hi,
        s@.subrange(r.0 as int, r.1 as int) == trim(s@.subrange(lo as int, hi as int)),
        trim_start(s@.subrange(lo as int, hi as int)) == s@.subrange(r.0 as int, hi as int),
{
    let mut i = lo;
    while i < hi && is_whitespace_char(s[i])
        invariant
            lo <= i <= hi <= s@.len(),
            trim_start(s@.subrange(lo as int, hi as int)) == trim_start(s@.subrange(i as int, hi as int)),
        decreases hi - i,
    {
        assert(s@.subrange(i as int, hi as int).drop_first() =~= s@.subrange(i + 1, hi as int));
        i += 1;
    }
    let mut j = hi;
    while j > i && is_whitespace_char(s[j - 1])
        invariant
            lo <= i <= j <= hi <= s@.len(),
            trim_end(s@.subrange(i as int, hi as int)) == trim_end(s@.subrange(i as int, j as int)),
        decreases j - i,
    {
        assert(s@.subrange(i as int, j as int).drop_last() =~= s@.subrange(i as int, j - 1));
        j -= 1;
    }
    (i, j)
}

/// `str::chars().collect()`
pub fn chars_of(s: &str) -> (v: Vec<char>)
    ensures
        v@ == s@,
{
    let mut v: Vec<char> = Vec::new();
    for c in it: s.chars()
        invariant
            v@ == it.seq().take(it.index()),
    {
        assert(it.seq().take(it.index() + 1) =~= v@.push(c));
        v.push(c);
    }
    v
}

/// `String::push`: appends the character `c` at the end of the string (what
/// std documents of it); this is assumed, not proved.
#[verifier::external_body]
fn push_char(s: &mut String, c: char)
    ensures
        final(s)@ == old(s)@.push(c),
{
    s.push(c);
}

/// The `String` holding the characters `v`.
pub fn string_of(v: &[char]) -> (s: String)
    ensures
        s@ == v@,
{
    let mut s = String::new();
    let mut i: usize = 0;
    while i < v.len()
        invariant
            i <= v@.len(),
            s@ == v@.take(i as int),
        decreases v.len() - i,
    {
        assert(v@.take(i + 1) =~= s@.push(v@[i as int]));
        push_char(&mut s, v[i]);
        i += 1;
    }
    assert(v@.take(v@.len() as int) =~= v@);
    s
}


/// Append `src[lo..hi]` to `dst`.
pub fn extend_range(dst: &mut Vec<char>, src: &[char], lo: usize, hi: usize)
    requires
        lo <= hi <= src@.len(),
    ensures
        final(dst)@ == old(dst)@ + src@.subrange(lo as int, hi as int),
{
    let ghost d0 = dst@;
    let mut i = lo;
    while i < hi
        invariant
            lo <= i <= hi <= src@.len(),
            dst@ == d0 + src@.subrange(lo as int, i as int),
        decreases hi - i,
    {
        assert(src@.subrange(lo as int, i + 1) =~= src@.subrange(lo as int, i as int).push(src@[i as int]));
        dst.push(src[i]);
        i += 1;
    }
}

/// Append all of `src` to `dst`.
pub fn extend_all(dst: &mut Vec<char>, src: &[char])
    ensures
        final(dst)@ == old(dst)@ + src@,
{
    extend_range(dst, src, 0, src.len());
    assert(src@.subrange(0, src@.len() as int) =~= src@);
}

/// A copy of `src[lo..hi]`.
pub fn slice_to_vec(src: &[char], lo: usize, hi: usize) -> (r: Vec<char>)
    requires
        lo <= hi <= src@.len(),
    ensures
        r@ == src@.subrange(lo as int, hi as int),
{
    let mut r: Vec<char> = Vec::new();
    extend_range(&mut r, src, lo, hi);
    assert(Seq::<char>::empty() + src@.subrange(lo as int, hi as int) =~= src@.subrange(lo as int, hi as int));
    r
}

/// Position of the first `c` in `s` (`s.len()` when there is none).
pub open spec fn first_index_of(s: Seq<char>, c: char) -> nat
    decreases s.len(),
{
    if s.len() == 0 {
        0
    } else if s[0] == c {
        0
    } else {
        1 + first_index_of(s.drop_first(), c)
    }
}

pub proof fn lemma_first_index_of(s: Seq<char>, c: char, i: int)
    requires
        0 <= i <= s.len(),
        forall|k: int| 0 <= k < i ==> s[k] != c,
        i == s.len() || s[i] == c,
    ensures
        first_index_of(s, c) == i,
    decreases i,
{
    if i > 0 {
        lemma_first_index_of(s.drop_first(), c, i - 1);
    }
}

/// Lines of `s` split at `'\n'` before a trailing `'\r'` is removed:
/// no final empty line when `s` ends with a newline.
pub open spec fn raw_lines(s: Seq<char>) -> Seq<Seq<char>>
    decreases s.len(),
{
    if s.len() == 0 {
        seq![]
    } else {
        let i = first_index_of(s, '\n');
        if i >= s.len() {
            seq![s]
        } else {
            seq![s.take(i as int)] + raw_lines(s.skip(i + 1 as int))
        }
    }
}

pub open spec fn strip_cr(l: Seq<char>) -> Seq<char> {
    if l.len() > 0 && l.last() == '\r' {
        l.drop_last()
    } else {
        l
    }
}

/// `str::lines`
pub open spec fn lines(s: Seq<char>) -> Seq<Seq<char>> {
    raw_lines(s).map_values(|l: Seq<char>| strip_cr(l))
}

/// Spans `(start, end)` of the lines of `s`, in order: `s[start..end]` is
/// the line, with its trailing `'\r'` removed.
pub open spec fn spans_match(s: Seq<char>, spans: Seq<(usize, usize)>, ls: Seq<Seq<char>>) -> bool {
    &&& spans.len() == ls.len()
    &&& forall|k: int|
        0 <= k < spans.len() ==> {
            &&& #[trigger] spans[k].0 <= spans[k].1 <= s.len()
            &&& s.subrange(spans[k].0 as int, spans[k].1 as int) == ls[k]
        }
}

/// Offset of the first character of line `k` of `s`.
pub open spec fn line_start(s: Seq<char>, k: nat) -> nat
    decreases k,
{
    if k == 0 {
        0
    } else {
        let p = line_start(s, (k - 1) as nat);
        p + first_index_of(s.skip(p as int), '\n') + 1
    }
}

pub fn line_spans(s: &[char]) -> (r: Vec<(usize, usize)>)
    ensures
        spans_match(s@, r@, lines(s@)),
        forall|k: int| 0 <= k < r@.len() ==> #[trigger] r@[k].0 == line_start(s@, k as nat),
        forall|j: int, k: int| 0 <= j < k < r@.len() ==> r@[j].0 < r@[k].0,
{
    let mut r: Vec<(usize, usize)> = Vec::new();
    let mut p: usize = 0;
    let ghost mut done: Seq<Seq<char>> = seq![];
    let n = s.len();
    assert(s@.skip(0) =~= s@);
    assert(done + raw_lines(s@) =~= raw_lines(s@));
    while p < n
        invariant
            n == s@.len(),
            p <= n,
            raw_lines(s@) == done + raw_lines(s@.skip(p as int)),
            spans_match(s@, r@, done.map_values(|l: Seq<char>| strip_cr(l))),
            p == line_start(s@, r@.len() as nat) || p == n,
            r@.len() > 0 ==> r@.last().0 < p,
            forall|k: int| 0 <= k < r@.len() ==> #[trigger] r@[k].0 == line_start(s@, k as nat),
            forall|j: int, k: int| 0 <= j < k < r@.len() ==> r@[j].0 < r@[k].0,
        decreases n - p,
    {
        let ghost rest = s@.skip(p as int);
        let mut q = p;
        while q < n && s[q] != '\n'
            invariant
                p <= q <= n,
                n == s@.len(),
                forall|k: int| p <= k < q ==> s@[k] != '\n',
            decreases n - q,
        {
            q += 1;
        }
        proof {
            lemma_first_index_of(rest, '\n', q - p);
        }
        let mut e = q;
        if e > p && s[e - 1] == '\r' {
            e -= 1;
        }
        let ghost line = rest.take(q - p);
        assert(line =~= s@.subrange(p as int, q as int));
        assert(strip_cr(line) =~= s@.subrange(p as int, e as int));
        r.push((p, e));
        proof {
            let old_done = done;
            done = done.push(line);
            if q >= n {
                assert(raw_lines(rest) == seq![rest]);
                assert(rest =~= line);
                assert(s@.skip(n as int) =~= Seq::<char>::empty());
            } else {
                assert(rest.skip(q - p + 1) =~= s@.skip(q + 1));
            }
            assert(done.map_values(|l: Seq<char>| strip_cr(l)) =~= old_done.map_values(|l: Seq<char>| strip_cr(l)).push(strip_cr(line)));
        }
        if q >= n {
            p = n;
        } else {
            p = q + 1;
        }
    }
    proof {
        assert(s@.skip(p as int) =~= Seq::<char>::empty());
        assert(done + Seq::<Seq<char>>::empty() =~= done);
    }
    r
}


pub open spec fn digit_char(d: nat) -> char {
    if d == 0 { '0' } else if d == 1 { '1' } else if d == 2 { '2' } else if d == 3 { '3' }
    else if d == 4 { '4' } else if d == 5 { '5' } else if d == 6 { '6' } else if d == 7 { '7' }
    else if d == 8 { '8' } else { '9' }
}

/// Decimal representation of `n` (`n.to_string()`).
pub open spec fn decimal(n: nat) -> Seq<char>
    decreases n,
{
    if n < 10 {
        seq![digit_char(n)]
    } else {
        decimal(n / 10).push(digit_char(n % 10))
    }
}

fn digit_to_char(d: u64) -> (c: char)
    requires
        d < 10,
    ensures
        c == digit_char(d as nat),
{
    if d == 0 { '0' } else if d == 1 { '1' } else if d == 2 { '2' } else if d == 3 { '3' }
    else if d == 4 { '4' } else if d == 5 { '5' } else if d == 6 { '6' } else if d == 7 { '7' }
    else if d == 8 { '8' } else { '9' }
}

/// Append the decimal digits of `n` to `dst`.
pub fn push_decimal(dst: &mut Vec<char>, n: u64)
    ensures
        final(dst)@ == old(dst)@ + decimal(n as nat),
    decreases n,
{
    if n < 10 {
        dst.push(digit_to_char(n));
        assert(old(dst)@.push(digit_char(n as nat)) =~= old(dst)@ + decimal(n as nat));
    } else {
        push_decimal(dst, n / 10);
        dst.push(digit_to_char(n % 10));
        assert(old(dst)@ + decimal((n / 10) as nat) + seq![digit_char((n % 10) as nat)]
            =~= old(dst)@ + decimal(n as nat));
    }
}

/// `t` occurs in `s` at position `i`.
pub open spec fn occurs_at(s: Seq<char>, t: Seq<char>, i: int) -> bool {
    0 <= i && i + t.len() <= s.len() && s.subrange(i, i + t.len()) == t
}

/// `str::contains` for a string pattern.
pub open spec fn contains_seq(s: Seq<char>, t: Seq<char>) -> bool {
    exists|i: int| occurs_at(s, t, i)
}

pub open spec fn starts_with(s: Seq<char>, t: Seq<char>) -> bool {
    occurs_at(s, t, 0)
}

pub open spec fn ends_with(s: Seq<char>, t: Seq<char>) -> bool {
    occurs_at(s, t, s.len() - t.len())
}

pub fn matches_at(s: &[char], t: &[char], i: usize) -> (r: bool)
    ensures
        r == occurs_at(s@, t@, i as int),
{
    if i > s.len() || t.len() > s.len() - i {
        return false;
    }
    let mut k: usize = 0;
    while k < t.len()
        invariant
            i + t@.len() <= s@.len(),
            s@.len() == s.len(),
            k <= t@.len(),
            forall|m: int| 0 <= m < k ==> s@[i + m] == t@[m],
        decreases t.len() - k,
    {
        if s[i + k] != t[k] {
            assert(s@.subrange(i as int, i + t@.len())[k as int] != t@[k as int]);
            return false;
        }
        k += 1;
    }
    assert(s@.subrange(i as int, i + t@.len()) =~= t@);
    true
}

/// Leftmost occurrence of `t` in `s` at or after `from`.
pub fn find_from(s: &[char], t: &[char], from: usize) -> (r: Option<usize>)
    ensures
        match r {
            Some(i) => from <= i && occurs_at(s@, t@, i as int)
                && forall|j: int| from <= j < i ==> !occurs_at(s@, t@, j),
            None => forall|j: int| from <= j ==> !occurs_at(s@, t@, j),
        },
{
    if t.len() > s.len() {
        return None;
    }
    let last = s.len() - t.len();
    let mut i = from;
    if i > last {
        return None;
    }
    loop
        invariant
            last + t@.len() == s@.len(),
            from <= i <= last,
            forall|j: int| from <= j < i ==> !occurs_at(s@, t@, j),
        decreases last - i,
    {
        if matches_at(s, t, i) {
            return Some(i);
        }
        if i == last {
            return None;
        }
        i += 1;
    }
}

pub fn contains_chars(s: &[char], t: &[char]) -> (r: bool)
    ensures
        r == contains_seq(s@, t@),
{
    match find_from(s, t, 0) {
        Some(i) => true,
        None => {
            assert forall|j: int| !occurs_at(s@, t@, j) by {
                if j < 0 {
                }
            }
            false
        },
    }
}

/// UTF-8 width of a character.
pub open spec fn utf8_width(c: char) -> nat {
    let u = c as u32;
    if u < 0x80 { 1 } else if u < 0x800 { 2 } else if u < 0x10000 { 3 } else { 4 }
}

/// UTF-8 byte length of `s` (`str::len`).
pub open spec fn byte_len(s: Seq<char>) -> nat
    decreases s.len(),
{
    if s.len() == 0 {
        0
    } else {
        byte_len(s.drop_last()) + utf8_width(s.last())
    }
}

pub fn utf8_width_of(c: char) -> (w: usize)
    ensures
        w == utf8_width(c),
{
    let u = c as u32;
    if u < 0x80 { 1 } else if u < 0x800 { 2 } else if u < 0x10000 { 3 } else { 4 }
}

/// Whether `s[lo..hi]` takes at least `k` bytes in UTF-8.
pub fn byte_len_at_least(s: &[char], lo: usize, hi: usize, k: usize) -> (r: bool)
    requires
        lo <= hi <= s@.len(),
        k < usize::MAX - 8,
    ensures
        r == (byte_len(s@.subrange(lo as int, hi as int)) >= k),
{
    if k == 0 {
        return true;
    }
    let mut sum: usize = 0;
    let mut i = lo;
    assert(s@.subrange(lo as int, lo as int) =~= Seq::<char>::empty());
    while i < hi
        invariant
            lo <= i <= hi <= s@.len(),
            k < usize::MAX - 8,
            sum == byte_len(s@.subrange(lo as int, i as int)),
            sum < k,
        decreases hi - i,
    {
        assert(s@.subrange(lo as int, i + 1).drop_last() =~= s@.subrange(lo as int, i as int));
        sum = sum + utf8_width_of(s[i]);
        i += 1;
        if sum >= k {
            proof {
                lemma_byte_len_mono(s@.subrange(lo as int, hi as int), (i - lo) as int);
                assert(s@.subrange(lo as int, hi as int).take((i - lo) as int) =~= s@.subrange(lo as int, i as int));
            }
            return true;
        }
    }
    false
}

pub proof fn lemma_byte_len_mono(s: Seq<char>, j: int)
    requires
        0 <= j <= s.len(),
    ensures
        byte_len(s.take(j)) <= byte_len(s),
    decreases s.len() - j,
{
    if j < s.len() {
        lemma_byte_len_mono(s, j + 1);
        assert(s.take(j + 1).drop_last() =~= s.take(j));
    } else {
        assert(s.take(j) =~= s);
    }
}


/// `pieces.join(sep)`
pub open spec fn join(pieces: Seq<Seq<char>>, sep: Seq<char>) -> Seq<char>
    decreases pieces.len(),
{
    if pieces.len() == 0 {
        seq![]
    } else if pieces.len() == 1 {
        pieces[0]
    } else {
        join(pieces.drop_last(), sep) + sep + pieces.last()
    }
}

/// Number of consecutive characters of `s` from `from` on that satisfy `p`.
pub open spec fn run_len(s: Seq<char>, from: int, p: spec_fn(char) -> bool) -> nat
    decreases s.len() - from,
{
    if 0 <= from < s.len() && p(s[from]) {
        1 + run_len(s, from + 1, p)
    } else {
        0
    }
}

pub proof fn lemma_run_len_bound(s: Seq<char>, from: int, p: spec_fn(char) -> bool)
    requires
        0 <= from <= s.len(),
    ensures
        from + run_len(s, from, p) <= s.len(),
        forall|k: int| from <= k < from + run_len(s, from, p) ==> p(#[trigger] s[k]),
        from + run_len(s, from, p) < s.len() ==> !p(s[from + run_len(s, from, p)]),
    decreases s.len() - from,
{
    if from < s.len() && p(s[from]) {
        lemma_run_len_bound(s, from + 1, p);
    }
}

/// Largest `k` in `[lo, hi)` with `s[k] == c`.
pub open spec fn last_index_in(s: Seq<char>, lo: int, hi: int, c: char) -> Option<int>
    decreases hi - lo,
{
    if hi <= lo {
        None
    } else if s[hi - 1] == c {
        Some(hi - 1)
    } else {
        last_index_in(s, lo, hi - 1, c)
    }
}

pub fn find_last_in(s: &[char], lo: usize, hi: usize, c: char) -> (r: Option<usize>)
    requires
        lo <= hi <= s@.len(),
    ensures
        match r {
            Some(k) => last_index_in(s@, lo as int, hi as int, c) == Some(k as int),
            None => last_index_in(s@, lo as int, hi as int, c) is None,
        },
{
    let mut j = hi;
    while j > lo
        invariant
            lo <= j <= hi <= s@.len(),
            last_index_in(s@, lo as int, hi as int, c) == last_index_in(s@, lo as int, j as int, c),
        decreases j - lo,
    {
        if s[j - 1] == c {
            return Some(j - 1);
        }
        j -= 1;
    }
    None
}


pub fn chars_eq(a: &[char], b: &[char]) -> (r: bool)
    ensures
        r == (a@ == b@),
{
    if a.len() != b.len() {
        return false;
    }
    let mut i: usize = 0;
    while i < a.len()
        invariant
            i <= a@.len() == b@.len(),
            forall|k: int| 0 <= k < i ==> a@[k] == b@[k],
        decreases a@.len() - i,
    {
        if a[i] != b[i] {
            return false;
        }
        i += 1;
    }
    assert(a@ =~= b@);
    true
}

/// The character sequences held by a vector of character vectors.
pub open spec fn seqs_view(v: Seq<Vec<char>>) -> Seq<Seq<char>> {
    v.map_values(|x: Vec<char>| x@)
}

pub fn contains_chars_vec(list: &Vec<Vec<char>>, x: &[char]) -> (r: bool)
    ensures
        r == seqs_view(list@).contains(x@),
{
    let mut i: usize = 0;
    while i < list.len()
        invariant
            i <= list@.len(),
            forall|k: int| 0 <= k < i ==> list@[k]@ != x@,
        decreases list@.len() - i,
    {
        if chars_eq(&list[i], x) {
            assert(seqs_view(list@)[i as int] == x@);
            return true;
        }
        i += 1;
    }
    assert(!seqs_view(list@).contains(x@)) by {
        if seqs_view(list@).contains(x@) {
            let k = choose|k: int| 0 <= k < seqs_view(list@).len() && seqs_view(list@)[k] == x@;
            assert(list@[k]@ == x@);
        }
    }
    false
}

/// `String`s of a vector of character vectors.
pub fn strings_of(v: &Vec<Vec<char>>) -> (r: Vec<String>)
    ensures
        r@.map_values(|s: String| s@) == seqs_view(v@),
{
    let mut r: Vec<String> = Vec::new();
    let mut i: usize = 0;
    while i < v.len()
        invariant
            i <= v@.len(),
            r@.map_values(|s: String| s@) == seqs_view(v@).take(i as int),
        decreases v@.len() - i,
    {
        let s = string_of(&v[i]);
        let ghost prev = r@;
        r.push(s);
        assert(r@.map_values(|s: String| s@) =~= prev.map_values(|s: String| s@).push(v@[i as int]@));
        assert(seqs_view(v@).take(i + 1) =~= seqs_view(v@).take(i as int).push(v@[i as int]@));
        i += 1;
    }
    assert(seqs_view(v@).take(v@.len() as int) =~= seqs_view(v@));
    r
}


/// End of `trim_end(s[lo..hi])`.
pub fn trim_end_span(s: &[char], lo: usize, hi: usize) -> (r: usize)
    requires
        lo <= hi <= s@.len(),
    ensures
        lo <= r <= hi,
        s@.subrange(lo as int, r as int) == trim_end(s@.subrange(lo as int, hi as int)),
{
    let mut j = hi;
    while j > lo && is_whitespace_char(s[j - 1])
        invariant
            lo <= j <= hi <= s@.len(),
            trim_end(s@.subrange(lo as int, hi as int)) == trim_end(s@.subrange(lo as int, j as int)),
        decreases j - lo,
    {
        assert(s@.subrange(lo as int, j as int).drop_last() =~= s@.subrange(lo as int, j - 1));
        j -= 1;
    }
    j
}

/// `s` with every trailing `c` removed (`str::trim_end_matches(c)`).
pub open spec fn strip_trailing(s: Seq<char>, c: char) -> Seq<char>
    decreases s.len(),
{
    if s.len() > 0 && s.last() == c {
        strip_trailing(s.drop_last(), c)
    } else {
        s
    }
}

/// End of `strip_trailing(s[lo..hi], c)`.
pub fn strip_trailing_span(s: &[char], lo: usize, hi: usize, c: char) -> (r: usize)
    requires
        lo <= hi <= s@.len(),
    ensures
        lo <= r <= hi,
        s@.subrange(lo as int, r as int) == strip_trailing(s@.subrange(lo as int, hi as int), c),
{
    let mut j = hi;
    while j > lo && s[j - 1] == c
        invariant
            lo <= j <= hi <= s@.len(),
            strip_trailing(s@.subrange(lo as int, hi as int), c) == strip_trailing(s@.subrange(lo as int, j as int), c),
        decreases j - lo,
    {
        assert(s@.subrange(lo as int, j as int).drop_last() =~= s@.subrange(lo as int, j - 1));
        j -= 1;
    }
    j
}

/// Whether two strings are equal.
pub fn str_eq(a: &str, b: &str) -> (r: bool)
    ensures
        r == (a@ == b@),
{
    let x = chars_of(a);
    let y = chars_of(b);
    chars_eq(&x, &y)
}

/// Whether `s[lo..hi]` equals `lit`.
pub fn span_eq(s: &[char], lo: usize, hi: usize, lit: &str) -> (r: bool)
    requires
        lo <= hi <= s@.len(),
    ensures
        r == (s@.subrange(lo as int, hi as int) == lit@),
{
    let t = slice_to_vec(s, lo, hi);
    let l = chars_of(lit);
    chars_eq(&t, &l)
}

/// The trimmed string.
pub fn trimmed(s: &str) -> (r: String)
    ensures
        r@ == trim(s@),
{
    let v = chars_of(s);
    let (a, b) = trim_span(&v, 0, v.len());
    assert(v@.subrange(0, v@.len() as int) =~= v@);
    string_of(&slice_to_vec(&v, a, b))
}

/// Whether the trimmed string is empty (`s.trim().is_empty()`).
pub fn is_blank(s: &str) -> (r: bool)
    ensures
        r == (trim(s@).len() == 0),
{
    let v = chars_of(s);
    let (a, b) = trim_span(&v, 0, v.len());
    assert(v@.subrange(0, v@.len() as int) =~= v@);
    a == b
}

/// Append the characters of `s` to `dst`.
pub fn push_str_chars(dst: &mut Vec<char>, s: &str)
    ensures
        final(dst)@ == old(dst)@ + s@,
{
    let v = chars_of(s);
    extend_all(dst, &v);
}

/// The first occurrence of `t` in `s` at or after `from`.
pub open spec fn first_occ(s: Seq<char>, t: Seq<char>, from: int) -> Option<int>
    decreases s.len() - from,
{
    if from < 0 || from + t.len() > s.len() {
        None
    } else if occurs_at(s, t, from) {
        Some(from)
    } else if from >= s.len() {
        None
    } else {
        first_occ(s, t, from + 1)
    }
}

pub proof fn lemma_first_occ_ge(s: Seq<char>, t: Seq<char>, from: int)
    ensures
        first_occ(s, t, from) matches Some(i) ==> from <= i && occurs_at(s, t, i),
    decreases s.len() - from,
{
    if !(from < 0 || from + t.len() > s.len()) && !occurs_at(s, t, from) && from < s.len() {
        lemma_first_occ_ge(s, t, from + 1);
    }
}

pub proof fn lemma_first_occ_found(s: Seq<char>, t: Seq<char>, from: int, i: int)
    requires
        0 <= from <= i,
        occurs_at(s, t, i),
        forall|j: int| from <= j < i ==> !occurs_at(s, t, j),
    ensures
        first_occ(s, t, from) == Some(i),
    decreases i - from,
{
    if from < i {
        lemma_first_occ_found(s, t, from + 1, i);
    }
}

pub proof fn lemma_first_occ_none(s: Seq<char>, t: Seq<char>, from: int)
    requires
        0 <= from,
        forall|j: int| from <= j ==> !occurs_at(s, t, j),
    ensures
        first_occ(s, t, from) is None,
    decreases s.len() - from,
{
    if from + t.len() <= s.len() && from < s.len() {
        lemma_first_occ_none(s, t, from + 1);
    }
}

pub fn find_occ(s: &[char], t: &[char], from: usize) -> (r: Option<usize>)
    ensures
        match r {
            Some(i) => first_occ(s@, t@, from as int) == Some(i as int),
            None => first_occ(s@, t@, from as int) is None,
        },
{
    let r = find_from(s, t, from);
    proof {
        match r {
            Some(i) => lemma_first_occ_found(s@, t@, from as int, i as int),
            None => lemma_first_occ_none(s@, t@, from as int),
        }
    }
    r
}


pub proof fn lemma_join_step(pieces: Seq<Seq<char>>, sep: Seq<char>, i: int)
    requires
        0 <= i < pieces.len(),
    ensures
        join(pieces.take(i + 1), sep) == (if i == 0 {
            pieces[0]
        } else {
            join(pieces.take(i), sep) + sep + pieces[i]
        }),
{
    assert(pieces.take(i + 1).drop_last() =~= pieces.take(i));
    assert(pieces.take(i + 1).last() == pieces[i]);
}

/// `pieces.join(sep)`
pub fn join_pieces(pieces: &Vec<Vec<char>>, sep: &str) -> (r: Vec<char>)
    ensures
        r@ == join(seqs_view(pieces@), sep@),
{
    let sv = chars_of(sep);
    let ghost ps = seqs_view(pieces@);
    let mut out: Vec<char> = Vec::new();
    let mut i: usize = 0;
    while i < pieces.len()
        invariant
            i <= pieces@.len(),
            sv@ == sep@,
            ps == seqs_view(pieces@),
            out@ == join(ps.take(i as int), sep@),
        decreases pieces@.len() - i,
    {
        proof {
            lemma_join_step(ps, sep@, i as int);
        }
        if i > 0 {
            extend_all(&mut out, &sv);
        }
        extend_all(&mut out, &pieces[i]);
        i += 1;
    }
    assert(ps.take(ps.len() as int) =~= ps);
    out
}

pub proof fn lemma_trim_len(s: Seq<char>)
    ensures
        trim_start(s).len() <= s.len(),
        trim_end(s).len() <= s.len(),
        trim(s).len() <= s.len(),
{
    lemma_trim_start_len_le(s);
    lemma_trim_end_len_le(s);
    lemma_trim_end_len_le(trim_start(s));
}

proof fn lemma_trim_start_len_le(s: Seq<char>)
    ensures
        trim_start(s).len() <= s.len(),
    decreases s.len(),
{
    if s.len() > 0 && is_ws(s[0]) {
        lemma_trim_start_len_le(s.drop_first());
    }
}

proof fn lemma_trim_end_len_le(s: Seq<char>)
    ensures
        trim_end(s).len() <= s.len(),
    decreases s.len(),
{
    if s.len() > 0 && is_ws(s.last()) {
        lemma_trim_end_len_le(s.drop_last());
    }
}

pub proof fn lemma_decimal_len(n: nat)
    ensures
        decimal(n).len() >= 1,
        n >= 10 ==> decimal(n).len() >= 2,
    decreases n,
{
    if n >= 10 {
        lemma_decimal_len(n / 10);
    }
}

/// Different numbers have different decimal representations.
pub proof fn lemma_decimal_injective(a: nat, b: nat)
    requires
        decimal(a) == decimal(b),
    ensures
        a == b,
    decreases a + b,
{
    lemma_decimal_len(a);
    lemma_decimal_len(b);
    if a >= 10 && b >= 10 {
        let da = decimal(a);
        let db = decimal(b);
        assert(da.last() == digit_char(a % 10));
        assert(db.last() == digit_char(b % 10));
        assert(da.drop_last() =~= decimal(a / 10));
        assert(db.drop_last() =~= decimal(b / 10));
        lemma_decimal_injective(a / 10, b / 10);
    } else if a < 10 && b < 10 {
        assert(decimal(a)[0] == digit_char(a));
        assert(decimal(b)[0] == digit_char(b));
    }
}
} // verus!
