//! Previews of manuscripts: markdown block and inline marks removed line by
//! line, the first lines joined up to a number of characters.

use vstd::prelude::*;
use crate::llm::lemma_run_len_exact;
use crate::text::{
    chars_of, extend_range, find_occ, first_occ, lemma_first_occ_ge, line_spans, lines, occurs_at,
    matches_at, run_len, lemma_run_len_bound, slice_to_vec, spans_match, string_of, trim, trim_span,
    trim_start,
};

verus! {

pub open spec fn is_block_mark(c: char) -> bool {
    c == '#' || c == '>' || c == '-' || c == '*' || c == '+'
}

pub open spec fn is_ascii_digit(c: char) -> bool {
    '0' <= c <= '9'
}

pub open spec fn ascii_digit_fn() -> spec_fn(char) -> bool {
    |c: char| is_ascii_digit(c)
}

pub proof fn lemma_trim_start_len(s: Seq<char>)
    ensures
        trim_start(s).len() <= s.len(),
        trim_start(s).len() > 0 ==> !crate::text::is_ws(trim_start(s)[0]),
        trim_start(s) == s.skip(s.len() - trim_start(s).len()),
    decreases s.len(),
{
    if s.len() > 0 && crate::text::is_ws(s[0]) {
        lemma_trim_start_len(s.drop_first());
        assert(s.drop_first().skip(s.drop_first().len() - trim_start(s.drop_first()).len()) =~= s.skip(
            s.len() - trim_start(s).len(),
        ));
    } else {
        assert(s.skip(0) =~= s);
    }
}

/// Leading block marks removed: `#`, `>`, `-`, `*`, `+`, and `1. ` style
/// numbers, each after optional whitespace.
pub open spec fn strip_marks(s: Seq<char>) -> Seq<char>
    decreases s.len(),
{
    let t = trim_start(s);
    if t.len() == 0 {
        s
    } else if is_block_mark(t[0]) {
        proof {
            lemma_trim_start_len(s);
        }
        strip_marks(t.skip(1))
    } else if is_ascii_digit(t[0]) {
        let d = run_len(t, 0, ascii_digit_fn()) as int;
        if d + 2 <= t.len() && t[d] == '.' && t[d + 1] == ' ' {
            proof {
                lemma_trim_start_len(s);
            }
            strip_marks(t.skip(d + 2))
        } else {
            s
        }
    } else {
        s
    }
}

/// A line with its markdown block marks removed.
pub open spec fn strip_markdown_line_spec(line: Seq<char>) -> Seq<char> {
    trim(strip_marks(trim(line)))
}

fn strip_marks_span(v: &[char], lo: usize, hi: usize) -> (r: usize)
    requires
        lo <= hi <= v@.len(),
    ensures
        lo <= r <= hi,
        v@.subrange(r as int, hi as int) == strip_marks(v@.subrange(lo as int, hi as int)),
    decreases hi - lo,
{
    let ghost s = v@.subrange(lo as int, hi as int);
    let (a, _b) = trim_span(v, lo, hi);
    let ghost t = v@.subrange(a as int, hi as int);
    proof {
        lemma_trim_start_len(s);
    }
    if a == hi {
        return lo;
    }
    let c = v[a];
    assert(t[0] == c);
    if c == '#' || c == '>' || c == '-' || c == '*' || c == '+' {
        assert(t.skip(1) =~= v@.subrange(a + 1, hi as int));
        return strip_marks_span(v, a + 1, hi);
    }
    if '0' <= c && c <= '9' {
        let mut d = a;
        while d < hi && '0' <= v[d] && v[d] <= '9'
            invariant
                a <= d <= hi <= v@.len(),
                forall|k: int| a <= k < d ==> is_ascii_digit(v@[k]),
            decreases hi - d,
        {
            d += 1;
        }
        proof {
            assert forall|k: int| 0 <= k < d - a implies #[trigger] ascii_digit_fn()(t[k]) by {
                assert(t[k] == v@[a + k]);
            }
            if d < hi {
                assert(t[d - a] == v@[d as int]);
            }
            lemma_run_len_exact(t, ascii_digit_fn(), d - a);
        }
        if hi - d >= 2 && v[d] == '.' && v[d + 1] == ' ' {
            assert(t[d - a] == v@[d as int] && t[d - a + 1] == v@[d + 1]);
            assert(t.skip(d - a + 2) =~= v@.subrange(d + 2, hi as int));
            return strip_marks_span(v, d + 2, hi);
        }
        proof {
            if d - a + 2 <= t.len() {
                assert(t[d - a] == v@[d as int] && t[d - a + 1] == v@[d + 1]);
            }
        }
        return lo;
    }
    lo
}

/// Block marks removed from a line.
pub fn strip_markdown_line(line: &str) -> (r: String)
    ensures
        r@ == strip_markdown_line_spec(line@),
{
    let v = chars_of(line);
    let (a, b) = trim_span(&v, 0, v.len());
    assert(v@.subrange(0, v@.len() as int) =~= v@);
    let c = strip_marks_span(&v, a, b);
    let (x, y) = trim_span(&v, c, b);
    string_of(&slice_to_vec(&v, x, y))
}

pub open spec fn img_open() -> Seq<char> {
    seq!['!', '[']
}

pub open spec fn link_mid() -> Seq<char> {
    seq![']', '(']
}

/// The inline pass from `pos` on: images `![alt](url)` removed, links
/// `[text](url)` reduced to their text (as far as their brackets close).
pub open spec fn inline_from(s: Seq<char>, pos: int) -> Seq<char>
    decreases s.len() - pos,
{
    if pos < 0 || pos > s.len() {
        seq![]
    } else {
        let img = first_occ(s, img_open(), pos);
        let link = first_occ(s, seq!['['], pos);
        let take_img = match (img, link) {
            (Some(i), Some(l)) => i < l,
            (Some(_), None) => true,
            (None, _) => false,
        };
        proof {
            lemma_first_occ_ge(s, img_open(), pos);
            lemma_first_occ_ge(s, seq!['['], pos);
        }
        if take_img {
            let i = img->0;
            proof {
                lemma_first_occ_ge(s, link_mid(), i);
                if first_occ(s, link_mid(), i) is Some {
                    lemma_first_occ_ge(s, seq![')'], first_occ(s, link_mid(), i)->0);
                }
            }
            let next = match first_occ(s, link_mid(), i) {
                Some(j) => match first_occ(s, seq![')'], j) {
                    Some(k) => k + 1,
                    None => i + 2,
                },
                None => i + 2,
            };
            s.subrange(pos, i) + inline_from(s, next)
        } else {
            match link {
                None => s.skip(pos),
                Some(i) => {
                    proof {
                        lemma_first_occ_ge(s, seq![']'], i);
                    }
                    match first_occ(s, seq![']'], i) {
                        None => s.subrange(pos, i) + inline_from(s, i + 1),
                        Some(j) => if occurs_at(s, link_mid(), j) {
                            proof {
                                lemma_first_occ_ge(s, seq![')'], j + 2);
                            }
                            match first_occ(s, seq![')'], j + 2) {
                                Some(k) => s.subrange(pos, i) + s.subrange(i + 1, j) + inline_from(s, k + 1),
                                None => s.subrange(pos, i) + s.subrange(i + 1, j) + inline_from(s, j + 2),
                            }
                        } else {
                            s.subrange(pos, i) + s.subrange(i + 1, j) + inline_from(s, j + 1)
                        },
                    }
                },
            }
        }
    }
}

pub open spec fn not_emphasis(c: char) -> bool {
    c != '*' && c != '`' && c != '~'
}

/// Inline markdown removed: the inline pass, then every
/// `*`, `` ` `` and `~` removed.
pub open spec fn strip_inline_spec(s: Seq<char>) -> Seq<char> {
    inline_from(s, 0).filter(|c: char| not_emphasis(c))
}

fn inline_exec(v: &[char]) -> (r: Vec<char>)
    ensures
        r@ == inline_from(v@, 0),
{
    let img = vec!['!', '['];
    let lb = vec!['['];
    let rb = vec![']'];
    let mid = vec![']', '('];
    let rp = vec![')'];
    assert(img@ =~= img_open());
    assert(lb@ =~= seq!['[']);
    assert(rb@ =~= seq![']']);
    assert(mid@ =~= link_mid());
    assert(rp@ =~= seq![')']);
    let mut out: Vec<char> = Vec::new();
    let mut pos: usize = 0;
    let n = v.len();
    let mut finished = false;
    assert(out@ + inline_from(v@, 0) =~= inline_from(v@, 0));
    while !finished
        invariant
            n == v@.len(),
            pos <= n,
            img@ == img_open(),
            lb@ == seq!['['],
            rb@ == seq![']'],
            mid@ == link_mid(),
            rp@ == seq![')'],
            finished ==> out@ == inline_from(v@, 0),
            !finished ==> out@ + inline_from(v@, pos as int) == inline_from(v@, 0),
        decreases n - pos + (if finished { 0int } else { 1int }),
    {
        let ghost before = out@;
        let io = find_occ(v, &img, pos);
        let lo = find_occ(v, &lb, pos);
        proof {
            lemma_first_occ_ge(v@, img_open(), pos as int);
            lemma_first_occ_ge(v@, seq!['['], pos as int);
        }
        let take_img = match (io, lo) {
            (Some(i), Some(l)) => i < l,
            (Some(_), None) => true,
            (None, _) => false,
        };
        if take_img {
            let i = match io {
                Some(i) => i,
                None => pos,
            };
            extend_range(&mut out, v, pos, i);
            let jo = find_occ(v, &mid, i);
            proof {
                lemma_first_occ_ge(v@, link_mid(), i as int);
            }
            let next = match jo {
                Some(j) => {
                    let ko = find_occ(v, &rp, j);
                    proof {
                        lemma_first_occ_ge(v@, seq![')'], j as int);
                    }
                    match ko {
                        Some(k) => k + 1,
                        None => i + 2,
                    }
                },
                None => i + 2,
            };
            assert(out@ == before + v@.subrange(pos as int, i as int));
            pos = next;
        } else {
            match lo {
                None => {
                    extend_range(&mut out, v, pos, n);
                    assert(v@.subrange(pos as int, n as int) =~= v@.skip(pos as int));
                    finished = true;
                },
                Some(i) => {
                    extend_range(&mut out, v, pos, i);
                    let jo = find_occ(v, &rb, i);
                    proof {
                        lemma_first_occ_ge(v@, seq![']'], i as int);
                    }
                    match jo {
                        None => {
                            pos = i + 1;
                        },
                        Some(j) => {
                            proof {
                                assert(v@.subrange(i as int, i + 1)[0] == v@[i as int]);
                                assert(v@.subrange(j as int, j + 1)[0] == v@[j as int]);
                                assert(v@[i as int] == '[' && v@[j as int] == ']');
                            }
                            extend_range(&mut out, v, i + 1, j);
                            if matches_at(v, &mid, j) {
                                let ko = find_occ(v, &rp, j + 2);
                                proof {
                                    lemma_first_occ_ge(v@, seq![')'], j + 2);
                                }
                                match ko {
                                    Some(k) => {
                                        pos = k + 1;
                                    },
                                    None => {
                                        pos = j + 2;
                                    },
                                }
                            } else {
                                pos = j + 1;
                            }
                        },
                    }
                },
            }
        }
    }
    out
}

/// Inline markdown removed: images removed, links reduced
/// to their text, emphasis, code and strike marks removed.
pub fn strip_inline_markdown(s: &str) -> (r: String)
    ensures
        r@ == strip_inline_spec(s@),
{
    let v = chars_of(s);
    let t = inline_exec(&v);
    let mut out: Vec<char> = Vec::new();
    let mut i: usize = 0;
    while i < t.len()
        invariant
            i <= t@.len(),
            out@ == t@.take(i as int).filter(|c: char| not_emphasis(c)),
        decreases t@.len() - i,
    {
        assert(t@.take(i + 1).drop_last() =~= t@.take(i as int));
        reveal(Seq::filter);
        let c = t[i];
        if c != '*' && c != '`' && c != '~' {
            out.push(c);
        }
        i += 1;
    }
    assert(t@.take(t@.len() as int) =~= t@);
    string_of(&out)
}

/// The preview text of one line.
pub open spec fn line_text(line: Seq<char>, markdown: bool) -> Seq<char> {
    if markdown {
        strip_inline_spec(strip_markdown_line_spec(line))
    } else {
        trim(line)
    }
}

/// The preview built from lines: non-empty line texts joined by a space,
/// stopping once `max` characters are reached.
pub open spec fn excerpt_acc(ls: Seq<Seq<char>>, max: nat, markdown: bool) -> Seq<char>
    decreases ls.len(),
{
    if ls.len() == 0 {
        seq![]
    } else {
        let prev = excerpt_acc(ls.drop_last(), max, markdown);
        let t = line_text(ls.last(), markdown);
        if prev.len() > 0 && prev.len() >= max {
            prev
        } else if t.len() == 0 {
            prev
        } else if prev.len() == 0 {
            t
        } else {
            prev.push(' ') + t
        }
    }
}

/// The preview of a manuscript.
pub open spec fn excerpt_spec(content: Seq<char>, max: nat, markdown: bool) -> Seq<char> {
    let out = excerpt_acc(lines(content), max, markdown);
    if out.len() > max {
        out.take(max as int)
    } else {
        out
    }
}

proof fn lemma_excerpt_stays(ls: Seq<Seq<char>>, max: nat, markdown: bool, k: int)
    requires
        0 <= k <= ls.len(),
        excerpt_acc(ls.take(k), max, markdown).len() > 0,
        excerpt_acc(ls.take(k), max, markdown).len() >= max,
    ensures
        excerpt_acc(ls, max, markdown) == excerpt_acc(ls.take(k), max, markdown),
    decreases ls.len() - k,
{
    if k < ls.len() {
        assert(ls.take(k + 1).drop_last() =~= ls.take(k));
        lemma_excerpt_stays(ls, max, markdown, k + 1);
    } else {
        assert(ls.take(k) =~= ls);
    }
}

/// The preview of a manuscript, line
/// texts (markdown marks removed when `is_markdown`, else just trimmed)
/// joined by spaces, at most `max_chars` characters.
pub fn excerpt_from_content(content: &str, max_chars: usize, is_markdown: bool) -> (r: String)
    ensures
        r@ == excerpt_spec(content@, max_chars as nat, is_markdown),
{
    let v = chars_of(content);
    let spans = line_spans(&v);
    let ghost ls = lines(v@);
    let mut out: Vec<char> = Vec::new();
    let mut k: usize = 0;
    let mut stopped = false;
    while k < spans.len() && !stopped
        invariant
            k <= spans@.len(),
            v@ == content@,
            spans_match(v@, spans@, ls),
            ls == lines(v@),
            out@ == excerpt_acc(ls.take(k as int), max_chars as nat, is_markdown),
            stopped ==> out@.len() > 0 && out@.len() >= max_chars,
            !stopped ==> out@.len() == 0 || out@.len() < max_chars,
        decreases spans@.len() - k,
    {
        let (a, b) = spans[k];
        assert(spans@[k as int].0 <= spans@[k as int].1 <= v@.len());
        let line = string_of(&slice_to_vec(&v, a, b));
        assert(line@ == ls[k as int]);
        let text = if is_markdown {
            strip_inline_markdown(&strip_markdown_line(&line))
        } else {
            crate::text::trimmed(&line)
        };
        let tv = chars_of(&text);
        assert(ls.take(k + 1).drop_last() =~= ls.take(k as int));
        assert(ls.take(k + 1).last() == ls[k as int]);
        if tv.len() > 0 {
            if out.len() > 0 {
                out.push(' ');
            }
            let ghost before = out@;
            crate::text::extend_all(&mut out, &tv);
            if out.len() >= max_chars {
                stopped = true;
            }
        }
        k += 1;
    }
    proof {
        if stopped {
            lemma_excerpt_stays(ls, max_chars as nat, is_markdown, k as int);
        } else {
            assert(ls.take(k as int) =~= ls);
        }
    }
    if out.len() > max_chars {
        let t = slice_to_vec(&out, 0, max_chars);
        assert(t@ =~= out@.take(max_chars as int));
        string_of(&t)
    } else {
        string_of(&out)
    }
}


/// Law of previews: a preview never exceeds its character budget.
pub proof fn law_excerpt_bounded(content: Seq<char>, max: nat, markdown: bool)
    ensures
        excerpt_spec(content, max, markdown).len() <= max,
{
}

} // verus!
