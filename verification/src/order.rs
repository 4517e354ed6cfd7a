//! Orders of listed items: by an integer key (newest first, by sequence
//! number) and folder listings (folders first, then by name). Both are
//! stable: items that compare equal keep their order. Each returns the
//! positions of the items in their new order.

use vstd::prelude::*;
use crate::text::chars_of;

verus! {

// ---- by key ----

/// Item `a` comes before item `b` when ordered by `keys` (largest first
/// when `desc`), equal keys in their original order.
pub open spec fn key_before(keys: Seq<u64>, desc: bool, a: int, b: int) -> bool {
    if keys[a] == keys[b] {
        a < b
    } else if desc {
        keys[a] > keys[b]
    } else {
        keys[a] < keys[b]
    }
}

/// `r` lists the positions `0..n` in an order where each comes before the next by `before`.
pub open spec fn is_order_of(n: int, r: Seq<usize>, before: spec_fn(int, int) -> bool) -> bool {
    &&& r.len() == n
    &&& forall|k: int| 0 <= k < r.len() ==> #[trigger] r[k] < n
    &&& forall|j: int, k: int| 0 <= j < k < r.len() ==> before(#[trigger] r[j] as int, #[trigger] r[k] as int)
}

pub open spec fn key_rel(keys: Seq<u64>, desc: bool) -> spec_fn(int, int) -> bool {
    |a: int, b: int| key_before(keys, desc, a, b)
}

/// Inserting position `i` (larger than all of `r`) after the positions that
/// come before it keeps `r` ordered.
proof fn lemma_insert_ordered(r: Seq<usize>, i: int, p: int, before: spec_fn(int, int) -> bool)
    requires
        0 <= p <= r.len(),
        forall|k: int| 0 <= k < r.len() ==> #[trigger] r[k] < i,
        forall|j: int, k: int| 0 <= j < k < r.len() ==> before(#[trigger] r[j] as int, #[trigger] r[k] as int),
        forall|q: int| 0 <= q < p ==> before(#[trigger] r[q] as int, i),
        forall|q: int| p <= q < r.len() ==> before(i, #[trigger] r[q] as int),
        0 <= i <= usize::MAX,
    ensures
        forall|j: int, k: int| 0 <= j < k < r.len() + 1 ==> before(
            #[trigger] r.insert(p, i as usize)[j] as int,
            #[trigger] r.insert(p, i as usize)[k] as int,
        ),
{
    let s = r.insert(p, i as usize);
    assert forall|j: int, k: int| 0 <= j < k < r.len() + 1 implies before(#[trigger] s[j] as int, #[trigger] s[k] as int) by {
        if k < p {
            assert(s[j] == r[j] && s[k] == r[k]);
        } else if k == p {
            assert(s[j] == r[j] && s[k] == i as usize);
        } else if j < p {
            assert(s[j] == r[j] && s[k] == r[k - 1]);
        } else if j == p {
            assert(s[j] == i as usize && s[k] == r[k - 1]);
        } else {
            assert(s[j] == r[j - 1] && s[k] == r[k - 1]);
        }
    }
}

fn key_before_exec(keys: &[u64], desc: bool, a: usize, b: usize) -> (r: bool)
    requires
        a < keys@.len(),
        b < keys@.len(),
    ensures
        r == key_before(keys@, desc, a as int, b as int),
{
    if keys[a] == keys[b] {
        a < b
    } else if desc {
        keys[a] > keys[b]
    } else {
        keys[a] < keys[b]
    }
}

/// The positions of `keys` in stable key order (largest first when `desc`).
pub fn key_order(keys: &[u64], desc: bool) -> (r: Vec<usize>)
    ensures
        is_order_of(keys@.len() as int, r@, key_rel(keys@, desc)),
{
    let ghost before = key_rel(keys@, desc);
    let mut r: Vec<usize> = Vec::new();
    let mut i: usize = 0;
    while i < keys.len()
        invariant
            i <= keys@.len(),
            before == key_rel(keys@, desc),
            r@.len() == i,
            forall|k: int| 0 <= k < r@.len() ==> #[trigger] r@[k] < i,
            forall|j: int, k: int| 0 <= j < k < r@.len() ==> before(#[trigger] r@[j] as int, #[trigger] r@[k] as int),
        decreases keys@.len() - i,
    {
        let mut p: usize = 0;
        let mut go = true;
        while go && p < r.len()
            invariant
                p <= r@.len(),
                i < keys@.len(),
                r@.len() == i,
                forall|k: int| 0 <= k < r@.len() ==> #[trigger] r@[k] < i,
                forall|q: int| 0 <= q < p ==> key_before(keys@, desc, #[trigger] r@[q] as int, i as int),
                !go ==> p < r@.len() && !key_before(keys@, desc, r@[p as int] as int, i as int),
            decreases r@.len() - p + (if go { 1int } else { 0int }),
        {
            if key_before_exec(keys, desc, r[p], i) {
                p = p + 1;
            } else {
                go = false;
            }
        }
        proof {
            assert forall|q: int| p <= q < r@.len() implies before(i as int, #[trigger] r@[q] as int) by {
                if key_before(keys@, desc, r@[q] as int, i as int) {
                    if q > p {
                        assert(before(r@[p as int] as int, r@[q] as int));
                    }
                }
            }
            assert forall|q: int| 0 <= q < p implies before(#[trigger] r@[q] as int, i as int) by {}
            lemma_insert_ordered(r@, i as int, p as int, before);
        }
        r.insert(p, i);
        i = i + 1;
    }
    r
}

// ---- folder listings ----

/// Lexicographic order of character sequences (the order of `str`).
pub open spec fn lex_lt(x: Seq<char>, y: Seq<char>) -> bool
    decreases x.len(),
{
    if x.len() == 0 {
        y.len() > 0
    } else if y.len() == 0 {
        false
    } else if x[0] != y[0] {
        x[0] < y[0]
    } else {
        lex_lt(x.drop_first(), y.drop_first())
    }
}

proof fn lemma_lex_total(x: Seq<char>, y: Seq<char>)
    ensures
        !lex_lt(x, x),
        x != y ==> lex_lt(x, y) || lex_lt(y, x),
        !(lex_lt(x, y) && lex_lt(y, x)),
    decreases x.len(),
{
    if x.len() > 0 {
        lemma_lex_total(x.drop_first(), x.drop_first());
        if y.len() > 0 {
            lemma_lex_total(x.drop_first(), y.drop_first());
            if x[0] == y[0] && x.drop_first() == y.drop_first() {
                assert(x =~= seq![x[0]] + x.drop_first());
                assert(y =~= seq![y[0]] + y.drop_first());
            }
        }
    } else if y.len() == 0 {
        assert(x =~= y);
    }
}

proof fn lemma_lex_trans(x: Seq<char>, y: Seq<char>, z: Seq<char>)
    requires
        lex_lt(x, y),
        lex_lt(y, z),
    ensures
        lex_lt(x, z),
    decreases x.len(),
{
    if x.len() > 0 && y.len() > 0 && z.len() > 0 && x[0] == y[0] && y[0] == z[0] {
        lemma_lex_trans(x.drop_first(), y.drop_first(), z.drop_first());
    }
}

/// Entry `a` is listed before entry `b`: folders before files, then by name,
/// equal entries in their original order.
pub open spec fn listing_before(names: Seq<Seq<char>>, dirs: Seq<bool>, a: int, b: int) -> bool {
    if dirs[a] != dirs[b] {
        dirs[a]
    } else if names[a] != names[b] {
        lex_lt(names[a], names[b])
    } else {
        a < b
    }
}

pub open spec fn listing_rel(names: Seq<Seq<char>>, dirs: Seq<bool>) -> spec_fn(int, int) -> bool {
    |a: int, b: int| listing_before(names, dirs, a, b)
}

proof fn lemma_listing_order(names: Seq<Seq<char>>, dirs: Seq<bool>, a: int, b: int, c: int)
    ensures
        a != b ==> listing_before(names, dirs, a, b) || listing_before(names, dirs, b, a),
        !(listing_before(names, dirs, a, b) && listing_before(names, dirs, b, a)),
        listing_before(names, dirs, a, b) && listing_before(names, dirs, b, c) ==> listing_before(names, dirs, a, c),
{
    lemma_lex_total(names[a], names[b]);
    lemma_lex_total(names[b], names[c]);
    lemma_lex_total(names[a], names[c]);
    if lex_lt(names[a], names[b]) && lex_lt(names[b], names[c]) {
        lemma_lex_trans(names[a], names[b], names[c]);
    }
}

fn lex_less(x: &[char], y: &[char]) -> (r: bool)
    ensures
        r == lex_lt(x@, y@),
{
    let mut k: usize = 0;
    assert(x@.skip(0) =~= x@ && y@.skip(0) =~= y@);
    while k < x.len() && k < y.len()
        invariant
            k <= x@.len(),
            k <= y@.len(),
            lex_lt(x@, y@) == lex_lt(x@.skip(k as int), y@.skip(k as int)),
        decreases x@.len() - k,
    {
        if x[k] != y[k] {
            return x[k] < y[k];
        }
        assert(x@.skip(k as int).drop_first() =~= x@.skip(k as int + 1));
        assert(y@.skip(k as int).drop_first() =~= y@.skip(k as int + 1));
        k = k + 1;
    }
    k == x.len() && k < y.len()
}

fn chars_equal(x: &[char], y: &[char]) -> (r: bool)
    ensures
        r == (x@ == y@),
{
    if x.len() != y.len() {
        return false;
    }
    let mut k: usize = 0;
    while k < x.len()
        invariant
            k <= x@.len(),
            x@.len() == y@.len(),
            x@.take(k as int) == y@.take(k as int),
        decreases x@.len() - k,
    {
        if x[k] != y[k] {
            assert(x@[k as int] != y@[k as int]);
            return false;
        }
        assert(x@.take(k as int + 1) =~= x@.take(k as int).push(x@[k as int]));
        assert(y@.take(k as int + 1) =~= y@.take(k as int).push(y@[k as int]));
        k = k + 1;
    }
    assert(x@.take(k as int) =~= x@);
    assert(y@.take(k as int) =~= y@);
    true
}

fn listing_before_exec(names: &Vec<Vec<char>>, dirs: &[bool], a: usize, b: usize) -> (r: bool)
    requires
        a < names@.len(),
        b < names@.len(),
        names@.len() == dirs@.len(),
    ensures
        r == listing_before(crate::text::seqs_view(names@), dirs@, a as int, b as int),
{
    let ghost nv = crate::text::seqs_view(names@);
    assert(nv[a as int] == names@[a as int]@ && nv[b as int] == names@[b as int]@);
    if dirs[a] != dirs[b] {
        dirs[a]
    } else if !chars_equal(&names[a], &names[b]) {
        lex_less(&names[a], &names[b])
    } else {
        a < b
    }
}

/// The positions of the entries of a folder in listing order: folders
/// first, then by name (the order of `str`), equal entries kept in order.
pub fn listing_order(names: &[String], dirs: &[bool]) -> (r: Vec<usize>)
    requires
        names@.len() == dirs@.len(),
    ensures
        is_order_of(names@.len() as int, r@, listing_rel(crate::evidence::strings_view(names@), dirs@)),
{
    let ghost nv = crate::evidence::strings_view(names@);
    let ghost before = listing_rel(nv, dirs@);
    let mut cs: Vec<Vec<char>> = Vec::new();
    let mut m: usize = 0;
    while m < names.len()
        invariant
            m <= names@.len(),
            nv == crate::evidence::strings_view(names@),
            cs@.len() == m,
            forall|k: int| 0 <= k < m ==> #[trigger] cs@[k]@ == nv[k],
        decreases names@.len() - m,
    {
        cs.push(chars_of(&names[m]));
        m = m + 1;
    }
    assert(crate::text::seqs_view(cs@) =~= nv);
    let mut r: Vec<usize> = Vec::new();
    let mut i: usize = 0;
    while i < names.len()
        invariant
            i <= names@.len(),
            names@.len() == dirs@.len(),
            cs@.len() == names@.len(),
            crate::text::seqs_view(cs@) == nv,
            before == listing_rel(nv, dirs@),
            r@.len() == i,
            forall|k: int| 0 <= k < r@.len() ==> #[trigger] r@[k] < i,
            forall|j: int, k: int| 0 <= j < k < r@.len() ==> before(#[trigger] r@[j] as int, #[trigger] r@[k] as int),
        decreases names@.len() - i,
    {
        let mut p: usize = 0;
        let mut go = true;
        while go && p < r.len()
            invariant
                p <= r@.len(),
                i < names@.len(),
                names@.len() == dirs@.len(),
                cs@.len() == names@.len(),
                crate::text::seqs_view(cs@) == nv,
                r@.len() == i,
                forall|k: int| 0 <= k < r@.len() ==> #[trigger] r@[k] < i,
                forall|q: int| 0 <= q < p ==> listing_before(nv, dirs@, #[trigger] r@[q] as int, i as int),
                !go ==> p < r@.len() && !listing_before(nv, dirs@, r@[p as int] as int, i as int),
            decreases r@.len() - p + (if go { 1int } else { 0int }),
        {
            if listing_before_exec(&cs, dirs, r[p], i) {
                p = p + 1;
            } else {
                go = false;
            }
        }
        proof {
            assert forall|q: int| p <= q < r@.len() implies before(i as int, #[trigger] r@[q] as int) by {
                lemma_listing_order(nv, dirs@, r@[q] as int, i as int, i as int);
                if listing_before(nv, dirs@, r@[q] as int, i as int) {
                    if q > p {
                        assert(before(r@[p as int] as int, r@[q] as int));
                        lemma_listing_order(nv, dirs@, r@[p as int] as int, r@[q] as int, i as int);
                    }
                }
            }
            assert forall|q: int| 0 <= q < p implies before(#[trigger] r@[q] as int, i as int) by {}
            lemma_insert_ordered(r@, i as int, p as int, before);
        }
        r.insert(p, i);
        i = i + 1;
    }
    r
}

} // verus!
