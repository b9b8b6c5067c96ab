//! Stable sorting. `sort_spec` is insertion sort written as a specification:
//! each element goes after every earlier element whose key is not greater,
//! which is exactly what a stable sort by key produces.

use vstd::prelude::*;

verus! {

/// A lexicographic sort key of up to three integers.
#[derive(Clone, Copy, Debug, PartialEq, Eq, Structural)]
pub struct SortKey {
    pub a: i128,
    pub b: i128,
    pub c: i128,
}

pub open spec fn key_le(x: SortKey, y: SortKey) -> bool {
    x.a < y.a || (x.a == y.a && (x.b < y.b || (x.b == y.b && x.c <= y.c)))
}

pub fn key_le_exec(x: SortKey, y: SortKey) -> (r: bool)
    ensures
        r == key_le(x, y),
{
    x.a < y.a || (x.a == y.a && (x.b < y.b || (x.b == y.b && x.c <= y.c)))
}

/// The key of an optional instant or day: absent sorts first.
pub open spec fn opt_key(x: Option<i64>, c: i128) -> SortKey {
    match x {
        None => SortKey { a: 0, b: 0, c },
        Some(v) => SortKey { a: 1, b: v as i128, c },
    }
}

pub fn opt_key_exec(x: Option<i64>, c: i128) -> (k: SortKey)
    ensures
        k == opt_key(x, c),
{
    match x {
        None => SortKey { a: 0, b: 0, c },
        Some(v) => SortKey { a: 1, b: v as i128, c },
    }
}

/// Inserts `e` after the last element whose key is not greater than its own.
pub open spec fn insert_by_key<T>(sorted: Seq<(SortKey, T)>, e: (SortKey, T)) -> Seq<(SortKey, T)>
    decreases sorted.len(),
{
    if sorted.len() == 0 {
        seq![e]
    } else if key_le(sorted.last().0, e.0) {
        sorted.push(e)
    } else {
        insert_by_key(sorted.drop_last(), e).push(sorted.last())
    }
}

/// A stable sort by key.
pub open spec fn sort_spec<T>(s: Seq<(SortKey, T)>) -> Seq<(SortKey, T)>
    decreases s.len(),
{
    if s.len() == 0 {
        s
    } else {
        insert_by_key(sort_spec(s.drop_last()), s.last())
    }
}

proof fn lemma_insert_at<T>(sorted: Seq<(SortKey, T)>, e: (SortKey, T), p: int)
    requires
        0 <= p <= sorted.len(),
        forall|j: int| p <= j < sorted.len() ==> !key_le(#[trigger] sorted[j].0, e.0),
        p == 0 || key_le(sorted[p - 1].0, e.0),
    ensures
        insert_by_key(sorted, e) == sorted.take(p).push(e) + sorted.skip(p),
    decreases sorted.len(),
{
    if sorted.len() == 0 {
        assert(sorted.take(p).push(e) + sorted.skip(p) =~= seq![e]);
    } else if p == sorted.len() {
        assert(sorted.take(p) =~= sorted);
        assert(sorted.skip(p) =~= Seq::<(SortKey, T)>::empty());
        assert(sorted.take(p).push(e) + sorted.skip(p) =~= sorted.push(e));
    } else {
        let d = sorted.drop_last();
        assert forall|j: int| p <= j < d.len() implies !key_le(#[trigger] d[j].0, e.0) by {
            assert(d[j] == sorted[j]);
        }
        if p > 0 {
            assert(d[p - 1] == sorted[p - 1]);
        }
        assert(!key_le(sorted[sorted.len() - 1].0, e.0));
        lemma_insert_at(d, e, p);
        assert(d.take(p) =~= sorted.take(p));
        assert(d.skip(p).push(sorted.last()) =~= sorted.skip(p));
        assert((d.take(p).push(e) + d.skip(p)).push(sorted.last()) =~= sorted.take(p).push(e) + sorted.skip(p));
    }
}

/// Sorts by key, keeping the original order among equal keys.
pub fn sort_by_key<T>(items: Vec<(SortKey, T)>) -> (out: Vec<(SortKey, T)>)
    ensures
        out@ == sort_spec(items@),
{
    let mut src = items;
    let ghost orig = src@;
    let mut out: Vec<(SortKey, T)> = Vec::new();
    // Consume from the back so each element is moved, then insert in order.
    let mut rev: Vec<(SortKey, T)> = Vec::new();
    while src.len() > 0
        invariant
            orig == src@ + rev@.reverse(),
        decreases src.len(),
    {
        let ghost before_src = src@;
        let ghost before_rev = rev@;
        let x = src.pop().unwrap();
        rev.push(x);
        assert(rev@.reverse() =~= seq![x] + before_rev.reverse());
        assert(before_src =~= src@.push(x));
    }
    assert(rev@.reverse() =~= orig);
    let mut i: usize = 0;
    let n = rev.len();
    assert(orig.take(0) =~= Seq::<(SortKey, T)>::empty());
    while rev.len() > 0
        invariant
            n == orig.len(),
            rev@.len() + i == n,
            rev@.reverse() == orig.skip(i as int),
            out@ == sort_spec(orig.take(i as int)),
        decreases rev.len(),
    {
        let ghost before_rev = rev@;
        let e = rev.pop().unwrap();
        assert(before_rev.reverse()[0] == e);
        assert(orig.skip(i as int)[0] == orig[i as int]);
        assert(e == orig[i as int]);
        assert(rev@.reverse() =~= orig.skip(i + 1)) by {
            assert(before_rev =~= rev@.push(e));
            assert(before_rev.reverse() =~= seq![e] + rev@.reverse());
            assert(rev@.reverse() =~= before_rev.reverse().drop_first());
            assert(orig.skip(i + 1) =~= orig.skip(i as int).drop_first());
        }
        // Find the insertion point: after every element not greater than `e`.
        let mut p: usize = out.len();
        while p > 0 && !key_le_exec(out[p - 1].0, e.0)
            invariant
                p <= out@.len(),
                forall|j: int| p <= j < out@.len() ==> !key_le(#[trigger] out@[j].0, e.0),
            decreases p,
        {
            p = p - 1;
        }
        proof {
            lemma_insert_at(out@, e, p as int);
            assert(orig.take(i + 1).drop_last() =~= orig.take(i as int));
            assert(orig.take(i + 1).last() == e);
        }
        let ghost before_out = out@;
        out.insert(p, e);
        assert(out@ =~= before_out.take(p as int).push(e) + before_out.skip(p as int));
        i = i + 1;
    }
    assert(orig.take(n as int) =~= orig);
    out
}

/// The items of keyed pairs, in order, without their keys.
pub fn values_of<K, T>(pairs: Vec<(K, T)>) -> (out: Vec<T>)
    ensures
        out@ == pairs@.map_values(|p: (K, T)| p.1),
{
    let ghost ss = pairs@;
    let mut src = pairs;
    let mut rev: Vec<(K, T)> = Vec::new();
    while src.len() > 0
        invariant
            ss == src@ + rev@.reverse(),
        decreases src.len(),
    {
        let ghost bs = src@;
        let ghost br = rev@;
        let x = src.pop().unwrap();
        rev.push(x);
        assert(rev@.reverse() =~= seq![x] + br.reverse());
        assert(bs =~= src@.push(x));
    }
    assert(rev@.reverse() =~= ss);
    let n = rev.len();
    let mut out: Vec<T> = Vec::new();
    let mut w: usize = 0;
    while rev.len() > 0
        invariant
            n == ss.len(),
            rev@.len() + w == n,
            rev@.reverse() == ss.skip(w as int),
            out@ == ss.take(w as int).map_values(|p: (K, T)| p.1),
        decreases rev.len(),
    {
        let ghost br = rev@;
        let x = rev.pop().unwrap();
        assert(br =~= rev@.push(x));
        assert(br.reverse() =~= seq![x] + rev@.reverse());
        assert(ss.skip(w as int)[0] == ss[w as int]);
        assert(rev@.reverse() =~= ss.skip(w + 1)) by {
            assert(rev@.reverse() =~= br.reverse().drop_first());
            assert(ss.skip(w + 1) =~= ss.skip(w as int).drop_first());
        }
        out.push(x.1);
        assert(out@ =~= ss.take(w + 1).map_values(|p: (K, T)| p.1));
        w = w + 1;
    }
    assert(ss.take(n as int) =~= ss);
    out
}

/// `a <= b` in lexicographic order of characters (which is the byte order
/// of their UTF-8 encodings, and so `String`'s order).
pub open spec fn text_le(a: Seq<char>, b: Seq<char>) -> bool
    decreases a.len(),
{
    if a.len() == 0 {
        true
    } else if b.len() == 0 {
        false
    } else if a[0] != b[0] {
        a[0] < b[0]
    } else {
        text_le(a.drop_first(), b.drop_first())
    }
}

pub fn text_le_exec(a: &str, b: &str) -> (r: bool)
    ensures
        r == text_le(a@, b@),
{
    let x = crate::text::chars_of(a);
    let y = crate::text::chars_of(b);
    let mut i: usize = 0;
    assert(x@.skip(0) =~= x@);
    assert(y@.skip(0) =~= y@);
    loop
        invariant
            x@ == a@,
            y@ == b@,
            i <= x@.len(),
            i <= y@.len(),
            text_le(a@, b@) == text_le(x@.skip(i as int), y@.skip(i as int)),
        decreases x@.len() - i,
    {
        let ghost xs = x@.skip(i as int);
        let ghost ys = y@.skip(i as int);
        if i == x.len() {
            return true;
        }
        if i == y.len() {
            return false;
        }
        assert(xs[0] == x@[i as int]);
        assert(ys[0] == y@[i as int]);
        if x[i] != y[i] {
            return x[i] < y[i];
        }
        assert(xs.drop_first() =~= x@.skip(i + 1));
        assert(ys.drop_first() =~= y@.skip(i + 1));
        i = i + 1;
    }
}

pub open spec fn insert_by_text<T>(sorted: Seq<(Seq<char>, T)>, e: (Seq<char>, T)) -> Seq<(Seq<char>, T)>
    decreases sorted.len(),
{
    if sorted.len() == 0 {
        seq![e]
    } else if text_le(sorted.last().0, e.0) {
        sorted.push(e)
    } else {
        insert_by_text(sorted.drop_last(), e).push(sorted.last())
    }
}

/// A stable sort by text key.
pub open spec fn sort_text_spec<T>(s: Seq<(Seq<char>, T)>) -> Seq<(Seq<char>, T)>
    decreases s.len(),
{
    if s.len() == 0 {
        s
    } else {
        insert_by_text(sort_text_spec(s.drop_last()), s.last())
    }
}

/// Text-keyed pairs with each key taken by its characters.
pub open spec fn key_views<T>(s: Seq<(String, T)>) -> Seq<(Seq<char>, T)> {
    s.map_values(|p: (String, T)| (p.0@, p.1))
}

proof fn lemma_insert_text_at<T>(sorted: Seq<(Seq<char>, T)>, e: (Seq<char>, T), p: int)
    requires
        0 <= p <= sorted.len(),
        forall|j: int| p <= j < sorted.len() ==> !text_le(#[trigger] sorted[j].0, e.0),
        p == 0 || text_le(sorted[p - 1].0, e.0),
    ensures
        insert_by_text(sorted, e) == sorted.take(p).push(e) + sorted.skip(p),
    decreases sorted.len(),
{
    if sorted.len() == 0 {
        assert(sorted.take(p).push(e) + sorted.skip(p) =~= seq![e]);
    } else if p == sorted.len() {
        assert(sorted.take(p).push(e) + sorted.skip(p) =~= sorted.push(e));
    } else {
        let d = sorted.drop_last();
        assert forall|j: int| p <= j < d.len() implies !text_le(#[trigger] d[j].0, e.0) by {
            assert(d[j] == sorted[j]);
        }
        if p > 0 {
            assert(d[p - 1] == sorted[p - 1]);
        }
        assert(!text_le(sorted[sorted.len() - 1].0, e.0));
        lemma_insert_text_at(d, e, p);
        assert((d.take(p).push(e) + d.skip(p)).push(sorted.last()) =~= sorted.take(p).push(e) + sorted.skip(p));
    }
}

/// Sorts by text key, keeping the original order among equal keys.
pub fn sort_by_text<T>(items: Vec<(String, T)>) -> (out: Vec<(String, T)>)
    ensures
        key_views(out@) == sort_text_spec(key_views(items@)),
{
    let mut src = items;
    let ghost orig = src@;
    let ghost ov = key_views(orig);
    let mut out: Vec<(String, T)> = Vec::new();
    let mut rev: Vec<(String, T)> = Vec::new();
    while src.len() > 0
        invariant
            orig == src@ + rev@.reverse(),
        decreases src.len(),
    {
        let ghost before_src = src@;
        let ghost before_rev = rev@;
        let x = src.pop().unwrap();
        rev.push(x);
        assert(rev@.reverse() =~= seq![x] + before_rev.reverse());
        assert(before_src =~= src@.push(x));
    }
    assert(rev@.reverse() =~= orig);
    let mut i: usize = 0;
    let n = rev.len();
    assert(ov.take(0) =~= Seq::<(Seq<char>, T)>::empty());
    assert(key_views(out@) =~= Seq::<(Seq<char>, T)>::empty());
    while rev.len() > 0
        invariant
            n == orig.len(),
            ov == key_views(orig),
            rev@.len() + i == n,
            rev@.reverse() == orig.skip(i as int),
            key_views(out@) == sort_text_spec(ov.take(i as int)),
        decreases rev.len(),
    {
        let ghost before_rev = rev@;
        let e = rev.pop().unwrap();
        assert(before_rev.reverse()[0] == e);
        assert(orig.skip(i as int)[0] == orig[i as int]);
        assert(rev@.reverse() =~= orig.skip(i + 1)) by {
            assert(before_rev =~= rev@.push(e));
            assert(before_rev.reverse() =~= seq![e] + rev@.reverse());
            assert(rev@.reverse() =~= before_rev.reverse().drop_first());
            assert(orig.skip(i + 1) =~= orig.skip(i as int).drop_first());
        }
        let ghost ev = (e.0@, e.1);
        let ghost outv = key_views(out@);
        let mut p: usize = out.len();
        while p > 0 && !text_le_exec(out[p - 1].0.as_str(), e.0.as_str())
            invariant
                p <= out@.len(),
                outv == key_views(out@),
                ev == (e.0@, e.1),
                forall|j: int| p <= j < outv.len() ==> !text_le(#[trigger] outv[j].0, ev.0),
            decreases p,
        {
            assert(outv[p - 1] == (out@[p - 1].0@, out@[p - 1].1));
            p = p - 1;
        }
        proof {
            if p > 0 {
                assert(outv[p - 1] == (out@[p - 1].0@, out@[p - 1].1));
            }
            lemma_insert_text_at(outv, ev, p as int);
            assert(ov.take(i + 1).drop_last() =~= ov.take(i as int));
            assert(ov.take(i + 1).last() == ev);
        }
        let ghost before_out = out@;
        out.insert(p, e);
        assert(out@ =~= before_out.take(p as int).push(e) + before_out.skip(p as int));
        assert(key_views(out@) =~= outv.take(p as int).push(ev) + outv.skip(p as int));
        i = i + 1;
    }
    assert(ov.take(n as int) =~= ov);
    out
}

} // verus!
