//! The order of names, and the stable sort by it.
//!
//! Names are ordered by the bytes of their UTF-8 encoding, the first difference deciding
//! and a proper prefix coming first.

use vstd::prelude::*;
use vstd::utf8::encode_utf8;

verus! {

/// Whether `a` comes no later than `b`, byte by byte.
pub open spec fn bytes_le(a: Seq<u8>, b: Seq<u8>) -> bool
    decreases a.len(),
{
    if a.len() == 0 {
        true
    } else if b.len() == 0 {
        false
    } else if a[0] != b[0] {
        a[0] < b[0]
    } else {
        bytes_le(a.drop_first(), b.drop_first())
    }
}

/// Whether the name `a` comes no later than the name `b`.
pub open spec fn text_le(a: Seq<char>, b: Seq<char>) -> bool {
    bytes_le(encode_utf8(a), encode_utf8(b))
}

/// Something that is sorted by a name.
pub trait Named: Sized {
    /// Its name.
    spec fn name(self) -> Seq<char>;
}

/// A value whose view has a name.
pub trait NamedText: View where Self::V: Named {
    /// Its name.
    fn name_text(&self) -> (r: &str)
        ensures
            r@ == self@.name(),
    ;
}

/// Each of `s` by its view.
pub open spec fn views<T: View>(s: Seq<T>) -> Seq<T::V> {
    s.map_values(|t: T| t@)
}

/// Whether names never step back along `s`.
pub open spec fn in_name_order<T: Named>(s: Seq<T>) -> bool {
    forall|i: int, j: int| 0 <= i <= j < s.len() ==> text_le(#[trigger] s[i].name(), #[trigger] s[j].name())
}

/// Having the name `n`.
pub open spec fn named<T: Named>(n: Seq<char>) -> spec_fn(T) -> bool {
    |t: T| t.name() == n
}

/// The items of `s` named `n`, in the order they have in `s`.
pub open spec fn at_name<T: Named>(s: Seq<T>, n: Seq<char>) -> Seq<T> {
    s.filter(named(n))
}

/// Whether `sorted` is the stable sort of `items` by name: in name order, and under
/// each name the same items in the same order.
pub open spec fn sorted_by_name<T: Named>(items: Seq<T>, sorted: Seq<T>) -> bool {
    &&& in_name_order(sorted)
    &&& forall|n: Seq<char>| #[trigger] at_name(sorted, n) == at_name(items, n)
}

/// The stable sort of `items` by name.
pub open spec fn by_name<T: Named>(items: Seq<T>) -> Seq<T> {
    choose|sorted: Seq<T>| sorted_by_name(items, sorted)
}

proof fn lemma_bytes_le_reflexive(a: Seq<u8>)
    ensures
        bytes_le(a, a),
    decreases a.len(),
{
    if a.len() > 0 {
        lemma_bytes_le_reflexive(a.drop_first());
    }
}

proof fn lemma_bytes_le_total(a: Seq<u8>, b: Seq<u8>)
    ensures
        bytes_le(a, b) || bytes_le(b, a),
    decreases a.len(),
{
    if a.len() > 0 && b.len() > 0 {
        lemma_bytes_le_total(a.drop_first(), b.drop_first());
    }
}

proof fn lemma_bytes_le_transitive(a: Seq<u8>, b: Seq<u8>, c: Seq<u8>)
    requires
        bytes_le(a, b),
        bytes_le(b, c),
    ensures
        bytes_le(a, c),
    decreases a.len(),
{
    if a.len() > 0 && b.len() > 0 && c.len() > 0 && a[0] == b[0] && b[0] == c[0] {
        lemma_bytes_le_transitive(a.drop_first(), b.drop_first(), c.drop_first());
    }
}

proof fn lemma_bytes_le_antisymmetric(a: Seq<u8>, b: Seq<u8>)
    requires
        bytes_le(a, b),
        bytes_le(b, a),
    ensures
        a == b,
    decreases a.len(),
{
    if a.len() > 0 && b.len() > 0 {
        lemma_bytes_le_antisymmetric(a.drop_first(), b.drop_first());
        assert(a =~= seq![a[0]] + a.drop_first());
        assert(b =~= seq![b[0]] + b.drop_first());
    }
    assert(a =~= b);
}

/// Names are totally ordered: any two compare, equal names are the only ones that
/// compare both ways, and comparisons chain.
pub proof fn lemma_name_order(a: Seq<char>, b: Seq<char>, c: Seq<char>)
    ensures
        text_le(a, a),
        text_le(a, b) || text_le(b, a),
        text_le(a, b) && text_le(b, a) ==> a == b,
        text_le(a, b) && text_le(b, c) ==> text_le(a, c),
{
    let (x, y, z) = (encode_utf8(a), encode_utf8(b), encode_utf8(c));
    lemma_bytes_le_reflexive(x);
    lemma_bytes_le_total(x, y);
    if bytes_le(x, y) && bytes_le(y, x) {
        lemma_bytes_le_antisymmetric(x, y);
        vstd::utf8::encode_utf8_decode_utf8(a);
        vstd::utf8::encode_utf8_decode_utf8(b);
    }
    if bytes_le(x, y) && bytes_le(y, z) {
        lemma_bytes_le_transitive(x, y, z);
    }
}

/// Whether the name `a` comes no later than the name `b`.
pub fn comes_no_later(a: &str, b: &str) -> (r: bool)
    ensures
        r == text_le(a@, b@),
{
    let x = a.as_bytes();
    let y = b.as_bytes();
    let mut i: usize = 0;
    assert(x@.skip(0) =~= x@);
    assert(y@.skip(0) =~= y@);
    while i < x.len() && i < y.len() && x[i] == y[i]
        invariant
            i <= x.len(),
            i <= y.len(),
            bytes_le(x@, y@) == bytes_le(x@.skip(i as int), y@.skip(i as int)),
        decreases x.len() - i,
    {
        assert(x@.skip(i as int).drop_first() =~= x@.skip(i + 1));
        assert(y@.skip(i as int).drop_first() =~= y@.skip(i + 1));
        i += 1;
    }
    if i == x.len() {
        true
    } else if i == y.len() {
        false
    } else {
        x[i] < y[i]
    }
}

proof fn lemma_insert<T: Named>(s: Seq<T>, pos: int, x: T)
    requires
        in_name_order(s),
        0 <= pos <= s.len(),
        pos > 0 ==> text_le(s[pos - 1].name(), x.name()),
        forall|j: int| pos <= j < s.len() ==> !text_le(#[trigger] s[j].name(), x.name()),
    ensures
        in_name_order(s.insert(pos, x)),
        forall|n: Seq<char>|
            #[trigger] at_name(s.insert(pos, x), n) == if n == x.name() {
                at_name(s, n).push(x)
            } else {
                at_name(s, n)
            },
{
    let t = s.insert(pos, x);
    assert forall|i: int, j: int| 0 <= i <= j < t.len() implies text_le(
        #[trigger] t[i].name(),
        #[trigger] t[j].name(),
    ) by {
        lemma_name_order(x.name(), x.name(), x.name());
        if j < pos {
            assert(t[i] == s[i] && t[j] == s[j]);
        } else if i > pos {
            assert(t[i] == s[i - 1] && t[j] == s[j - 1]);
        } else if i == pos && j > pos {
            assert(t[j] == s[j - 1]);
            lemma_name_order(x.name(), s[j - 1].name(), x.name());
        } else if i < pos && j == pos {
            assert(t[i] == s[i]);
            assert(text_le(s[i].name(), s[pos - 1].name()));
            lemma_name_order(s[i].name(), s[pos - 1].name(), x.name());
        } else if i < pos && j > pos {
            assert(t[i] == s[i] && t[j] == s[j - 1]);
        }
    }
    assert forall|n: Seq<char>|
        #[trigger] at_name(t, n) == if n == x.name() {
            at_name(s, n).push(x)
        } else {
            at_name(s, n)
        } by {
        let p = named::<T>(n);
        let head = s.take(pos);
        let tail = s.skip(pos);
        assert(t =~= head.push(x) + tail);
        assert(s =~= head + tail);
        Seq::filter_distributes_over_add(head.push(x), tail, p);
        Seq::filter_distributes_over_add(head, tail, p);
        assert(head.push(x).drop_last() =~= head);
        reveal(Seq::filter);
        if n == x.name() {
            assert forall|i: int| 0 <= i < tail.len() implies !p(#[trigger] tail[i]) by {
                lemma_name_order(n, n, n);
                assert(tail[i] == s[pos + i]);
            }
            lemma_filter_none(tail, p);
            assert(t.filter(p) =~= s.filter(p).push(x));
        } else {
            assert(t.filter(p) =~= s.filter(p));
        }
    }
}

proof fn lemma_filter_none<T>(s: Seq<T>, p: spec_fn(T) -> bool)
    requires
        forall|i: int| 0 <= i < s.len() ==> !p(#[trigger] s[i]),
    ensures
        s.filter(p) == Seq::<T>::empty(),
    decreases s.len(),
{
    reveal(Seq::filter);
    if s.len() > 0 {
        lemma_filter_none(s.drop_last(), p);
    }
}

proof fn lemma_at_name_first<T: Named>(s: Seq<T>, n: Seq<char>)
    requires
        s.len() > 0,
    ensures
        at_name(s, n) == if s[0].name() == n {
            seq![s[0]] + at_name(s.drop_first(), n)
        } else {
            at_name(s.drop_first(), n)
        },
{
    let p = named::<T>(n);
    assert(s =~= seq![s[0]] + s.drop_first());
    Seq::filter_distributes_over_add(seq![s[0]], s.drop_first(), p);
    reveal(Seq::filter);
    let one = seq![s[0]];
    assert(one.drop_last() =~= Seq::<T>::empty());
    assert(one.drop_last().filter(p) =~= Seq::<T>::empty());
    if p(s[0]) {
        assert(one.filter(p) =~= one);
    } else {
        assert(one.filter(p) =~= Seq::<T>::empty());
    }
    assert(Seq::<T>::empty() + s.drop_first().filter(p) =~= s.drop_first().filter(p));
}

proof fn lemma_at_name_last<T: Named>(s: Seq<T>, n: Seq<char>)
    requires
        s.len() > 0,
    ensures
        at_name(s, n) == if s.last().name() == n {
            at_name(s.drop_last(), n).push(s.last())
        } else {
            at_name(s.drop_last(), n)
        },
{
    reveal(Seq::filter);
}

/// There is one stable sort of a sequence.
pub proof fn lemma_sort_unique<T: Named>(items: Seq<T>, a: Seq<T>, b: Seq<T>)
    requires
        sorted_by_name(items, a),
        sorted_by_name(items, b),
    ensures
        a == b,
{
    assert forall|n: Seq<char>| #[trigger] at_name(a, n) == at_name(b, n) by {
        assert(at_name(a, n) == at_name(items, n));
        assert(at_name(b, n) == at_name(items, n));
    }
    lemma_same_groups(a, b);
}

proof fn lemma_same_groups<T: Named>(a: Seq<T>, b: Seq<T>)
    requires
        in_name_order(a),
        in_name_order(b),
        forall|n: Seq<char>| #[trigger] at_name(a, n) == at_name(b, n),
    ensures
        a == b,
    decreases a.len(),
{
    reveal(Seq::filter);
    if a.len() == 0 {
        if b.len() > 0 {
            let n = b.last().name();
            lemma_at_name_last(b, n);
            assert(at_name(a, n).len() == 0);
        }
        assert(a =~= b);
    } else {
        let n = a.last().name();
        lemma_at_name_last(a, n);
        assert(at_name(b, n) == at_name(a, n));
        if b.len() == 0 {
            assert(at_name(b, n).len() == 0);
        }
        let m = b.last().name();
        lemma_at_name_last(b, m);
        assert(at_name(a, m) == at_name(b, m));
        if forall|i: int| 0 <= i < b.len() ==> !named::<T>(n)(#[trigger] b[i]) {
            lemma_filter_none(b, named::<T>(n));
        }
        let i = choose|i: int| 0 <= i < b.len() && named::<T>(n)(#[trigger] b[i]);
        assert(text_le(b[i].name(), b[b.len() - 1].name()));
        if forall|j: int| 0 <= j < a.len() ==> !named::<T>(m)(#[trigger] a[j]) {
            lemma_filter_none(a, named::<T>(m));
        }
        let j = choose|j: int| 0 <= j < a.len() && named::<T>(m)(#[trigger] a[j]);
        assert(text_le(a[j].name(), a[a.len() - 1].name()));
        lemma_name_order(n, m, n);
        assert(n == m);
        assert(at_name(a, n).last() == a.last());
        assert(at_name(b, n).last() == b.last());
        assert forall|k: Seq<char>| #[trigger] at_name(a.drop_last(), k) == at_name(b.drop_last(), k) by {
            lemma_at_name_last(a, k);
            lemma_at_name_last(b, k);
            assert(at_name(a, k) == at_name(b, k));
            if k == n {
                assert(at_name(a, k).drop_last() =~= at_name(a.drop_last(), k));
                assert(at_name(b, k).drop_last() =~= at_name(b.drop_last(), k));
            }
        }
        assert forall|p: int, q: int| 0 <= p <= q < a.drop_last().len() implies text_le(
            #[trigger] a.drop_last()[p].name(),
            #[trigger] a.drop_last()[q].name(),
        ) by {
            assert(text_le(a[p].name(), a[q].name()));
        }
        assert forall|p: int, q: int| 0 <= p <= q < b.drop_last().len() implies text_le(
            #[trigger] b.drop_last()[p].name(),
            #[trigger] b.drop_last()[q].name(),
        ) by {
            assert(text_le(b[p].name(), b[q].name()));
        }
        lemma_same_groups(a.drop_last(), b.drop_last());
        assert(a =~= a.drop_last().push(a.last()));
        assert(b =~= b.drop_last().push(b.last()));
    }
}

proof fn lemma_sort_exists<T: Named>(items: Seq<T>) -> (sorted: Seq<T>)
    ensures
        sorted_by_name(items, sorted),
        sorted.len() == items.len(),
    decreases items.len(),
{
    reveal(Seq::filter);
    if items.len() == 0 {
        items
    } else {
        let s = lemma_sort_exists(items.drop_last());
        let x = items.last();
        let pos = lemma_place(s, x.name(), s.len() as int);
        lemma_insert(s, pos, x);
        let t = s.insert(pos, x);
        assert forall|n: Seq<char>| #[trigger] at_name(t, n) == at_name(items, n) by {
            lemma_at_name_last(items, n);
            assert(at_name(s, n) == at_name(items.drop_last(), n));
        }
        t
    }
}

proof fn lemma_place<T: Named>(s: Seq<T>, n: Seq<char>, from: int) -> (pos: int)
    requires
        0 <= from <= s.len(),
        forall|j: int| from <= j < s.len() ==> !text_le(#[trigger] s[j].name(), n),
    ensures
        0 <= pos <= from,
        pos > 0 ==> text_le(s[pos - 1].name(), n),
        forall|j: int| pos <= j < s.len() ==> !text_le(#[trigger] s[j].name(), n),
    decreases from,
{
    if from == 0 || text_le(s[from - 1].name(), n) {
        from
    } else {
        lemma_place(s, n, from - 1)
    }
}

/// The stable sort is in name order, and holds under each name what was there, in the order
/// it was there; so it loses nothing, adds nothing and keeps ties.
pub proof fn lemma_by_name<T: Named>(items: Seq<T>)
    ensures
        sorted_by_name(items, by_name(items)),
        by_name(items).len() == items.len(),
{
    let s = lemma_sort_exists(items);
    lemma_sort_unique(items, s, by_name(items));
}

/// Sorts `items` by name; items of one name keep their order.
pub fn sort_by_name<T: NamedText>(items: Vec<T>) -> (r: Vec<T>) where T::V: Named
    ensures
        views(r@) == by_name(views(items@)),
{
    let ghost all = views(items@);
    let mut rest = items;
    let mut out: Vec<T> = Vec::new();
    assert(forall|n: Seq<char>| #[trigger] at_name(views(out@), n) + at_name(views(rest@), n) =~= at_name(all, n)) by {
        reveal(Seq::filter);
    }
    while rest.len() > 0
        invariant
            in_name_order(views(out@)),
            forall|n: Seq<char>| #[trigger] at_name(views(out@), n) + at_name(views(rest@), n) == at_name(all, n),
        decreases rest.len(),
    {
        let ghost rest0 = views(rest@);
        let ghost out0 = views(out@);
        let x = rest.remove(0);
        assert(views(rest@) =~= rest0.drop_first());
        let mut pos: usize = out.len();
        while pos > 0 && !comes_no_later(out[pos - 1].name_text(), x.name_text())
            invariant
                pos <= out.len(),
                out0 == views(out@),
                forall|j: int| pos <= j < out0.len() ==> !text_le(#[trigger] out0[j].name(), x@.name()),
            decreases pos,
        {
            pos -= 1;
            assert(out0[pos as int] == out[pos as int]@);
        }
        proof {
            if pos > 0 {
                assert(out0[pos - 1] == out[pos - 1]@);
            }
            lemma_insert(out0, pos as int, x@);
        }
        let ghost x0 = x@;
        out.insert(pos, x);
        proof {
            assert(views(out@) =~= out0.insert(pos as int, x0));
            assert(rest0[0] == x0);
            assert forall|n: Seq<char>| #[trigger] at_name(views(out@), n) + at_name(views(rest@), n) == at_name(all, n) by {
                lemma_at_name_first(rest0, n);
                assert(at_name(out0, n) + at_name(rest0, n) == at_name(all, n));
                assert(at_name(views(out@), n) + at_name(views(rest@), n) =~= at_name(out0, n) + at_name(rest0, n));
            }
        }
    }
    proof {
        assert forall|n: Seq<char>| #[trigger] at_name(views(out@), n) == at_name(all, n) by {
            assert(views(rest@) =~= Seq::<T::V>::empty());
            reveal(Seq::filter);
            assert(at_name(views(rest@), n) =~= Seq::<T::V>::empty());
            assert(at_name(views(out@), n) + at_name(views(rest@), n) =~= at_name(views(out@), n));
        }
        lemma_by_name(all);
        lemma_sort_unique(all, views(out@), by_name(all));
    }
    out
}

/// Names are ordered by the bytes of their encoding: one comes strictly before another if it is a
/// proper beginning of it, or has the smaller byte at the first place where they differ.
pub proof fn law_first_difference_decides(a: Seq<char>, b: Seq<char>)
    ensures
        text_le(a, b) <==> ({
            let (x, y) = (encode_utf8(a), encode_utf8(b));
            ||| x.is_prefix_of(y)
            ||| exists|i: int|
                {
                    &&& 0 <= i < x.len()
                    &&& i < y.len()
                    &&& x.take(i) == y.take(i)
                    &&& #[trigger] x[i] < y[i]
                }
        }),
{
    lemma_first_difference(encode_utf8(a), encode_utf8(b));
}

proof fn lemma_first_difference(x: Seq<u8>, y: Seq<u8>)
    ensures
        bytes_le(x, y) <==> (x.is_prefix_of(y) || exists|i: int|
            {
                &&& 0 <= i < x.len()
                &&& i < y.len()
                &&& x.take(i) == y.take(i)
                &&& #[trigger] x[i] < y[i]
            }),
    decreases x.len(),
{
    if x.len() == 0 {
        assert(x.is_prefix_of(y));
    } else if y.len() == 0 {
    } else if x[0] != y[0] {
        if x[0] < y[0] {
            assert(x.take(0) =~= y.take(0));
        }
        if exists|i: int| 0 <= i < x.len() && i < y.len() && x.take(i) == y.take(i) && #[trigger] x[i] < y[i] {
            let i = choose|i: int|
                0 <= i < x.len() && i < y.len() && x.take(i) == y.take(i) && #[trigger] x[i] < y[i];
            if i > 0 {
                assert(x.take(i)[0] == y.take(i)[0]);
            }
        }
    } else {
        let (p, q) = (x.drop_first(), y.drop_first());
        lemma_first_difference(p, q);
        if p.is_prefix_of(q) {
            assert(x =~= y.take(x.len() as int)) by {
                assert forall|k: int| 0 <= k < x.len() implies x[k] == y[k] by {
                    if k > 0 {
                        assert(p[k - 1] == q[k - 1]);
                    }
                }
            }
        }
        if x.is_prefix_of(y) {
            assert forall|k: int| 0 <= k < p.len() implies p[k] == q[k] by {
                assert(x[k + 1] == y[k + 1]);
            }
            assert(p =~= q.take(p.len() as int));
        }
        if exists|i: int| 0 <= i < p.len() && i < q.len() && p.take(i) == q.take(i) && #[trigger] p[i] < q[i] {
            let i = choose|i: int|
                0 <= i < p.len() && i < q.len() && p.take(i) == q.take(i) && #[trigger] p[i] < q[i];
            assert(x.take(i + 1) =~= y.take(i + 1)) by {
                assert forall|k: int| 0 <= k < i + 1 implies x[k] == y[k] by {
                    if k > 0 {
                        assert(p.take(i)[k - 1] == q.take(i)[k - 1]);
                    }
                }
            }
            assert(x[i + 1] < y[i + 1]);
        }
        if exists|i: int| 0 <= i < x.len() && i < y.len() && x.take(i) == y.take(i) && #[trigger] x[i] < y[i] {
            let i = choose|i: int|
                0 <= i < x.len() && i < y.len() && x.take(i) == y.take(i) && #[trigger] x[i] < y[i];
            assert(i > 0);
            assert(p.take(i - 1) =~= q.take(i - 1)) by {
                assert forall|k: int| 0 <= k < i - 1 implies p[k] == q[k] by {
                    assert(x.take(i)[k + 1] == y.take(i)[k + 1]);
                }
            }
            assert(p[i - 1] < q[i - 1]);
        }
    }
}

/// Sorting by name keeps every item and adds none; no name comes before an earlier one; and the
/// items of one name keep their order among themselves.
pub proof fn law_stable_sort<T: Named>(items: Seq<T>, n: Seq<char>)
    ensures
        by_name(items).len() == items.len(),
        forall|i: int, j: int|
            0 <= i <= j < by_name(items).len() ==> text_le(
                #[trigger] by_name(items)[i].name(),
                #[trigger] by_name(items)[j].name(),
            ),
        by_name(items).filter(|t: T| t.name() == n) == items.filter(|t: T| t.name() == n),
{
    lemma_by_name(items);
    let having = |t: T| t.name() == n;
    assert(named::<T>(n) =~= having);
    assert(at_name(by_name(items), n) == at_name(items, n));
}

/// Lists are seen item by item, none left out.
pub proof fn law_items_are_seen_whole<T: View>(s: Seq<T>)
    ensures
        views(s).len() == s.len(),
        forall|i: int| 0 <= i < s.len() ==> #[trigger] views(s)[i] == s[i]@,
{
}

} // verus!
