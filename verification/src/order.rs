//! Stable ordering of items by text keys, as `sort_by_key` with a `String`
//! key orders them.

use vstd::prelude::*;
use crate::text::{lex_lt, chars_less, lowercase, to_lowercase, chars_of};

verus! {

/// `a` comes no later than `b`.
pub open spec fn lex_le(a: Seq<char>, b: Seq<char>) -> bool {
    !lex_lt(b, a)
}

pub proof fn lemma_lex_irreflexive(a: Seq<char>)
    ensures
        !lex_lt(a, a),
    decreases a.len(),
{
    if a.len() > 0 {
        lemma_lex_irreflexive(a.drop_first());
    }
}

pub proof fn lemma_lex_asymmetric(a: Seq<char>, b: Seq<char>)
    ensures
        lex_lt(a, b) ==> !lex_lt(b, a),
    decreases a.len(),
{
    if a.len() > 0 && b.len() > 0 && a[0] == b[0] {
        lemma_lex_asymmetric(a.drop_first(), b.drop_first());
    }
}

pub proof fn lemma_lex_total(a: Seq<char>, b: Seq<char>)
    ensures
        a == b || lex_lt(a, b) || lex_lt(b, a),
    decreases a.len(),
{
    if a.len() > 0 && b.len() > 0 {
        if a[0] == b[0] {
            lemma_lex_total(a.drop_first(), b.drop_first());
            if a.drop_first() == b.drop_first() {
                assert(a =~= seq![a[0]] + a.drop_first());
                assert(b =~= seq![b[0]] + b.drop_first());
            }
        } else {
        }
    } else if a.len() == 0 && b.len() == 0 {
        assert(a =~= b);
    }
}

pub proof fn lemma_lex_transitive(a: Seq<char>, b: Seq<char>, c: Seq<char>)
    requires
        lex_lt(a, b),
        lex_lt(b, c),
    ensures
        lex_lt(a, c),
    decreases a.len(),
{
    if a.len() > 0 && b.len() > 0 && c.len() > 0 && a[0] == b[0] && b[0] == c[0] {
        lemma_lex_transitive(a.drop_first(), b.drop_first(), c.drop_first());
    }
}

/// The first position in `s` whose key comes strictly after `k`: where a
/// stable sort places a new item with key `k` among the items of `s`.
pub open spec fn insert_pos<T>(s: Seq<(Seq<char>, T)>, k: Seq<char>) -> int
    decreases s.len(),
{
    if s.len() == 0 {
        0
    } else if lex_lt(k, s[0].0) {
        0
    } else {
        1 + insert_pos(s.drop_first(), k)
    }
}

/// The items of `s` stably sorted by their keys: each item in turn is
/// placed after every earlier item whose key does not come after its own.
pub open spec fn sort_keyed<T>(s: Seq<(Seq<char>, T)>) -> Seq<(Seq<char>, T)>
    decreases s.len(),
{
    if s.len() == 0 {
        s
    } else {
        let r = sort_keyed(s.drop_last());
        r.insert(insert_pos(r, s.last().0), s.last())
    }
}

/// The keys of `s` never decrease.
pub open spec fn keys_sorted<T>(s: Seq<(Seq<char>, T)>) -> bool {
    forall|i: int, j: int| 0 <= i < j < s.len() ==> lex_le(#[trigger] s[i].0, #[trigger] s[j].0)
}

pub proof fn lemma_insert_pos<T>(s: Seq<(Seq<char>, T)>, k: Seq<char>)
    ensures
        0 <= insert_pos(s, k) <= s.len(),
        forall|i: int| 0 <= i < insert_pos(s, k) ==> !lex_lt(k, #[trigger] s[i].0),
        insert_pos(s, k) < s.len() ==> lex_lt(k, s[insert_pos(s, k)].0),
    decreases s.len(),
{
    if s.len() > 0 && !lex_lt(k, s[0].0) {
        lemma_insert_pos(s.drop_first(), k);
        assert forall|i: int| 0 <= i < insert_pos(s, k) implies !lex_lt(k, #[trigger] s[i].0) by {
            if i > 0 {
                assert(s[i] == s.drop_first()[i - 1]);
            }
        }
    }
}

pub proof fn lemma_sort_keyed_sorted<T>(s: Seq<(Seq<char>, T)>)
    ensures
        keys_sorted(sort_keyed(s)),
        sort_keyed(s).len() == s.len(),
        sort_keyed(s).to_multiset() == s.to_multiset(),
    decreases s.len(),
{
    broadcast use vstd::seq_lib::to_multiset_insert, vstd::seq_lib::to_multiset_build;

    if s.len() > 0 {
        let r = sort_keyed(s.drop_last());
        let k = s.last().0;
        lemma_sort_keyed_sorted(s.drop_last());
        lemma_insert_pos(r, k);
        let p: int = insert_pos(r, k);
        let n = r.insert(p, s.last());
        assert(s.drop_last().push(s.last()) =~= s);
        assert forall|i: int, j: int| 0 <= i < j < n.len() implies lex_le(
            #[trigger] n[i].0,
            #[trigger] n[j].0,
        ) by {
            if j < p {
                assert(n[i] == r[i] && n[j] == r[j]);
            } else if j == p {
                assert(n[i] == r[i]);
                assert(!lex_lt(k, r[i].0));
            } else if i > p {
                assert(n[i] == r[i - 1] && n[j] == r[j - 1]);
            } else if i == p {
                assert(n[j] == r[j - 1]);
                lemma_lex_total(r[p].0, r[j - 1].0);
                lemma_lex_asymmetric(k, n[j].0);
                if r[p].0 != r[j - 1].0 {
                    assert(lex_lt(r[p].0, r[j - 1].0)) by {
                        if p < j - 1 {
                            assert(lex_le(r[p].0, r[j - 1].0));
                        }
                    }
                    lemma_lex_transitive(k, r[p].0, r[j - 1].0);
                }
                lemma_lex_asymmetric(k, r[j - 1].0);
            } else {
                assert(n[i] == r[i] && n[j] == r[j - 1]);
            }
        }
    }
}

/// The items of `s`, without their keys.
pub open spec fn payloads<T>(s: Seq<(Seq<char>, T)>) -> Seq<T> {
    Seq::new(s.len(), |i: int| s[i].1)
}

/// `s` with `f` applied to each item, keys unchanged.
pub open spec fn map_payload<T, U>(s: Seq<(Seq<char>, T)>, f: spec_fn(T) -> U) -> Seq<
    (Seq<char>, U),
> {
    Seq::new(s.len(), |i: int| (s[i].0, f(s[i].1)))
}

/// Each key in `s` is `key` of its item.
pub open spec fn keyed_by<T>(s: Seq<(Seq<char>, T)>, key: spec_fn(T) -> Seq<char>) -> bool {
    forall|i: int| 0 <= i < s.len() ==> #[trigger] s[i].0 == key(s[i].1)
}

proof fn lemma_insert_pos_map<T, U>(s: Seq<(Seq<char>, T)>, f: spec_fn(T) -> U, k: Seq<char>)
    ensures
        insert_pos(map_payload(s, f), k) == insert_pos(s, k),
    decreases s.len(),
{
    if s.len() > 0 {
        assert(map_payload(s, f).drop_first() =~= map_payload(s.drop_first(), f));
        lemma_insert_pos_map(s.drop_first(), f, k);
    }
}

/// Sorting does not look at the items: changing them before or after
/// sorting gives the same.
pub proof fn lemma_sort_keyed_map<T, U>(s: Seq<(Seq<char>, T)>, f: spec_fn(T) -> U)
    ensures
        sort_keyed(map_payload(s, f)) == map_payload(sort_keyed(s), f),
    decreases s.len(),
{
    if s.len() > 0 {
        let m = map_payload(s, f);
        assert(m.drop_last() =~= map_payload(s.drop_last(), f));
        lemma_sort_keyed_map(s.drop_last(), f);
        let r = sort_keyed(s.drop_last());
        lemma_insert_pos_map(r, f, s.last().0);
        lemma_insert_pos(r, s.last().0);
        assert(map_payload(r, f).insert(insert_pos(r, s.last().0), m.last()) =~= map_payload(
            r.insert(insert_pos(r, s.last().0), s.last()),
            f,
        ));
    }
}

/// Sorting keeps the same items, each as often.
pub proof fn lemma_sort_keyed_payloads<T>(s: Seq<(Seq<char>, T)>)
    ensures
        payloads(sort_keyed(s)).to_multiset() == payloads(s).to_multiset(),
    decreases s.len(),
{
    broadcast use vstd::seq_lib::to_multiset_insert, vstd::seq_lib::to_multiset_build;

    if s.len() > 0 {
        let r = sort_keyed(s.drop_last());
        lemma_sort_keyed_payloads(s.drop_last());
        lemma_insert_pos(r, s.last().0);
        let p: int = insert_pos(r, s.last().0);
        assert(payloads(r.insert(p, s.last())) =~= payloads(r).insert(p, s.last().1));
        assert(payloads(s) =~= payloads(s.drop_last()).push(s.last().1));
    }
}

/// Sorting keeps each item with its own key.
pub proof fn lemma_sort_keyed_keyed_by<T>(s: Seq<(Seq<char>, T)>, key: spec_fn(T) -> Seq<char>)
    requires
        keyed_by(s, key),
    ensures
        keyed_by(sort_keyed(s), key),
    decreases s.len(),
{
    if s.len() > 0 {
        let r = sort_keyed(s.drop_last());
        assert(keyed_by(s.drop_last(), key));
        lemma_sort_keyed_keyed_by(s.drop_last(), key);
        lemma_insert_pos(r, s.last().0);
        let p: int = insert_pos(r, s.last().0);
        let n = r.insert(p, s.last());
        assert forall|i: int| 0 <= i < n.len() implies #[trigger] n[i].0 == key(n[i].1) by {
            if i < p {
                assert(n[i] == r[i]);
            } else if i > p {
                assert(n[i] == r[i - 1]);
            }
        }
    }
}

/// The entries of `s` whose key is `k`, in order.
pub open spec fn with_key<T>(s: Seq<(Seq<char>, T)>, k: Seq<char>) -> Seq<(Seq<char>, T)>
    decreases s.len(),
{
    if s.len() == 0 {
        s
    } else if s.last().0 == k {
        with_key(s.drop_last(), k).push(s.last())
    } else {
        with_key(s.drop_last(), k)
    }
}

proof fn lemma_with_key_none<T>(s: Seq<(Seq<char>, T)>, k: Seq<char>)
    requires
        forall|i: int| 0 <= i < s.len() ==> #[trigger] s[i].0 != k,
    ensures
        with_key(s, k) == Seq::<(Seq<char>, T)>::empty(),
    decreases s.len(),
{
    if s.len() > 0 {
        lemma_with_key_none(s.drop_last(), k);
    }
}

proof fn lemma_with_key_append<T>(a: Seq<(Seq<char>, T)>, b: Seq<(Seq<char>, T)>, k: Seq<char>)
    ensures
        with_key(a + b, k) == with_key(a, k) + with_key(b, k),
    decreases b.len(),
{
    if b.len() == 0 {
        assert(a + b =~= a);
        assert(with_key(a, k) + with_key(b, k) =~= with_key(a, k));
    } else {
        assert((a + b).drop_last() =~= a + b.drop_last());
        lemma_with_key_append(a, b.drop_last(), k);
        if b.last().0 == k {
            assert(with_key(a, k) + with_key(b.drop_last(), k).push(b.last()) =~= (with_key(a, k)
                + with_key(b.drop_last(), k)).push(b.last()));
        }
    }
}

/// Stability: sorting keeps the items of each key in their first order.
pub proof fn lemma_sort_keyed_stable<T>(s: Seq<(Seq<char>, T)>, k: Seq<char>)
    ensures
        with_key(sort_keyed(s), k) == with_key(s, k),
    decreases s.len(),
{
    if s.len() > 0 {
        let r = sort_keyed(s.drop_last());
        let x = s.last();
        lemma_sort_keyed_stable(s.drop_last(), k);
        lemma_sort_keyed_sorted(s.drop_last());
        lemma_insert_pos(r, x.0);
        let p: int = insert_pos(r, x.0);
        let front = r.take(p);
        let back = r.skip(p);
        assert(r =~= front + back);
        assert(r.insert(p, x) =~= front + (seq![x] + back));
        lemma_with_key_append(front, back, k);
        lemma_with_key_append(front, seq![x] + back, k);
        lemma_with_key_append(seq![x], back, k);
        assert(seq![x].drop_last() =~= Seq::<(Seq<char>, T)>::empty());
        if x.0 == k {
            // Every key after the insertion point comes strictly after `k`.
            assert forall|i: int| 0 <= i < back.len() implies #[trigger] back[i].0 != k by {
                assert(back[i] == r[p + i]);
                if i > 0 {
                    assert(lex_le(r[p].0, r[p + i].0));
                    lemma_lex_total(r[p].0, r[p + i].0);
                    if r[p].0 != r[p + i].0 {
                        lemma_lex_transitive(x.0, r[p].0, r[p + i].0);
                    }
                }
                lemma_lex_irreflexive(k);
            }
            lemma_with_key_none(back, k);
            assert(with_key(seq![x], k) =~= seq![x]) by {
                assert(with_key(Seq::<(Seq<char>, T)>::empty(), k) =~= Seq::<(Seq<char>, T)>::empty());
            }
            assert(with_key(r, k) + seq![x] =~= with_key(front, k) + (seq![x] + with_key(back, k)));
        } else {
            assert(with_key(seq![x], k) =~= Seq::<(Seq<char>, T)>::empty()) by {
                assert(with_key(Seq::<(Seq<char>, T)>::empty(), k) =~= Seq::<(Seq<char>, T)>::empty());
            }
            assert(with_key(front, k) + (Seq::<(Seq<char>, T)>::empty() + with_key(back, k)) =~= with_key(front, k) + with_key(back, k));
        }
    }
}

/// Keys with items, keys taken by their characters.
pub open spec fn keyed_view<T>(ps: Seq<(Vec<char>, T)>) -> Seq<(Seq<char>, T)> {
    Seq::new(ps.len(), |i: int| (ps[i].0@, ps[i].1))
}

/// Stably sorts items by their keys.
pub fn sort_keyed_pairs<T>(pairs: Vec<(Vec<char>, T)>) -> (r: Vec<(Vec<char>, T)>)
    ensures
        keyed_view(r@) == sort_keyed(keyed_view(pairs@)),
{
    let ghost orig = keyed_view(pairs@);
    let mut rest = pairs;
    let mut out: Vec<(Vec<char>, T)> = Vec::new();
    let ghost total = orig.len();
    assert(total == rest.len());
    let mut j: usize = 0;
    assert(orig.take(0) =~= Seq::<(Seq<char>, T)>::empty());
    assert(keyed_view(out@) =~= Seq::<(Seq<char>, T)>::empty());
    while rest.len() > 0
        invariant
            j as int + rest.len() == total,
            total == orig.len(),
            total <= usize::MAX,
            keyed_view(rest@) =~= orig.skip(j as int),
            keyed_view(out@) == sort_keyed(orig.take(j as int)),
        decreases rest.len(),
    {
        let ghost before = keyed_view(out@);
        let ghost rest_before = rest@;
        let p = rest.remove(0);
        assert(keyed_view(rest@) =~= orig.skip(j + 1)) by {
            assert forall|t: int| 0 <= t < rest@.len() implies keyed_view(rest@)[t] == orig.skip(
                j + 1,
            )[t] by {
                assert(keyed_view(rest_before)[t + 1] == orig.skip(j as int)[t + 1]);
            }
        }
        let mut i: usize = 0;
        assert(before.skip(0) =~= before);
        while i < out.len() && !chars_less(&p.0, &out[i].0)
            invariant
                i <= out.len(),
                before == keyed_view(out@),
                insert_pos(before, p.0@) == i + insert_pos(before.skip(i as int), p.0@),
            decreases out.len() - i,
        {
            assert(before.skip(i as int)[0] == before[i as int]);
            assert(before.skip(i as int).drop_first() =~= before.skip(i + 1));
            i = i + 1;
        }
        proof {
            if i < out.len() {
                assert(before.skip(i as int)[0] == before[i as int]);
            }
        }
        let ghost item = (p.0@, p.1);
        assert(orig[j as int] == item) by {
            assert(orig.skip(j as int)[0] == orig[j as int]);
        }
        out.insert(i, p);
        assert(keyed_view(out@) =~= before.insert(i as int, item));
        assert(orig.take(j + 1).drop_last() =~= orig.take(j as int));
        assert(orig.take(j + 1).last() == item);
        j = j + 1;
    }
    assert(orig.take(j as int) =~= orig);
    out
}


/// Items that have a name.
pub trait Named {
    /// The item's name.
    spec fn name_of(&self) -> Seq<char>;

    /// The item's name.
    fn name_text(&self) -> (r: &str)
        ensures
            r@ == self.name_of(),
    ;
}

/// Items keyed by their lower-case names.
pub open spec fn by_lower_name<T: Named>(s: Seq<T>) -> Seq<(Seq<char>, T)> {
    Seq::new(s.len(), |i: int| (lowercase(s[i].name_of()), s[i]))
}

/// `s` stably sorted by lower-case name.
pub open spec fn sorted_by_lower_name<T: Named>(s: Seq<T>) -> Seq<T> {
    payloads(sort_keyed(by_lower_name(s)))
}

/// Stably sorts items by lower-case name, as `sort_by_key` with the
/// lower-cased name as key orders them.
pub fn sort_by_lower_name<T: Named>(items: Vec<T>) -> (r: Vec<T>)
    ensures
        r@ == sorted_by_lower_name(items@),
{
    let ghost orig = items@;
    let ghost k = by_lower_name(orig);
    let mut rest = items;
    let mut pairs: Vec<(Vec<char>, T)> = Vec::new();
    while rest.len() > 0
        invariant
            pairs.len() + rest.len() == orig.len(),
            rest@ == orig.skip(pairs.len() as int),
            keyed_view(pairs@) =~= k.take(pairs.len() as int),
            k == by_lower_name(orig),
        decreases rest.len(),
    {
        let ghost before = rest@;
        let g = rest.remove(0);
        assert(g == orig[pairs.len() as int]) by {
            assert(before[0] == orig.skip(pairs.len() as int)[0]);
        }
        assert(rest@ =~= orig.skip(pairs.len() + 1));
        let lower = to_lowercase(g.name_text());
        let key = chars_of(lower.as_str());
        pairs.push((key, g));
    }
    assert(k.take(pairs.len() as int) =~= k);
    let sorted = sort_keyed_pairs(pairs);
    let ghost s = sort_keyed(k);
    let mut rest2 = sorted;
    let mut out: Vec<T> = Vec::new();
    proof {
        lemma_sort_keyed_sorted(k);
    }
    while rest2.len() > 0
        invariant
            out.len() + rest2.len() == s.len(),
            keyed_view(rest2@) =~= s.skip(out.len() as int),
            out@ =~= payloads(s).take(out.len() as int),
        decreases rest2.len(),
    {
        let ghost before = keyed_view(rest2@);
        let p = rest2.remove(0);
        assert(p.1 == s[out.len() as int].1) by {
            assert(before[0] == s.skip(out.len() as int)[0]);
        }
        assert(keyed_view(rest2@) =~= s.skip(out.len() + 1)) by {
            assert forall|t: int| 0 <= t < rest2@.len() implies keyed_view(rest2@)[t] == s.skip(
                out.len() + 1,
            )[t] by {
                assert(before[t + 1] == s.skip(out.len() as int)[t + 1]);
            }
        }
        out.push(p.1);
    }
    out
}

} // verus!
