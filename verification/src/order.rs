//! The order in which books are listed: by title, then author, then path, each
//! compared character by character; and a merge sort that puts them so.

use crate::text::{texts, Text};
use vstd::prelude::*;
use vstd::relations::{sorted_by, total_ordering};

verus! {

/// Whether `a` comes before `b` in the order of the code charts: at the first
/// place where they differ `a` has the smaller character, or `a` ends there.
pub open spec fn text_lt(a: Text, b: Text) -> bool
    decreases a.len(),
{
    if b.len() == 0 {
        false
    } else if a.len() == 0 {
        true
    } else if a[0] != b[0] {
        (a[0] as int) < (b[0] as int)
    } else {
        text_lt(a.drop_first(), b.drop_first())
    }
}

/// Whether `a` comes before `b` or is the same text.
pub open spec fn text_le(a: Text, b: Text) -> bool {
    a == b || text_lt(a, b)
}

/// `text_le` as a relation.
pub open spec fn text_order() -> spec_fn(Text, Text) -> bool {
    |a: Text, b: Text| text_le(a, b)
}

/// `<` on `str`: strings are ordered by their bytes, which orders them by the
/// positions of their characters in the code charts.
#[verifier::external_body]
pub(crate) fn precedes(a: &str, b: &str) -> (r: bool)
    ensures
        r == text_lt(a@, b@),
{
    a < b
}

/// No text comes before itself.
proof fn lemma_text_irreflexive(a: Text)
    ensures
        !text_lt(a, a),
    decreases a.len(),
{
    if a.len() > 0 {
        lemma_text_irreflexive(a.drop_first());
    }
}

proof fn lemma_text_transitive(a: Text, b: Text, c: Text)
    requires
        text_lt(a, b),
        text_lt(b, c),
    ensures
        text_lt(a, c),
    decreases a.len(),
{
    if a.len() > 0 && a[0] == b[0] && b[0] == c[0] {
        lemma_text_transitive(a.drop_first(), b.drop_first(), c.drop_first());
    }
}

proof fn lemma_text_connected(a: Text, b: Text)
    requires
        a != b,
    ensures
        text_lt(a, b) || text_lt(b, a),
    decreases a.len(),
{
    if a.len() > 0 && b.len() > 0 && a[0] == b[0] {
        if a.drop_first() == b.drop_first() {
            assert(a =~= seq![a[0]] + a.drop_first());
            assert(b =~= seq![b[0]] + b.drop_first());
        }
        lemma_text_connected(a.drop_first(), b.drop_first());
    } else if a.len() == 0 && b.len() == 0 {
        assert(a =~= b);
    }
}

/// Of two texts exactly one of three holds: they are equal, the first comes
/// before the second, or the second before the first.
pub proof fn lemma_text_trichotomy(a: Text, b: Text)
    ensures
        a == b ==> !text_lt(a, b) && !text_lt(b, a),
        a != b ==> text_lt(a, b) != text_lt(b, a),
{
    lemma_text_irreflexive(a);
    if a != b {
        lemma_text_connected(a, b);
        if text_lt(a, b) && text_lt(b, a) {
            lemma_text_transitive(a, b, a);
        }
    }
}

/// The order of texts is a total order.
pub proof fn lemma_text_order_total()
    ensures
        total_ordering(text_order()),
{
    let r = text_order();
    assert forall|x: Text, y: Text| #[trigger] r(x, y) && #[trigger] r(y, x) implies x == y by {
        lemma_text_trichotomy(x, y);
    }
    assert forall|x: Text, y: Text, z: Text| #[trigger]
        r(x, y) && #[trigger] r(y, z) implies r(x, z) by {
        if x != y && y != z {
            lemma_text_transitive(x, y, z);
        }
    }
    assert forall|x: Text, y: Text| #[trigger] r(x, y) || #[trigger] r(y, x) by {
        lemma_text_trichotomy(x, y);
    }
}

/// What a book is listed by, as the contracts see it: its title and its author,
/// both in lowercase, and its path.
pub type Key = (Text, Text, Text);

/// What a book is listed by: its title and its author, both in lowercase, and
/// its path.
pub struct SortKey {
    pub title: String,
    pub author: String,
    pub path: String,
}

impl View for SortKey {
    type V = Key;

    open spec fn view(&self) -> Key {
        (self.title@, self.author@, self.path@)
    }
}

/// The keys that a list of `SortKey` stands for.
pub open spec fn key_views(v: Seq<SortKey>) -> Seq<Key> {
    v.map_values(|k: SortKey| k@)
}

/// Whether `a` is listed before `b`: by title, where the titles are equal by
/// author, and where these are equal too by path.
pub open spec fn key_lt(a: Key, b: Key) -> bool {
    if a.0 != b.0 {
        text_lt(a.0, b.0)
    } else if a.1 != b.1 {
        text_lt(a.1, b.1)
    } else {
        text_lt(a.2, b.2)
    }
}

/// Whether `a` is listed before `b` or is the same key.
pub open spec fn key_le(a: Key, b: Key) -> bool {
    a == b || key_lt(a, b)
}

/// `key_le` as a relation.
pub open spec fn key_order() -> spec_fn(Key, Key) -> bool {
    |a: Key, b: Key| key_le(a, b)
}

proof fn lemma_key_trichotomy(a: Key, b: Key)
    ensures
        a == b ==> !key_lt(a, b) && !key_lt(b, a),
        a != b ==> key_lt(a, b) != key_lt(b, a),
{
    lemma_text_trichotomy(a.0, b.0);
    lemma_text_trichotomy(a.1, b.1);
    lemma_text_trichotomy(a.2, b.2);
}

proof fn lemma_key_transitive(a: Key, b: Key, c: Key)
    requires
        key_lt(a, b),
        key_lt(b, c),
    ensures
        key_lt(a, c),
{
    lemma_text_trichotomy(a.0, b.0);
    lemma_text_trichotomy(a.1, b.1);
    if a.0 != b.0 && b.0 != c.0 {
        lemma_text_transitive(a.0, b.0, c.0);
        lemma_text_irreflexive(a.0);
    } else if a.0 == b.0 && b.0 == c.0 {
        if a.1 != b.1 && b.1 != c.1 {
            lemma_text_transitive(a.1, b.1, c.1);
            lemma_text_irreflexive(a.1);
        } else if a.1 == b.1 && b.1 == c.1 {
            lemma_text_transitive(a.2, b.2, c.2);
        }
    }
}

/// The order of keys is a total order, so a list of keys can be put in order in
/// one way only.
pub proof fn lemma_key_order_total()
    ensures
        total_ordering(key_order()),
{
    let r = key_order();
    assert forall|x: Key, y: Key| #[trigger] r(x, y) && #[trigger] r(y, x) implies x == y by {
        lemma_key_trichotomy(x, y);
    }
    assert forall|x: Key, y: Key, z: Key| #[trigger]
        r(x, y) && #[trigger] r(y, z) implies r(x, z) by {
        if x != y && y != z {
            lemma_key_transitive(x, y, z);
        }
    }
    assert forall|x: Key, y: Key| #[trigger] r(x, y) || #[trigger] r(y, x) by {
        lemma_key_trichotomy(x, y);
    }
}

/// Whether `a` is listed before `b`.
fn key_precedes(a: &SortKey, b: &SortKey) -> (r: bool)
    ensures
        r == key_lt(a@, b@),
{
    if a.title != b.title {
        precedes(a.title.as_str(), b.title.as_str())
    } else if a.author != b.author {
        precedes(a.author.as_str(), b.author.as_str())
    } else {
        precedes(a.path.as_str(), b.path.as_str())
    }
}

/// The keys at the places that `idx` names.
spec fn pick(keys: Seq<Key>, idx: Seq<usize>) -> Seq<Key> {
    idx.map_values(|i: usize| keys[i as int])
}

/// Whether every place that `idx` names is below `n`.
spec fn in_bounds(idx: Seq<usize>, n: nat) -> bool {
    forall|i: int| 0 <= i < idx.len() ==> #[trigger] idx[i] < n
}

/// The next key of a merge keeps the merged list sorted and accounts for the
/// list it was taken from.
proof fn lemma_merge_step(done: Seq<Key>, from: Seq<Key>, other: Seq<Key>, i: int, j: int)
    requires
        0 <= i < from.len(),
        0 <= j <= other.len(),
        sorted_by(done, key_order()),
        sorted_by(from, key_order()),
        sorted_by(other, key_order()),
        forall|k: int, l: int|
            0 <= k < done.len() && i <= l < from.len() ==> key_le(#[trigger] done[k], #[trigger] from[l]),
        forall|k: int, l: int|
            0 <= k < done.len() && j <= l < other.len() ==> key_le(
                #[trigger] done[k],
                #[trigger] other[l],
            ),
        j < other.len() ==> key_le(from[i], other[j]),
        done.to_multiset() == from.take(i).to_multiset().add(other.take(j).to_multiset()),
    ensures
        sorted_by(done.push(from[i]), key_order()),
        forall|k: int, l: int|
            0 <= k <= done.len() && i < l < from.len() ==> key_le(
                #[trigger] done.push(from[i])[k],
                #[trigger] from[l],
            ),
        forall|k: int, l: int|
            0 <= k <= done.len() && j <= l < other.len() ==> key_le(
                #[trigger] done.push(from[i])[k],
                #[trigger] other[l],
            ),
        done.push(from[i]).to_multiset() == from.take(i + 1).to_multiset().add(
            other.take(j).to_multiset(),
        ),
{
    broadcast use vstd::seq_lib::group_to_multiset_ensures;

    lemma_key_order_total();
    let r = key_order();
    let next = done.push(from[i]);
    assert forall|k: int, l: int| 0 <= k < l < next.len() implies #[trigger] r(next[k], next[l]) by {
        if l < done.len() {
            assert(r(done[k], done[l]));
        } else {
            assert(key_le(done[k], from[i]));
        }
    }
    assert forall|k: int, l: int| 0 <= k <= done.len() && i < l < from.len() implies key_le(
        #[trigger] next[k],
        #[trigger] from[l],
    ) by {
        if k == done.len() {
            assert(r(from[i], from[l]));
        } else {
            assert(key_le(done[k], from[l]));
        }
    }
    assert forall|k: int, l: int| 0 <= k <= done.len() && j <= l < other.len() implies key_le(
        #[trigger] next[k],
        #[trigger] other[l],
    ) by {
        if k == done.len() {
            if l > j {
                assert(r(other[j], other[l]));
                assert(r(from[i], other[j]));
            }
            assert(r(from[i], other[l]));
        } else {
            assert(key_le(done[k], other[l]));
        }
    }
    assert(from.take(i + 1) == from.take(i).push(from[i]));
    assert(next.to_multiset() =~= from.take(i + 1).to_multiset().add(other.take(j).to_multiset()));
}

/// Merges two lists of places, each in the order of the keys at its places.
fn merge(keys: &Vec<SortKey>, a: &Vec<usize>, b: &Vec<usize>) -> (r: Vec<usize>)
    requires
        in_bounds(a@, keys@.len()),
        in_bounds(b@, keys@.len()),
        sorted_by(pick(key_views(keys@), a@), key_order()),
        sorted_by(pick(key_views(keys@), b@), key_order()),
    ensures
        in_bounds(r@, keys@.len()),
        sorted_by(pick(key_views(keys@), r@), key_order()),
        pick(key_views(keys@), r@).to_multiset() == pick(key_views(keys@), a@).to_multiset().add(
            pick(key_views(keys@), b@).to_multiset(),
        ),
{
    let ghost kv = key_views(keys@);
    let ghost ka = pick(kv, a@);
    let ghost kb = pick(kv, b@);
    let mut r: Vec<usize> = Vec::new();
    let mut i: usize = 0;
    let mut j: usize = 0;
    proof {
        assert(ka.take(0) == Seq::<Key>::empty());
        assert(kb.take(0) == Seq::<Key>::empty());
        assert(pick(kv, r@) == Seq::<Key>::empty());
        broadcast use vstd::seq_lib::group_to_multiset_ensures;

        assert(Seq::<Key>::empty().to_multiset() =~= Seq::<Key>::empty().to_multiset().add(
            Seq::<Key>::empty().to_multiset(),
        ));
    }
    while i < a.len() || j < b.len()
        invariant
            i <= a@.len(),
            j <= b@.len(),
            kv == key_views(keys@),
            ka == pick(kv, a@),
            kb == pick(kv, b@),
            in_bounds(a@, keys@.len()),
            in_bounds(b@, keys@.len()),
            in_bounds(r@, keys@.len()),
            sorted_by(ka, key_order()),
            sorted_by(kb, key_order()),
            sorted_by(pick(kv, r@), key_order()),
            forall|k: int, l: int|
                0 <= k < r@.len() && i <= l < a@.len() ==> key_le(
                    #[trigger] pick(kv, r@)[k],
                    #[trigger] ka[l],
                ),
            forall|k: int, l: int|
                0 <= k < r@.len() && j <= l < b@.len() ==> key_le(
                    #[trigger] pick(kv, r@)[k],
                    #[trigger] kb[l],
                ),
            pick(kv, r@).to_multiset() == ka.take(i as int).to_multiset().add(
                kb.take(j as int).to_multiset(),
            ),
        decreases a@.len() - i + b@.len() - j,
    {
        let ghost done = pick(kv, r@);
        let take_b = if i >= a.len() {
            true
        } else if j >= b.len() {
            false
        } else {
            key_precedes(&keys[b[j]], &keys[a[i]])
        };
        if take_b {
            proof {
                if i < a@.len() {
                    assert(kb[j as int] == keys@[b@[j as int] as int]@);
                    assert(ka[i as int] == keys@[a@[i as int] as int]@);
                }
                assert(done.to_multiset() =~= kb.take(j as int).to_multiset().add(
                    ka.take(i as int).to_multiset(),
                ));
                lemma_merge_step(done, kb, ka, j as int, i as int);
            }
            r.push(b[j]);
            assert(pick(kv, r@) == done.push(kb[j as int]));
            assert(kb.take(j + 1).to_multiset().add(ka.take(i as int).to_multiset()) =~= ka.take(
                i as int,
            ).to_multiset().add(kb.take(j + 1).to_multiset()));
            j += 1;
        } else {
            proof {
                if j < b@.len() {
                    assert(kb[j as int] == keys@[b@[j as int] as int]@);
                    assert(ka[i as int] == keys@[a@[i as int] as int]@);
                    lemma_key_trichotomy(ka[i as int], kb[j as int]);
                }
                lemma_merge_step(done, ka, kb, i as int, j as int);
            }
            r.push(a[i]);
            assert(pick(kv, r@) == done.push(ka[i as int]));
            i += 1;
        }
    }
    assert(ka.take(ka.len() as int) == ka);
    assert(kb.take(kb.len() as int) == kb);
    r
}

/// The places from `lo` up to `hi`, in the order of the keys there.
fn sort_places(keys: &Vec<SortKey>, lo: usize, hi: usize) -> (r: Vec<usize>)
    requires
        lo <= hi <= keys@.len(),
    ensures
        in_bounds(r@, keys@.len()),
        sorted_by(pick(key_views(keys@), r@), key_order()),
        pick(key_views(keys@), r@).to_multiset() == key_views(keys@).subrange(
            lo as int,
            hi as int,
        ).to_multiset(),
    decreases hi - lo,
{
    let ghost kv = key_views(keys@);
    if hi - lo == 0 {
        let r: Vec<usize> = Vec::new();
        assert(pick(kv, r@) == kv.subrange(lo as int, hi as int));
        r
    } else if hi - lo == 1 {
        let mut r: Vec<usize> = Vec::new();
        r.push(lo);
        assert(pick(kv, r@) == kv.subrange(lo as int, hi as int));
        r
    } else {
        let mid: usize = lo + (hi - lo) / 2;
        let a = sort_places(keys, lo, mid);
        let b = sort_places(keys, mid, hi);
        proof {
            vstd::seq_lib::lemma_multiset_commutative(
                kv.subrange(lo as int, mid as int),
                kv.subrange(mid as int, hi as int),
            );
            assert(kv.subrange(lo as int, mid as int) + kv.subrange(mid as int, hi as int)
                == kv.subrange(lo as int, hi as int));
        }
        merge(keys, &a, &b)
    }
}

/// The paths of `keys`, in the order in which the books are listed.
pub open spec fn listed(keys: Seq<Key>) -> Seq<Text> {
    keys.sort_by(key_order()).map_values(|k: Key| k.2)
}

/// Puts `keys` in order and returns their paths.
pub fn list_in_order(keys: &Vec<SortKey>) -> (r: Vec<String>)
    ensures
        texts(r@) == listed(key_views(keys@)),
{
    let ghost kv = key_views(keys@);
    let places = sort_places(keys, 0, keys.len());
    proof {
        lemma_key_order_total();
        assert(kv.subrange(0, kv.len() as int) == kv);
        kv.lemma_sort_by_ensures(key_order());
        vstd::seq_lib::lemma_sorted_unique(
            pick(kv, places@),
            kv.sort_by(key_order()),
            key_order(),
        );
    }
    let mut r: Vec<String> = Vec::new();
    let mut i: usize = 0;
    while i < places.len()
        invariant
            i <= places@.len(),
            in_bounds(places@, keys@.len()),
            kv == key_views(keys@),
            pick(kv, places@) == kv.sort_by(key_order()),
            texts(r@) == listed(kv).take(i as int),
        decreases places@.len() - i,
    {
        let s = keys[places[i]].path.clone();
        let ghost before = texts(r@);
        r.push(s);
        proof {
            assert(texts(r@) == before.push(s@));
            assert(pick(kv, places@)[i as int] == kv[places@[i as int] as int]);
            assert(listed(kv)[i as int] == s@);
            assert(listed(kv).take(i + 1) == listed(kv).take(i as int).push(s@));
        }
        i += 1;
    }
    assert(pick(kv, places@).len() == places@.len());
    assert(listed(kv).take(listed(kv).len() as int) == listed(kv));
    r
}

/// Two lists that hold the same items equally often still do after the same
/// function was applied to the items of both.
pub proof fn lemma_map_keeps_multiset<A, B>(s: Seq<A>, t: Seq<A>, f: spec_fn(A) -> B)
    requires
        s.to_multiset() == t.to_multiset(),
    ensures
        s.map_values(f).to_multiset() == t.map_values(f).to_multiset(),
    decreases s.len(),
{
    broadcast use vstd::seq_lib::group_to_multiset_ensures;
    broadcast use vstd::multiset::group_multiset_axioms;

    if s.len() == 0 {
        assert(t.to_multiset().len() == 0);
        assert(s.map_values(f) =~= t.map_values(f));
    } else {
        let a = s.last();
        let s1 = s.drop_last();
        assert(s == s1.push(a));
        assert(s.to_multiset().count(a) > 0) by {
            assert(s.contains(a));
        }
        assert(t.contains(a));
        let j = choose|j: int| 0 <= j < t.len() && t[j] == a;
        let t1 = t.remove(j);
        assert(t1.to_multiset() == t.to_multiset().remove(a));
        assert(s1.to_multiset() =~= s.to_multiset().remove(a));
        lemma_map_keeps_multiset(s1, t1, f);
        assert(s.map_values(f) == s1.map_values(f).push(f(a)));
        assert(t.map_values(f).remove(j) =~= t1.map_values(f));
        vstd::seq_lib::to_multiset_remove(t.map_values(f), j);
        assert(t.map_values(f).to_multiset().count(f(a)) > 0) by {
            assert(t.map_values(f)[j] == f(a));
            assert(t.map_values(f).contains(f(a)));
        }
        assert(t.map_values(f).to_multiset() =~= t1.map_values(f).to_multiset().insert(f(a)));
    }
}

/// Listing leaves out no path and adds none: each path occurs as often in the
/// listing as among the keys.
pub proof fn law_listing_is_a_permutation(keys: Seq<Key>)
    ensures
        listed(keys).to_multiset() == keys.map_values(|k: Key| k.2).to_multiset(),
        listed(keys).len() == keys.len(),
{
    lemma_key_order_total();
    keys.lemma_sort_by_ensures(key_order());
    lemma_map_keeps_multiset(keys, keys.sort_by(key_order()), |k: Key| k.2);
    vstd::seq_lib::to_multiset_len(listed(keys));
    vstd::seq_lib::to_multiset_len(keys.map_values(|k: Key| k.2));
}

/// The listing depends only on which keys there are, not on the order in which
/// they are given.
pub proof fn law_listing_is_unique(a: Seq<Key>, b: Seq<Key>)
    requires
        a.to_multiset() == b.to_multiset(),
    ensures
        listed(a) == listed(b),
{
    lemma_key_order_total();
    a.lemma_sort_by_ensures(key_order());
    b.lemma_sort_by_ensures(key_order());
    vstd::seq_lib::lemma_sorted_unique(a.sort_by(key_order()), b.sort_by(key_order()), key_order());
}

/// In a listing, of two books the one with the smaller title comes first; with
/// the same title the one with the smaller author; and with the same author too
/// the one with the smaller path.
pub proof fn law_listed_by_title_author_and_path(keys: Seq<Key>, i: int, j: int)
    requires
        0 <= i < j < keys.len(),
    ensures
        exists|a: Key, b: Key|
            keys.contains(a) && keys.contains(b) && a.2 == listed(keys)[i] && b.2 == listed(keys)[j]
                && (#[trigger] listed_before(a, b) || a == b),
{
    broadcast use vstd::seq_lib::group_to_multiset_ensures;

    let order = key_order();
    let sorted = keys.sort_by(order);
    lemma_key_order_total();
    keys.lemma_sort_by_ensures(order);
    law_listing_is_a_permutation(keys);
    assert(sorted.len() == keys.len());
    assert(order(sorted[i], sorted[j]));
    assert(sorted.contains(sorted[i]) && sorted.contains(sorted[j]));
    assert(sorted.to_multiset().count(sorted[i]) > 0);
    assert(sorted.to_multiset().count(sorted[j]) > 0);
    assert(keys.contains(sorted[i]) && keys.contains(sorted[j]));
    assert(listed_before(sorted[i], sorted[j]) || sorted[i] == sorted[j]);
}

/// Whether `a` comes before `b` by title, then author, then path.
pub open spec fn listed_before(a: Key, b: Key) -> bool {
    ||| text_lt(a.0, b.0)
    ||| a.0 == b.0 && text_lt(a.1, b.1)
    ||| a.0 == b.0 && a.1 == b.1 && text_lt(a.2, b.2)
}

} // verus!
