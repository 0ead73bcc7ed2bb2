//! The metadata of a book: named values, kept in the order of their names.

use crate::order::{lemma_text_order_total, lemma_text_trichotomy, precedes, text_lt, text_order};
use crate::text::Text;
use vstd::prelude::*;
use vstd::relations::sorted_by;

verus! {

/// The texts of a list of pairs of strings.
pub open spec fn pair_texts(v: Seq<(String, String)>) -> Seq<(Text, Text)> {
    v.map_values(|p: (String, String)| (p.0@, p.1@))
}

/// Whether the names stand in strictly ascending order.
pub open spec fn ascending(pairs: Seq<(Text, Text)>) -> bool {
    forall|i: int, j: int|
        0 <= i < j < pairs.len() ==> text_lt(#[trigger] pairs[i].0, #[trigger] pairs[j].0)
}

/// Whether one of the pairs has the name `k`.
pub open spec fn has_name(pairs: Seq<(Text, Text)>, k: Text) -> bool {
    exists|i: int| 0 <= i < pairs.len() && #[trigger] pairs[i].0 == k
}

/// The map that comes of entering the pairs one after the other: of two values
/// for one name the later stands.
pub open spec fn entered(pairs: Seq<(Text, Text)>) -> Map<Text, Text>
    decreases pairs.len(),
{
    if pairs.len() == 0 {
        Map::empty()
    } else {
        entered(pairs.drop_last()).insert(pairs.last().0, pairs.last().1)
    }
}

/// The names of `m` in ascending order, each with its value.
pub open spec fn sorted_pairs(m: Map<Text, Text>) -> Seq<(Text, Text)> {
    m.dom().to_seq().sort_by(text_order()).map_values(|k: Text| (k, m[k]))
}

/// Where the names are all different, the map holds for each its own value.
pub proof fn lemma_entered_ascending(pairs: Seq<(Text, Text)>)
    requires
        ascending(pairs),
    ensures
        forall|k: Text| #[trigger] entered(pairs).contains_key(k) <==> has_name(pairs, k),
        forall|i: int|
            0 <= i < pairs.len() ==> entered(pairs)[#[trigger] pairs[i].0] == pairs[i].1,
        entered(pairs).dom().finite(),
    decreases pairs.len(),
{
    if pairs.len() > 0 {
        let p = pairs.drop_last();
        lemma_entered_ascending(p);
        assert forall|k: Text| #[trigger]
            entered(pairs).contains_key(k) <==> has_name(pairs, k) by {
            if has_name(p, k) {
                let i = choose|i: int| 0 <= i < p.len() && #[trigger] p[i].0 == k;
                assert(pairs[i].0 == k);
            }
            if k == pairs.last().0 {
                assert(pairs[pairs.len() - 1].0 == k);
            }
            if has_name(pairs, k) && k != pairs.last().0 {
                let i = choose|i: int| 0 <= i < pairs.len() && #[trigger] pairs[i].0 == k;
                assert(p[i].0 == k);
            }
        }
        assert forall|i: int| 0 <= i < pairs.len() implies entered(
            pairs,
        )[#[trigger] pairs[i].0] == pairs[i].1 by {
            if i < p.len() {
                assert(p[i] == pairs[i]);
                lemma_text_trichotomy(pairs[i].0, pairs[pairs.len() - 1].0);
            }
        }
    }
}

/// A list in ascending order is the sorted list of the map that it stands for.
pub proof fn lemma_sorted_pairs(pairs: Seq<(Text, Text)>)
    requires
        ascending(pairs),
    ensures
        sorted_pairs(entered(pairs)) == pairs,
{
    broadcast use vstd::seq_lib::group_to_multiset_ensures;

    let m = entered(pairs);
    lemma_entered_ascending(pairs);
    lemma_text_order_total();
    let names = pairs.map_values(|p: (Text, Text)| p.0);
    let seq = m.dom().to_seq();
    seq.lemma_sort_by_ensures(text_order());
    lemma_to_seq_no_duplicates(m.dom());
    m.dom().lemma_to_seq_to_set_id();
    assert(names.no_duplicates()) by {
        assert forall|i: int, j: int| 0 <= i < names.len() && 0 <= j < names.len() && i
            != j implies names[i] != names[j] by {
            lemma_text_trichotomy(pairs[i].0, pairs[j].0);
            if i < j {
                assert(text_lt(pairs[i].0, pairs[j].0));
            } else {
                assert(text_lt(pairs[j].0, pairs[i].0));
            }
        }
    }
    assert forall|k: Text| names.contains(k) <==> seq.contains(k) by {
        assert(seq.contains(k) <==> seq.to_set().contains(k));
        assert(seq.to_set().contains(k) <==> m.dom().contains(k));
        assert(m.contains_key(k) <==> has_name(pairs, k));
        if has_name(pairs, k) {
            let i = choose|i: int| 0 <= i < pairs.len() && #[trigger] pairs[i].0 == k;
            assert(names[i] == k);
        }
        if names.contains(k) {
            let i = choose|i: int| 0 <= i < names.len() && names[i] == k;
            assert(pairs[i].0 == k);
        }
    }
    assert(names.to_multiset() =~= seq.to_multiset()) by {
        seq.lemma_multiset_has_no_duplicates();
        names.lemma_multiset_has_no_duplicates();
        assert forall|k: Text| names.to_multiset().count(k) == seq.to_multiset().count(k) by {
            assert(names.contains(k) <==> seq.contains(k));
            assert(names.contains(k) <==> names.to_multiset().count(k) > 0);
            assert(seq.contains(k) <==> seq.to_multiset().count(k) > 0);
            if names.contains(k) {
                assert(names.to_multiset().contains(k));
                assert(seq.to_multiset().contains(k));
            }
        }
    }
    assert(sorted_by(names, text_order())) by {
        let r = text_order();
        assert forall|i: int, j: int| 0 <= i < j < names.len() implies #[trigger] r(
            names[i],
            names[j],
        ) by {
            assert(text_lt(pairs[i].0, pairs[j].0));
        }
    }
    vstd::seq_lib::lemma_sorted_unique(names, seq.sort_by(text_order()), text_order());
    let f = |k: Text| (k, m[k]);
    assert forall|i: int| 0 <= i < pairs.len() implies names.map_values(f)[i] == pairs[i] by {
        assert(names[i] == pairs[i].0);
        assert(m[pairs[i].0] == pairs[i].1);
    }
    assert(names.map_values(f) =~= pairs);
}

/// Listing a finite set names each member once.
proof fn lemma_to_seq_no_duplicates(s: Set<Text>)
    requires
        s.finite(),
    ensures
        s.to_seq().no_duplicates(),
    decreases s.len(),
{
    reveal(Set::to_seq);
    if s.len() > 0 {
        let x = s.choose();
        let rest = s.remove(x);
        lemma_to_seq_no_duplicates(rest);
        rest.lemma_to_seq_to_set_id();
        assert(!rest.to_seq().contains(x)) by {
            if rest.to_seq().contains(x) {
                assert(rest.to_seq().to_set().contains(x));
            }
        }
        assert(s.to_seq() == Seq::<Text>::empty().push(x) + rest.to_seq());
    }
}

/// Entering the names and values of a map gives the map.
pub proof fn lemma_entered_sorted(m: Map<Text, Text>)
    requires
        m.dom().finite(),
    ensures
        ascending(sorted_pairs(m)),
        entered(sorted_pairs(m)) == m,
{
    broadcast use vstd::seq_lib::group_to_multiset_ensures;

    let seq = m.dom().to_seq();
    let r = text_order();
    let names = seq.sort_by(r);
    let pairs = sorted_pairs(m);
    lemma_text_order_total();
    seq.lemma_sort_by_ensures(r);
    lemma_to_seq_no_duplicates(m.dom());
    m.dom().lemma_to_seq_to_set_id();
    seq.lemma_multiset_has_no_duplicates();
    names.lemma_multiset_has_no_duplicates_conv();
    assert forall|i: int, j: int| 0 <= i < j < pairs.len() implies text_lt(
        #[trigger] pairs[i].0,
        #[trigger] pairs[j].0,
    ) by {
        assert(r(names[i], names[j]));
        assert(names[i] != names[j]);
    }
    lemma_entered_ascending(pairs);
    assert forall|k: Text| #[trigger] entered(pairs).contains_key(k) <==> m.contains_key(k) by {
        assert(seq.contains(k) <==> seq.to_set().contains(k));
        assert(seq.contains(k) <==> seq.to_multiset().count(k) > 0);
        assert(names.contains(k) <==> names.to_multiset().count(k) > 0);
        if names.contains(k) {
            let i = choose|i: int| 0 <= i < names.len() && names[i] == k;
            assert(pairs[i].0 == k);
        }
        if has_name(pairs, k) {
            let i = choose|i: int| 0 <= i < pairs.len() && #[trigger] pairs[i].0 == k;
            assert(names[i] == k);
        }
    }
    assert forall|k: Text| entered(pairs).contains_key(k) implies #[trigger] entered(pairs)[k]
        == m[k] by {
        let i = choose|i: int| 0 <= i < pairs.len() && #[trigger] pairs[i].0 == k;
        assert(entered(pairs)[pairs[i].0] == pairs[i].1);
    }
    assert(entered(pairs) =~= m);
}

/// Named values of a book. No name occurs twice, and the names are kept in
/// ascending order.
pub struct Metadata {
    entries: Vec<(String, String)>,
}

impl View for Metadata {
    type V = Map<Text, Text>;

    closed spec fn view(&self) -> Map<Text, Text> {
        entered(pair_texts(self.entries@))
    }
}

impl Metadata {
    #[verifier::type_invariant]
    spec fn names_ascend(self) -> bool {
        ascending(pair_texts(self.entries@))
    }

    /// Metadata without any value.
    pub fn new() -> (r: Metadata)
        ensures
            r@ == Map::<Text, Text>::empty(),
    {
        Metadata { entries: Vec::new() }
    }

    /// Sets the value for `name`, in place of the one it had.
    pub fn insert(&mut self, name: String, value: String)
        ensures
            final(self)@ == old(self)@.insert(name@, value@),
    {
        proof {
            use_type_invariant(&*self);
        }
        let mut entries: Vec<(String, String)> = Vec::new();
        std::mem::swap(&mut entries, &mut self.entries);
        let ghost before = pair_texts(entries@);
        let mut i: usize = 0;
        while i < entries.len() && precedes(entries[i].0.as_str(), name.as_str())
            invariant
                i <= entries@.len(),
                before == pair_texts(entries@),
                ascending(before),
                forall|k: int| 0 <= k < i ==> text_lt(#[trigger] before[k].0, name@),
            ensures
                i <= entries@.len(),
                forall|k: int| 0 <= k < i ==> text_lt(#[trigger] before[k].0, name@),
                i < entries@.len() ==> !text_lt(before[i as int].0, name@),
            decreases entries@.len() - i,
        {
            assert(before[i as int].0 == entries@[i as int].0@);
            i += 1;
        }
        let ghost key = name@;
        let ghost val = value@;
        if i < entries.len() && entries[i].0 == name {
            assert(before[i as int].0 == key);
            entries.set(i, (name, value));
            assert(pair_texts(entries@) == before.update(i as int, (key, val)));
            proof {
                lemma_replace(before, i as int, val);
            }
        } else {
            entries.insert(i, (name, value));
            assert(pair_texts(entries@) == before.insert(i as int, (key, val)));
            proof {
                if i < before.len() {
                    assert(before[i as int].0 != key);
                    lemma_text_trichotomy(before[i as int].0, key);
                }
                lemma_insert(before, i as int, key, val);
            }
        }
        self.entries = entries;
    }

    /// The names in ascending order, each with its value.
    pub fn entries(&self) -> (r: &Vec<(String, String)>)
        ensures
            pair_texts(r@) == sorted_pairs(self@),
            ascending(pair_texts(r@)),
            entered(pair_texts(r@)) == self@,
    {
        proof {
            use_type_invariant(self);
            lemma_sorted_pairs(pair_texts(self.entries@));
        }
        &self.entries
    }
}

/// Replacing the value at one place changes the map at that name only.
proof fn lemma_replace(pairs: Seq<(Text, Text)>, i: int, value: Text)
    requires
        ascending(pairs),
        0 <= i < pairs.len(),
    ensures
        ascending(pairs.update(i, (pairs[i].0, value))),
        entered(pairs.update(i, (pairs[i].0, value))) == entered(pairs).insert(pairs[i].0, value),
{
    let key = pairs[i].0;
    let next = pairs.update(i, (key, value));
    assert(ascending(next)) by {
        assert forall|a: int, b: int| 0 <= a < b < next.len() implies text_lt(
            #[trigger] next[a].0,
            #[trigger] next[b].0,
        ) by {
            assert(next[a].0 == pairs[a].0 && next[b].0 == pairs[b].0);
        }
    }
    lemma_entered_ascending(pairs);
    lemma_entered_ascending(next);
    let want = entered(pairs).insert(key, value);
    assert forall|k: Text| #[trigger] entered(next).contains_key(k) <==> want.contains_key(k) by {
        if has_name(next, k) {
            let j = choose|j: int| 0 <= j < next.len() && #[trigger] next[j].0 == k;
            assert(pairs[j].0 == k);
        }
        if has_name(pairs, k) {
            let j = choose|j: int| 0 <= j < pairs.len() && #[trigger] pairs[j].0 == k;
            assert(next[j].0 == k);
        }
        assert(next[i].0 == key);
    }
    assert forall|k: Text| entered(next).contains_key(k) implies #[trigger] entered(next)[k]
        == want[k] by {
        let j = choose|j: int| 0 <= j < next.len() && #[trigger] next[j].0 == k;
        assert(pairs[j].0 == k);
        assert(entered(next)[next[j].0] == next[j].1);
        assert(entered(pairs)[pairs[j].0] == pairs[j].1);
        if k == key {
            assert(entered(next)[next[i].0] == next[i].1);
        }
    }
    assert(entered(next) =~= want);
}

/// Inserting a new name at its place adds it to the map.
proof fn lemma_insert(pairs: Seq<(Text, Text)>, i: int, key: Text, value: Text)
    requires
        ascending(pairs),
        0 <= i <= pairs.len(),
        forall|k: int| 0 <= k < i ==> text_lt(#[trigger] pairs[k].0, key),
        i < pairs.len() ==> text_lt(key, pairs[i].0),
    ensures
        ascending(pairs.insert(i, (key, value))),
        entered(pairs.insert(i, (key, value))) == entered(pairs).insert(key, value),
{
    let next = pairs.insert(i, (key, value));
    lemma_text_order_total();
    let r = text_order();
    assert forall|k: int| i <= k < pairs.len() implies text_lt(key, #[trigger] pairs[k].0) by {
        if k > i {
            assert(text_lt(pairs[i].0, pairs[k].0));
            assert(r(key, pairs[i].0) && r(pairs[i].0, pairs[k].0));
            assert(r(key, pairs[k].0));
            lemma_text_trichotomy(key, pairs[i].0);
            if key == pairs[k].0 {
                lemma_text_trichotomy(pairs[i].0, pairs[k].0);
            }
        }
    }
    assert(ascending(next)) by {
        assert forall|a: int, b: int| 0 <= a < b < next.len() implies text_lt(
            #[trigger] next[a].0,
            #[trigger] next[b].0,
        ) by {
            if b < i {
                assert(next[a] == pairs[a] && next[b] == pairs[b]);
            } else if b == i {
                assert(next[a] == pairs[a]);
            } else if a < i {
                assert(next[a] == pairs[a] && next[b] == pairs[b - 1]);
            } else if a == i {
                assert(next[b] == pairs[b - 1]);
            } else {
                assert(next[a] == pairs[a - 1] && next[b] == pairs[b - 1]);
            }
        }
    }
    lemma_entered_ascending(pairs);
    lemma_entered_ascending(next);
    let want = entered(pairs).insert(key, value);
    assert forall|k: Text| #[trigger] entered(next).contains_key(k) <==> want.contains_key(k) by {
        if has_name(next, k) {
            let j = choose|j: int| 0 <= j < next.len() && #[trigger] next[j].0 == k;
            if j < i {
                assert(pairs[j].0 == k);
            } else if j > i {
                assert(pairs[j - 1].0 == k);
            }
        }
        if has_name(pairs, k) {
            let j = choose|j: int| 0 <= j < pairs.len() && #[trigger] pairs[j].0 == k;
            if j < i {
                assert(next[j].0 == k);
            } else {
                assert(next[j + 1].0 == k);
            }
        }
        assert(next[i].0 == key);
    }
    assert forall|k: Text| entered(next).contains_key(k) implies #[trigger] entered(next)[k]
        == want[k] by {
        let j = choose|j: int| 0 <= j < next.len() && #[trigger] next[j].0 == k;
        assert(entered(next)[next[j].0] == next[j].1);
        if j < i {
            assert(pairs[j] == next[j]);
            assert(text_lt(pairs[j].0, key));
            lemma_text_trichotomy(pairs[j].0, key);
            assert(entered(pairs)[pairs[j].0] == pairs[j].1);
        } else if j > i {
            assert(pairs[j - 1] == next[j]);
            assert(text_lt(key, pairs[j - 1].0));
            lemma_text_trichotomy(pairs[j - 1].0, key);
            assert(entered(pairs)[pairs[j - 1].0] == pairs[j - 1].1);
        }
    }
    assert(entered(next) =~= want);
}

/// Entering one more value sets it for its name, and leaves those of all other
/// names; entering nothing gives nothing.
pub proof fn law_values_are_entered_in_turn(pairs: Seq<(Text, Text)>, name: Text, value: Text)
    ensures
        entered(Seq::empty()) == Map::<Text, Text>::empty(),
        entered(pairs.push((name, value))) == entered(pairs).insert(name, value),
{
    assert(pairs.push((name, value)).drop_last() =~= pairs);
}

/// The list of the names and values of a map holds each of them once, in the
/// order of the names, and nothing else.
pub proof fn law_listed_values_are_those_of_the_map(m: Map<Text, Text>)
    requires
        m.dom().finite(),
    ensures
        forall|i: int, j: int|
            0 <= i < j < sorted_pairs(m).len() ==> text_lt(
                #[trigger] sorted_pairs(m)[i].0,
                #[trigger] sorted_pairs(m)[j].0,
            ),
        forall|k: Text, v: Text| #[trigger]
            sorted_pairs(m).contains((k, v)) <==> m.contains_key(k) && m[k] == v,
{
    lemma_entered_sorted(m);
    let pairs = sorted_pairs(m);
    lemma_entered_ascending(pairs);
    assert forall|k: Text, v: Text| #[trigger] pairs.contains((k, v)) <==> m.contains_key(k) && m[k]
        == v by {
        if pairs.contains((k, v)) {
            let i = choose|i: int| 0 <= i < pairs.len() && pairs[i] == (k, v);
            assert(pairs[i].0 == k);
            assert(has_name(pairs, k));
            assert(entered(pairs)[pairs[i].0] == pairs[i].1);
        }
        if m.contains_key(k) && m[k] == v {
            assert(has_name(pairs, k));
            let i = choose|i: int| 0 <= i < pairs.len() && #[trigger] pairs[i].0 == k;
            assert(entered(pairs)[pairs[i].0] == pairs[i].1);
            assert(pairs[i] == (k, v));
        }
    }
}

} // verus!
