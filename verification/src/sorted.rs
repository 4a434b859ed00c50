//! Maps kept as vectors of `(key, value)` pairs in strictly increasing key
//! order: each key occurs once, and walking the vector visits the keys in
//! order, which is what makes an edit's entity list and a step's collision
//! events come out the same way on every run.

use vstd::prelude::*;

verus! {

/// A key with a total order, given by an integer rank that no two distinct
/// keys share.
pub trait Keyed: Copy + Sized {
    /// The key's place in the order.
    spec fn rank(&self) -> int;

    /// Whether `self` comes before `other`.
    fn precedes(&self, other: &Self) -> (before: bool)
        ensures
            before == (self.rank() < other.rank()),
    ;

    /// Whether `self` and `other` are the same key.
    fn same_key(&self, other: &Self) -> (same: bool)
        ensures
            same == (*self == *other),
    ;

    /// Two keys of the same rank are the same key.
    proof fn lemma_rank_injective(a: Self, b: Self)
        ensures
            a.rank() == b.rank() ==> a == b,
    ;
}

/// Whether the ids of `s` strictly increase, so that each occurs once and the
/// entries are in identity order.
pub open spec fn sorted_keys<K: Keyed, V>(s: Seq<(K, V)>) -> bool {
    forall|i: int, j: int| 0 <= i < j < s.len() ==> s[i].0.rank() < s[j].0.rank()
}

/// Whether some entry of `s` is for `id`.
pub open spec fn has_key<K: Keyed, V>(s: Seq<(K, V)>, id: K) -> bool {
    exists|i: int| 0 <= i < s.len() && s[i].0 == id
}

/// The map `s` describes: each id to its value.
pub open spec fn to_map<K: Keyed, V>(s: Seq<(K, V)>) -> Map<K, V>
    decreases s.len(),
{
    if s.len() == 0 {
        Map::empty()
    } else {
        to_map(s.drop_last()).insert(s.last().0, s.last().1)
    }
}

/// The map of an identity-ordered sequence holds exactly its ids, each with
/// its own value.
pub proof fn lemma_to_map<K: Keyed, V>(s: Seq<(K, V)>)
    requires
        sorted_keys(s),
    ensures
        forall|id: K| #[trigger] to_map(s).dom().contains(id) <==> has_key(s, id),
        forall|i: int| 0 <= i < s.len() ==> #[trigger] to_map(s)[s[i].0] == s[i].1,
    decreases s.len(),
{
    if s.len() > 0 {
        let rest = s.drop_last();
        assert(sorted_keys(rest));
        lemma_to_map(rest);
        assert(to_map(s) == to_map(rest).insert(s.last().0, s.last().1));
        assert forall|id: K| #[trigger] to_map(s).dom().contains(id) <==> has_key(s, id) by {
            if has_key(s, id) {
                let i = choose|i: int| 0 <= i < s.len() && s[i].0 == id;
                if i < s.len() - 1 {
                    assert(rest[i].0 == id);
                    assert(has_key(rest, id));
                    assert(to_map(rest).dom().contains(id));
                }
            }
            if to_map(s).dom().contains(id) && id != s.last().0 {
                assert(to_map(rest).dom().contains(id));
                assert(has_key(rest, id));
                let i = choose|i: int| 0 <= i < rest.len() && rest[i].0 == id;
                assert(s[i].0 == id);
            }
            if id == s.last().0 {
                assert(s[s.len() - 1].0 == id);
            }
        }
        assert forall|i: int| 0 <= i < s.len() implies #[trigger] to_map(s)[s[i].0] == s[i].1 by {
            if i < s.len() - 1 {
                assert(rest[i] == s[i]);
                assert(s[i].0.rank() < s.last().0.rank());
            }
        }
    }
}

/// The map of an identity-ordered sequence has one key per entry.
pub proof fn lemma_to_map_len<K: Keyed, V>(s: Seq<(K, V)>)
    requires
        sorted_keys(s),
    ensures
        to_map(s).dom().finite(),
        to_map(s).dom().len() == s.len(),
    decreases s.len(),
{
    if s.len() > 0 {
        let rest = s.drop_last();
        assert(sorted_keys(rest));
        lemma_to_map_len(rest);
        lemma_to_map(rest);
        if to_map(rest).dom().contains(s.last().0) {
            let i = choose|i: int| 0 <= i < rest.len() && rest[i].0 == s.last().0;
            assert(s[i].0.rank() < s[s.len() - 1].0.rank());
        }
    }
}

/// The position `id` has, or would take, in an identity-ordered `s`.
pub fn position<K: Keyed, V>(s: &Vec<(K, V)>, id: K) -> (p: usize)
    requires
        sorted_keys(s@),
    ensures
        p <= s@.len(),
        forall|i: int| 0 <= i < p ==> s@[i].0.rank() < id.rank(),
        forall|i: int| p <= i < s@.len() ==> s@[i].0.rank() >= id.rank(),
{
    let mut p: usize = 0;
    while p < s.len() && s[p].0.precedes(&id)
        invariant
            p <= s@.len(),
            sorted_keys(s@),
            forall|i: int| 0 <= i < p ==> s@[i].0.rank() < id.rank(),
        decreases s@.len() - p,
    {
        p = p + 1;
    }
    p
}

/// Whether `id` has an entry in the identity-ordered `s`.
pub fn contains_key<K: Keyed, V>(s: &Vec<(K, V)>, id: K) -> (found: bool)
    requires
        sorted_keys(s@),
    ensures
        found == has_key(s@, id),
{
    let p = position(s, id);
    if p < s.len() && s[p].0.same_key(&id) {
        true
    } else {
        proof {
            if has_key(s@, id) {
                let i = choose|i: int| 0 <= i < s@.len() && s@[i].0 == id;
                if p < s@.len() {
                    K::lemma_rank_injective(s@[p as int].0, id);
                }
                if i > p {
                    assert(s@[p as int].0.rank() < s@[i].0.rank());
                }
            }
        }
        false
    }
}

/// Sets the value of `id`, adding an entry for it if it has none.
pub fn insert<K: Keyed, V>(s: &mut Vec<(K, V)>, id: K, value: V)
    requires
        sorted_keys(old(s)@),
    ensures
        sorted_keys(final(s)@),
        to_map(final(s)@) == to_map(old(s)@).insert(id, value),
{
    let p = position(s, id);
    let ghost before = s@;
    if p < s.len() && s[p].0.same_key(&id) {
        s.set(p, (id, value));
    } else {
        s.insert(p, (id, value));
    }
    proof {
        let after = s@;
        if p < before.len() {
            K::lemma_rank_injective(before[p as int].0, id);
        }
        assert(sorted_keys(after));
        lemma_to_map(before);
        lemma_to_map(after);
        assert forall|k: K| #[trigger] to_map(after).dom().contains(k)
            <==> to_map(before).insert(id, value).dom().contains(k) by {
            if k != id && has_key(before, k) {
                let i = choose|i: int| 0 <= i < before.len() && before[i].0 == k;
                if i < p {
                    assert(after[i] == before[i]);
                } else if after.len() == before.len() {
                    assert(after[i] == before[i]);
                } else {
                    assert(after[i + 1] == before[i]);
                }
            }
            if has_key(after, k) {
                let i = choose|i: int| 0 <= i < after.len() && after[i].0 == k;
                if k != id {
                    if i < p {
                        assert(before[i] == after[i]);
                    } else if after.len() == before.len() {
                        assert(before[i] == after[i]);
                    } else {
                        assert(before[i - 1] == after[i]);
                    }
                }
            }
            assert(after[p as int].0 == id);
        }
        assert forall|k: K| #[trigger] to_map(after).dom().contains(k) implies to_map(
            after,
        )[k] == to_map(before).insert(id, value)[k] by {
            let i = choose|i: int| 0 <= i < after.len() && after[i].0 == k;
            if k != id {
                if i < p {
                    assert(before[i] == after[i]);
                } else if after.len() == before.len() {
                    assert(before[i] == after[i]);
                } else {
                    assert(before[i - 1] == after[i]);
                }
            }
        }
        assert(to_map(after) =~= to_map(before).insert(id, value));
    }
}

/// Adds an entry for `id` with `value`, unless it already has one.
pub fn or_insert<K: Keyed, V>(s: &mut Vec<(K, V)>, id: K, value: V)
    requires
        sorted_keys(old(s)@),
    ensures
        sorted_keys(final(s)@),
        has_key(old(s)@, id) ==> final(s)@ == old(s)@,
        !has_key(old(s)@, id) ==> to_map(final(s)@) == to_map(old(s)@).insert(id, value),
{
    if !contains_key(s, id) {
        insert(s, id, value);
    }
}

} // verus!
