use vstd::prelude::*;

use crate::game::Item;

verus! {

/// A set of resources, one bit per resource item.
#[derive(Debug, Copy, Clone, PartialEq, Eq, Structural, PartialOrd, Ord, Hash)]
pub struct ItemBitSet {
    pub bits: u16,
}

/// The set of the resources of both sets.
pub open spec fn set_union(a: ItemBitSet, b: ItemBitSet) -> ItemBitSet {
    ItemBitSet { bits: a.bits | b.bits }
}

/// Whether every resource of `a` is in `b`.
pub open spec fn set_subset(a: ItemBitSet, b: ItemBitSet) -> bool {
    a.bits & b.bits == a.bits
}

/// Whether one of the sets contains the other.
pub open spec fn comparable(a: ItemBitSet, b: ItemBitSet) -> bool {
    set_subset(a, b) || set_subset(b, a)
}

impl ItemBitSet {
    /// The set of the one resource `item`, by the item's bit mask.
    pub fn new(item: &Item) -> (r: Self)
        requires
            item.bit_mask is Some,
        ensures
            r.bits == item.bit_mask->0,
    {
        match item.bit_mask {
            Some(mask) => ItemBitSet { bits: mask },
            None => {
                proof {
                    assert(false);
                }
                unreached()
            },
        }
    }

    pub fn union(&self, other: &Self) -> (r: Self)
        ensures
            r == set_union(*self, *other),
    {
        ItemBitSet { bits: self.bits | other.bits }
    }

    pub fn is_subset_of(&self, other: &Self) -> (r: bool)
        ensures
            r == set_subset(*self, *other),
    {
        self.bits & other.bits == self.bits
    }
}

/// The sets of `s` kept in order, without those comparable to a set kept
/// before them.
pub open spec fn incomparable_sets(s: Seq<ItemBitSet>) -> Seq<ItemBitSet>
    decreases s.len(),
{
    if s.len() == 0 {
        Seq::empty()
    } else {
        let kept = incomparable_sets(s.drop_last());
        if exists|k: int| 0 <= k < kept.len() && comparable(s.last(), kept[k]) {
            kept
        } else {
            kept.push(s.last())
        }
    }
}

/// The union of each set of `left` with each set of `right`, in order of
/// `left` first.
pub open spec fn all_unions(left: Seq<ItemBitSet>, right: Seq<ItemBitSet>) -> Seq<ItemBitSet>
    decreases left.len(),
{
    if left.len() == 0 {
        Seq::empty()
    } else {
        all_unions(left.drop_last(), right) + right.map_values(|b: ItemBitSet| set_union(left.last(), b))
    }
}

/// The entries of `s` in order, each kept at its first occurrence only.
pub open spec fn first_occurrences(s: Seq<ItemBitSet>) -> Seq<ItemBitSet>
    decreases s.len(),
{
    if s.len() == 0 {
        Seq::empty()
    } else {
        let kept = first_occurrences(s.drop_last());
        if kept.contains(s.last()) {
            kept
        } else {
            kept.push(s.last())
        }
    }
}

/// The combinations of two lists of resource sets: empty when either list
/// is empty, otherwise every union of a set of `left` with a set of
/// `right`, each kept once, in order of first appearance.
pub open spec fn combinations(left: Seq<ItemBitSet>, right: Seq<ItemBitSet>) -> Seq<ItemBitSet> {
    if left.len() == 0 || right.len() == 0 {
        Seq::empty()
    } else {
        first_occurrences(all_unions(left, right))
    }
}

/// The number of resource sets that are not comparable to a set before them.
pub fn count_unique_resources(resource_combinations: &[ItemBitSet]) -> (r: u32)
    ensures
        r == incomparable_sets(resource_combinations@).len() as u32,
{
    if resource_combinations.len() == 0 {
        return 0;
    }
    let mut unique_resources: Vec<ItemBitSet> = Vec::new();
    let mut i: usize = 0;
    while i < resource_combinations.len()
        invariant
            i <= resource_combinations@.len(),
            unique_resources@ == incomparable_sets(resource_combinations@.take(i as int)),
        decreases resource_combinations.len() - i,
    {
        let a = resource_combinations[i];
        let mut found = false;
        let mut j: usize = 0;
        while j < unique_resources.len()
            invariant
                j <= unique_resources@.len(),
                found == exists|k: int| 0 <= k < j && comparable(a, unique_resources@[k]),
            decreases unique_resources.len() - j,
        {
            let b = unique_resources[j];
            if a.is_subset_of(&b) || b.is_subset_of(&a) {
                found = true;
            }
            j = j + 1;
        }
        proof {
            let t = resource_combinations@.take(i + 1);
            assert(t.drop_last() =~= resource_combinations@.take(i as int));
            assert(t.last() == a);
        }
        if !found {
            unique_resources.push(a);
        }
        i = i + 1;
    }
    proof {
        assert(resource_combinations@.take(i as int) =~= resource_combinations@);
    }
    unique_resources.len() as u32
}

/// A copy of the list.
fn copy_sets(sets: &[ItemBitSet]) -> (r: Vec<ItemBitSet>)
    ensures
        r@ == sets@,
{
    let mut r: Vec<ItemBitSet> = Vec::new();
    let mut i: usize = 0;
    while i < sets.len()
        invariant
            i <= sets@.len(),
            r@ == sets@.take(i as int),
        decreases sets.len() - i,
    {
        r.push(sets[i]);
        proof {
            assert(r@ =~= sets@.take(i + 1));
        }
        i = i + 1;
    }
    proof {
        assert(sets@.take(i as int) =~= sets@);
    }
    r
}

/// Whether `x` is in `v`.
fn holds_set(v: &Vec<ItemBitSet>, x: ItemBitSet) -> (r: bool)
    ensures
        r == v@.contains(x),
{
    let mut i: usize = 0;
    while i < v.len()
        invariant
            i <= v@.len(),
            forall|k: int| 0 <= k < i ==> v@[k] != x,
        decreases v.len() - i,
    {
        if v[i] == x {
            return true;
        }
        i = i + 1;
    }
    false
}

/// The resource sets needed when one input needs a set from `left` and
/// another a set from `right`.
pub fn resource_combinations(left: &[ItemBitSet], right: &[ItemBitSet]) -> (r: Vec<ItemBitSet>)
    ensures
        r@ == combinations(left@, right@),
{
    if left.len() == 0 && right.len() == 0 {
        Vec::new()
    } else if right.len() == 0 {
        copy_sets(right)
    } else if left.len() == 0 {
        copy_sets(left)
    } else {
        let mut combinations_found: Vec<ItemBitSet> = Vec::new();
        let mut i: usize = 0;
        while i < left.len()
            invariant
                i <= left@.len(),
                combinations_found@ == first_occurrences(all_unions(left@.take(i as int), right@)),
            decreases left.len() - i,
        {
            let l = left[i];
            let ghost done = all_unions(left@.take(i as int), right@);
            let ghost row = right@.map_values(|b: ItemBitSet| set_union(l, b));
            let mut j: usize = 0;
            while j < right.len()
                invariant
                    j <= right@.len(),
                    l == left@[i as int],
                    row == right@.map_values(|b: ItemBitSet| set_union(l, b)),
                    combinations_found@ == first_occurrences(done + row.take(j as int)),
                decreases right.len() - j,
            {
                let union = l.union(&right[j]);
                proof {
                    assert((done + row.take(j + 1)).drop_last() =~= done + row.take(j as int));
                    assert((done + row.take(j + 1)).last() == union);
                }
                if !holds_set(&combinations_found, union) {
                    combinations_found.push(union);
                }
                j = j + 1;
            }
            proof {
                assert(row.take(j as int) =~= row);
                let t = left@.take(i + 1);
                assert(t.drop_last() =~= left@.take(i as int));
                assert(t.last() == l);
            }
            i = i + 1;
        }
        proof {
            assert(left@.take(i as int) =~= left@);
        }
        combinations_found
    }
}

/// Union is commutative, associative and idempotent; every set is a
/// subset of itself and of its union with another set; a subset of a
/// subset is a subset.
pub proof fn lemma_set_laws(a: ItemBitSet, b: ItemBitSet, c: ItemBitSet)
    ensures
        set_union(a, b) == set_union(b, a),
        set_union(set_union(a, b), c) == set_union(a, set_union(b, c)),
        set_union(a, a) == a,
        set_subset(a, a),
        set_subset(a, set_union(a, b)),
        set_subset(a, b) && set_subset(b, c) ==> set_subset(a, c),
        set_subset(a, b) && set_subset(b, a) ==> a == b,
{
    let (x, y, z) = (a.bits, b.bits, c.bits);
    assert(x | y == y | x) by (bit_vector);
    assert((x | y) | z == x | (y | z)) by (bit_vector);
    assert(x | x == x) by (bit_vector);
    assert(x & x == x) by (bit_vector);
    assert(x & (x | y) == x) by (bit_vector);
    assert(x & y == x && y & z == y ==> x & z == x) by (bit_vector);
    assert(x & y == x && y & x == y ==> x == y) by (bit_vector);
}

/// What `first_occurrences` keeps: no entry twice, and exactly the entries
/// of the list.
proof fn lemma_first_occurrences(s: Seq<ItemBitSet>)
    ensures
        first_occurrences(s).no_duplicates(),
        forall|x: ItemBitSet| first_occurrences(s).contains(x) <==> s.contains(x),
    decreases s.len(),
{
    if s.len() > 0 {
        let rest = s.drop_last();
        lemma_first_occurrences(rest);
        let kept = first_occurrences(rest);
        assert forall|x: ItemBitSet| first_occurrences(s).contains(x) <==> s.contains(x) by {
            if s.contains(x) {
                let i = choose|i: int| 0 <= i < s.len() && s[i] == x;
                if i < s.len() - 1 {
                    assert(rest[i] == x);
                }
            }
            if rest.contains(x) {
                let i = choose|i: int| 0 <= i < rest.len() && rest[i] == x;
                assert(s[i] == x);
            }
            if !kept.contains(s.last()) {
                if first_occurrences(s).contains(x) && x != s.last() {
                    let i = choose|i: int| 0 <= i < first_occurrences(s).len() && first_occurrences(s)[i] == x;
                    assert(kept[i] == x);
                }
                if kept.contains(x) {
                    let i = choose|i: int| 0 <= i < kept.len() && kept[i] == x;
                    assert(first_occurrences(s)[i] == x);
                }
                assert(first_occurrences(s)[kept.len() as int] == s.last());
            }
        }
    }
}

/// The sets of `all_unions`: exactly the unions of a set of `left` with a
/// set of `right`.
proof fn lemma_all_unions(left: Seq<ItemBitSet>, right: Seq<ItemBitSet>, x: ItemBitSet)
    ensures
        all_unions(left, right).contains(x) <==> exists|i: int, j: int|
            0 <= i < left.len() && 0 <= j < right.len() && x == set_union(left[i], right[j]),
    decreases left.len(),
{
    if left.len() > 0 {
        let rest = left.drop_last();
        lemma_all_unions(rest, right, x);
        let row = right.map_values(|b: ItemBitSet| set_union(left.last(), b));
        let u = all_unions(rest, right);
        assert(all_unions(left, right) == u + row);
        if all_unions(left, right).contains(x) {
            let k = choose|k: int| 0 <= k < (u + row).len() && (u + row)[k] == x;
            if k < u.len() {
                assert(u[k] == x);
                let (i, j) = choose|i: int, j: int|
                    0 <= i < rest.len() && 0 <= j < right.len() && x == set_union(rest[i], right[j]);
                assert(left[i] == rest[i]);
            } else {
                assert(row[k - u.len()] == x);
                assert(x == set_union(left[left.len() - 1], right[k - u.len()]));
            }
        }
        if exists|i: int, j: int|
            0 <= i < left.len() && 0 <= j < right.len() && x == set_union(left[i], right[j]) {
            let (i, j) = choose|i: int, j: int|
                0 <= i < left.len() && 0 <= j < right.len() && x == set_union(left[i], right[j]);
            if i < left.len() - 1 {
                assert(rest[i] == left[i]);
                let k = choose|k: int| 0 <= k < u.len() && u[k] == x;
                assert((u + row)[k] == x);
            } else {
                assert((u + row)[u.len() + j] == row[j]);
            }
        }
    }
}

/// The combinations of two non-empty lists hold each union of a set of
/// `left` with a set of `right`, each exactly once, and nothing else; when
/// either list is empty there are none.
pub proof fn lemma_combinations(left: Seq<ItemBitSet>, right: Seq<ItemBitSet>)
    ensures
        combinations(left, right).no_duplicates(),
        forall|x: ItemBitSet|
            #[trigger] combinations(left, right).contains(x) <==> exists|i: int, j: int|
                0 <= i < left.len() && 0 <= j < right.len() && x == set_union(left[i], right[j]),
{
    if left.len() == 0 || right.len() == 0 {
        assert(combinations(left, right) =~= Seq::<ItemBitSet>::empty());
    } else {
        lemma_first_occurrences(all_unions(left, right));
        assert forall|x: ItemBitSet|
            #[trigger] combinations(left, right).contains(x) <==> exists|i: int, j: int|
                0 <= i < left.len() && 0 <= j < right.len() && x == set_union(left[i], right[j]) by {
            lemma_all_unions(left, right, x);
        }
    }
}

/// The sets that `incomparable_sets` keeps come from the list, in order, no
/// two of them comparable, and every set of the list is comparable to one
/// of them.
pub proof fn lemma_incomparable_sets(s: Seq<ItemBitSet>)
    ensures
        incomparable_sets(s).len() <= s.len(),
        forall|k: int|
            0 <= k < incomparable_sets(s).len() ==> s.contains(#[trigger] incomparable_sets(s)[k]),
        forall|k: int, l: int|
            0 <= k < l < incomparable_sets(s).len() ==> !comparable(
                incomparable_sets(s)[l],
                incomparable_sets(s)[k],
            ),
        forall|i: int|
            0 <= i < s.len() ==> exists|k: int|
                0 <= k < incomparable_sets(s).len() && comparable(#[trigger] s[i], incomparable_sets(s)[k]),
    decreases s.len(),
{
    if s.len() > 0 {
        let rest = s.drop_last();
        lemma_incomparable_sets(rest);
        let kept = incomparable_sets(rest);
        let out = incomparable_sets(s);
        assert forall|k: int| 0 <= k < out.len() implies s.contains(#[trigger] out[k]) by {
            if k < kept.len() {
                let i = choose|i: int| 0 <= i < rest.len() && rest[i] == kept[k];
                assert(s[i] == kept[k]);
            } else {
                assert(s[s.len() - 1] == out[k]);
            }
        }
        assert forall|i: int| 0 <= i < s.len() implies exists|k: int|
            0 <= k < out.len() && comparable(#[trigger] s[i], out[k]) by {
            lemma_set_laws(s[i], s[i], s[i]);
            if i < s.len() - 1 {
                assert(rest[i] == s[i]);
                let k = choose|k: int| 0 <= k < kept.len() && comparable(rest[i], kept[k]);
                assert(out[k] == kept[k]);
            } else if exists|k: int| 0 <= k < kept.len() && comparable(s.last(), kept[k]) {
                let k = choose|k: int| 0 <= k < kept.len() && comparable(s.last(), kept[k]);
                assert(out[k] == kept[k]);
            } else {
                assert(out[kept.len() as int] == s[i]);
            }
        }
    }
}

/// The unique resource sets that `count_unique_resources` counts are sets
/// of the list, no one of which is a subset of another, and every set of
/// the list is a subset or a superset of one of them: a set is skipped
/// both when it lies within a kept set and when it contains one.
pub proof fn lemma_unique_resources_law(s: Seq<ItemBitSet>)
    ensures
        forall|k: int| 0 <= k < incomparable_sets(s).len() ==> s.contains(#[trigger] incomparable_sets(s)[k]),
        forall|k: int, l: int|
            #![trigger incomparable_sets(s)[k], incomparable_sets(s)[l]]
            0 <= k < incomparable_sets(s).len() && 0 <= l < incomparable_sets(s).len() && k != l
                ==> !set_subset(incomparable_sets(s)[k], incomparable_sets(s)[l]),
        forall|i: int|
            0 <= i < s.len() ==> exists|k: int|
                0 <= k < incomparable_sets(s).len() && (set_subset(#[trigger] s[i], incomparable_sets(s)[k])
                    || set_subset(incomparable_sets(s)[k], s[i])),
{
    lemma_incomparable_sets(s);
    let kept = incomparable_sets(s);
    assert forall|k: int, l: int|
        #![trigger kept[k], kept[l]]
        0 <= k < kept.len() && 0 <= l < kept.len() && k != l implies !set_subset(kept[k], kept[l]) by {
        if k < l {
            assert(!comparable(kept[l], kept[k]));
        } else {
            assert(!comparable(kept[k], kept[l]));
        }
    }
}

/// Two sets count once when one lies within the other, twice otherwise,
/// whichever order they are listed in.
pub proof fn lemma_unique_resources_pair(a: ItemBitSet, b: ItemBitSet)
    ensures
        incomparable_sets(seq![a, b]).len() == (if set_subset(a, b) || set_subset(b, a) {
            1int
        } else {
            2int
        }),
        incomparable_sets(seq![a, b]).len() == incomparable_sets(seq![b, a]).len(),
{
    let s = seq![a, b];
    let t = seq![b, a];
    assert(s.drop_last() =~= seq![a]);
    assert(t.drop_last() =~= seq![b]);
    assert(seq![a].drop_last() =~= Seq::<ItemBitSet>::empty());
    assert(seq![b].drop_last() =~= Seq::<ItemBitSet>::empty());
    assert(incomparable_sets(Seq::<ItemBitSet>::empty()).len() == 0);
    assert(seq![a].last() == a);
    assert(seq![b].last() == b);
    assert(incomparable_sets(seq![a]) =~= Seq::<ItemBitSet>::empty().push(a));
    assert(incomparable_sets(seq![b]) =~= Seq::<ItemBitSet>::empty().push(b));
    assert(s.last() == b);
    assert(t.last() == a);
    if set_subset(a, b) || set_subset(b, a) {
        assert(comparable(b, seq![a][0]));
        assert(comparable(a, seq![b][0]));
    }
}

} // verus!
