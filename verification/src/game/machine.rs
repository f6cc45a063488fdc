use vstd::prelude::*;

use super::resource::{Resource, ResourceValuePair};

verus! {

/// The number of item ports and fluid ports of a machine.
#[derive(Debug, Copy, Clone, PartialEq, Eq, Structural)]
pub struct MachineIO {
    pub items: u8,
    pub fluids: u8,
}

/// The words of the textual form of a port count: `items` times `Item`,
/// then `fluids` times `Fluid`.
pub open spec fn port_words(items: nat, fluids: nat) -> Seq<Seq<char>> {
    Seq::new(items + fluids, |i: int| if i < items { "Item"@ } else { "Fluid"@ })
}

/// The parts joined by the separator, as `[a, b].join(", ")` does.
pub open spec fn join_words(parts: Seq<Seq<char>>, sep: Seq<char>) -> Seq<char>
    decreases parts.len(),
{
    if parts.len() == 0 {
        Seq::empty()
    } else if parts.len() == 1 {
        parts[0]
    } else {
        join_words(parts.drop_last(), sep) + sep + parts.last()
    }
}

/// The textual form of a port count, such as `[Item, Item, Fluid]`.
pub open spec fn machine_io_text(items: nat, fluids: nat) -> Seq<char> {
    "["@ + join_words(port_words(items, fluids), ", "@) + "]"@
}

impl MachineIO {
    pub fn new(items: u8, fluids: u8) -> (r: Self)
        ensures
            r.items == items,
            r.fluids == fluids,
    {
        Self { items, fluids }
    }

    pub fn zero() -> (r: Self)
        ensures
            r.items == 0,
            r.fluids == 0,
    {
        Self::new(0, 0)
    }

    /// The number of ports of both kinds.
    pub fn total(&self) -> (r: u8)
        requires
            self.items + self.fluids <= u8::MAX,
        ensures
            r == self.items + self.fluids,
    {
        self.fluids + self.items
    }

    pub fn is_zero(&self) -> (r: bool)
        requires
            self.items + self.fluids <= u8::MAX,
        ensures
            r == (self.items == 0 && self.fluids == 0),
    {
        self.total() == 0
    }

    /// Whether this count exceeds `other` in items or in fluids.
    pub fn is_greater(&self, other: &Self) -> (r: bool)
        ensures
            r == exceeds(*self, *other),
    {
        self.items > other.items || self.fluids > other.fluids
    }

    /// The textual form: `Item` once per item port, then `Fluid` once per
    /// fluid port, separated by `, ` and enclosed in square brackets.
    pub fn to_string(&self) -> (r: String)
        ensures
            r@ == machine_io_text(self.items as nat, self.fluids as nat),
    {
        let items = self.items as usize;
        let total = self.items as usize + self.fluids as usize;
        let ghost words = port_words(self.items as nat, self.fluids as nat);
        let mut text = String::new();
        let mut i: usize = 0;
        while i < total
            invariant
                items == self.items,
                total == self.items + self.fluids,
                words == port_words(self.items as nat, self.fluids as nat),
                i <= total,
                text@ == join_words(words.take(i as int), ", "@),
            decreases total - i,
        {
            let ghost before = text@;
            if i != 0 {
                text.append(", ");
            }
            if i < items {
                text.append("Item");
            } else {
                text.append("Fluid");
            }
            proof {
                let prefix = words.take(i + 1);
                assert(prefix.drop_last() =~= words.take(i as int));
                assert(prefix.last() == words[i as int]);
                if i == 0 {
                    assert(prefix.len() == 1);
                    assert(before =~= Seq::<char>::empty());
                    assert(text@ =~= words[0]);
                } else {
                    assert(text@ =~= before + ", "@ + words[i as int]);
                }
            }
            i = i + 1;
        }
        proof {
            assert(words.take(total as int) =~= words);
        }
        let mut result = String::from_str("[");
        result.append(text.as_str());
        result.append("]");
        result
    }
}

/// The number of fluids among the resources of `pairs`.
pub open spec fn fluid_count<V>(pairs: Seq<ResourceValuePair<V>>) -> nat
    decreases pairs.len(),
{
    if pairs.len() == 0 {
        0
    } else {
        fluid_count(pairs.drop_last()) + if pairs.last().resource is Fluid {
            1nat
        } else {
            0nat
        }
    }
}

/// A prefix of a list has no more fluids, and no more items, than the
/// whole list.
proof fn lemma_fluid_count_prefix<V>(s: Seq<ResourceValuePair<V>>, i: int)
    requires
        0 <= i <= s.len(),
    ensures
        fluid_count(s.take(i)) <= fluid_count(s),
        i - fluid_count(s.take(i)) <= s.len() - fluid_count(s),
        fluid_count(s) <= s.len(),
    decreases s.len(),
{
    if s.len() > 0 {
        if i == s.len() {
            assert(s.take(i) =~= s);
            lemma_fluid_count_prefix(s.drop_last(), i - 1);
        } else {
            assert(s.take(i) =~= s.drop_last().take(i));
            lemma_fluid_count_prefix(s.drop_last(), i);
        }
    }
}

impl MachineIO {
    /// The ports that a list of resources needs: one fluid port per fluid
    /// and one item port per item.
    pub fn from<V>(pairs: &[ResourceValuePair<V>]) -> (r: MachineIO)
        requires
            fluid_count(pairs@) <= u8::MAX,
            pairs@.len() - fluid_count(pairs@) <= u8::MAX,
        ensures
            r.fluids == fluid_count(pairs@),
            r.items + r.fluids == pairs@.len(),
    {
        let mut acc = MachineIO::zero();
        let mut i: usize = 0;
        while i < pairs.len()
            invariant
                i <= pairs@.len(),
                fluid_count(pairs@) <= u8::MAX,
                pairs@.len() - fluid_count(pairs@) <= u8::MAX,
                acc.fluids == fluid_count(pairs@.take(i as int)),
                acc.items + acc.fluids == i,
            decreases pairs.len() - i,
        {
            proof {
                assert(pairs@.take(i + 1).drop_last() =~= pairs@.take(i as int));
                lemma_fluid_count_prefix(pairs@, i + 1);
                lemma_fluid_count_prefix(pairs@.take(i + 1), i as int);
            }
            match pairs[i].resource {
                Resource::Fluid(_) => {
                    acc.fluids = acc.fluids + 1;
                },
                Resource::Item(_) => {
                    acc.items = acc.items + 1;
                },
            }
            i = i + 1;
        }
        proof {
            assert(pairs@.take(i as int) =~= pairs@);
        }
        acc
    }
}

/// Whether `a` has more item ports or more fluid ports than `b`.
pub open spec fn exceeds(a: MachineIO, b: MachineIO) -> bool {
    a.items > b.items || a.fluids > b.fluids
}

/// No port count exceeds itself, and two counts cannot exceed each other
/// in the same kind of port.
pub proof fn lemma_exceeds_irreflexive(a: MachineIO, b: MachineIO)
    ensures
        !exceeds(a, a),
        exceeds(a, b) && exceeds(b, a) ==> (a.items > b.items && b.fluids > a.fluids) || (
        a.fluids > b.fluids && b.items > a.items),
{
}

} // verus!
