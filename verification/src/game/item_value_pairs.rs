use vstd::prelude::*;

use super::ItemId;

verus! {

/// The sign of an amount, as the comparisons `< 0`, `== 0` and `> 0` see it.
/// `Unordered` is the sign of an amount that compares as none of these.
#[derive(Debug, Copy, Clone, PartialEq, Eq, Structural)]
pub enum Sign {
    Negative,
    Zero,
    Positive,
    Unordered,
}

/// An amount together with its sign.
#[derive(Debug, Copy, Clone)]
pub struct Amount<A> {
    pub value: A,
    pub sign: Sign,
}

/// An item and an amount of it per minute.
#[derive(Debug, Copy, Clone)]
pub struct ItemPerMinute<A> {
    pub item: ItemId,
    pub amount: A,
}

/// An item named by its key and an amount of it.
#[derive(Debug, Clone)]
pub struct ItemKeyAmountPair<A> {
    pub item: String,
    pub amount: A,
}

impl<A> Amount<A> {
    pub fn new(value: A, sign: Sign) -> (r: Self)
        ensures
            r.value == value,
            r.sign == sign,
    {
        Self { value, sign }
    }
}

impl<A> ItemPerMinute<A> {
    pub fn new(item: ItemId, amount: A) -> (r: Self)
        ensures
            r.item == item,
            r.amount == amount,
    {
        Self { item, amount }
    }
}

impl<A> ItemKeyAmountPair<A> {
    pub fn new(item: String, amount: A) -> (r: Self)
        ensures
            r.item == item,
            r.amount == amount,
    {
        Self { item, amount }
    }

    /// The pair for the given item, named by the item's key.
    pub fn from_item(item: &super::Item, amount: A) -> (r: Self)
        ensures
            r.item@ == item.key@,
            r.amount == amount,
    {
        Self { item: item.key.clone(), amount }
    }
}

} // verus!
