use vstd::prelude::*;

use crate::search::{first_index, is_first, lemma_first_index_at, lemma_first_index_none};
use crate::{Pole, PoleOrder};

verus! {

/// One directional variant of a bus route, with its ordered stops.
#[derive(Clone, Debug)]
pub struct RoutePattern {
    pub name: String,
    pub kana: Option<String>,
    pub route: String,
    pub pole_order: Vec<PoleOrder>,
    pub direction: String,
    pub note: Option<String>,
    pub operator: String,
    pub pattern: String,
    pub same_as: String,
    pub types: Option<String>,
}

/// Some stop of `poles` has the identifier `id`.
pub open spec fn has_pole_id(poles: Seq<Pole>, id: Seq<char>) -> bool {
    exists|i: int| 0 <= i < poles.len() && (#[trigger] poles[i]).same_as@ == id
}

/// An entry of a pole order that names one of `poles`.
pub open spec fn at_any_pole(poles: Seq<Pole>) -> spec_fn(PoleOrder) -> bool {
    |o: PoleOrder| has_pole_id(poles, o.pole@)
}

/// An entry of a pole order that names the stop `id`.
pub open spec fn at_pole(id: Seq<char>) -> spec_fn(PoleOrder) -> bool {
    |o: PoleOrder| o.pole@ == id
}

/// The index of the first entry of `orders` that names one of `poles`; absent when
/// no entry does, or when that entry's index is not an integer.
pub open spec fn pole_index(orders: Seq<PoleOrder>, poles: Seq<Pole>) -> Option<i64> {
    match first_index(orders, at_any_pole(poles)) {
        Some(k) => orders[k].index,
        None => None,
    }
}

/// The index of the first entry of `orders` that names the stop `id`.
pub open spec fn order_index(orders: Seq<PoleOrder>, id: Seq<char>) -> Option<i64> {
    match first_index(orders, at_pole(id)) {
        Some(k) => orders[k].index,
        None => None,
    }
}

fn contains_pole_id(poles: &[Pole], id: &String) -> (r: bool)
    ensures
        r == has_pole_id(poles@, id@),
{
    let mut i: usize = 0;
    while i < poles.len()
        invariant
            0 <= i <= poles@.len(),
            forall|j: int| 0 <= j < i ==> (#[trigger] poles@[j]).same_as@ != id@,
        decreases poles@.len() - i,
    {
        if poles[i].same_as == *id {
            return true;
        }
        i += 1;
    }
    false
}

impl RoutePattern {
    /// The index, along this pattern, of the first of its stops that is one of `poles`.
    pub fn get_pole_index(&self, poles: &[Pole]) -> (r: Option<i64>)
        ensures
            r == pole_index(self.pole_order@, poles@),
    {
        let ghost p = at_any_pole(poles@);
        let mut i: usize = 0;
        while i < self.pole_order.len()
            invariant
                0 <= i <= self.pole_order@.len(),
                p == at_any_pole(poles@),
                forall|j: int| 0 <= j < i ==> !p(#[trigger] self.pole_order@[j]),
            decreases self.pole_order@.len() - i,
        {
            if contains_pole_id(poles, &self.pole_order[i].pole) {
                proof {
                    assert(is_first(self.pole_order@, p, i as int));
                    lemma_first_index_at(self.pole_order@, p, i as int);
                }
                return self.pole_order[i].index;
            }
            i += 1;
        }
        proof {
            lemma_first_index_none(self.pole_order@, p);
        }
        None
    }

    /// The index, along this pattern, of the stop `id`.
    pub fn index_of(&self, id: &String) -> (r: Option<i64>)
        ensures
            r == order_index(self.pole_order@, id@),
    {
        let ghost p = at_pole(id@);
        let mut i: usize = 0;
        while i < self.pole_order.len()
            invariant
                0 <= i <= self.pole_order@.len(),
                p == at_pole(id@),
                forall|j: int| 0 <= j < i ==> !p(#[trigger] self.pole_order@[j]),
            decreases self.pole_order@.len() - i,
        {
            if self.pole_order[i].pole == *id {
                proof {
                    assert(is_first(self.pole_order@, p, i as int));
                    lemma_first_index_at(self.pole_order@, p, i as int);
                }
                return self.pole_order[i].index;
            }
            i += 1;
        }
        proof {
            lemma_first_index_none(self.pole_order@, p);
        }
        None
    }
}

} // verus!
