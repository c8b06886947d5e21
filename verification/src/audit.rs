//! A run-time test of well-formedness, for callers that cannot prove it.

use crate::components::Components;
use crate::model::WorldView;
use crate::params::{LAST_DAY, START_DAY};
use crate::world::World;
use vstd::prelude::*;

verus! {

/// Whether `c` is the record of an entity without any component.
fn is_blank(c: &Components) -> (b: bool)
    ensures
        b == (*c == Components::absent()),
{
    c.position.is_none() && !c.life.0 && !c.human.0 && c.spawn_date.is_none()
        && c.forage.is_none() && !c.male.0 && !c.female.0 && !c.fertile.0 && c.pregnant.is_none()
        && c.mate.is_none()
}

/// Whether `bucket` holds `e`.
fn holds(bucket: &Vec<usize>, e: usize) -> (b: bool)
    ensures
        b == bucket@.contains(e),
{
    let mut i: usize = 0;
    while i < bucket.len()
        invariant
            i <= bucket.len(),
            forall|j: int| 0 <= j < i ==> bucket@[j] != e,
        decreases bucket.len() - i,
    {
        if bucket[i] == e {
            return true;
        }
        i += 1;
    }
    false
}

/// Whether nothing occurs twice in `list`.
fn distinct(list: &Vec<usize>) -> (b: bool)
    ensures
        b == list@.no_duplicates(),
{
    let mut i: usize = 0;
    while i < list.len()
        invariant
            i <= list.len(),
            forall|k: int, j: int| 0 <= j < k < i ==> list@[j] != list@[k],
        decreases list.len() - i,
    {
        if holds_before(list, i) {
            return false;
        }
        i += 1;
    }
    true
}

/// Whether the element at index `i` of `list` occurs before it.
fn holds_before(list: &Vec<usize>, i: usize) -> (b: bool)
    requires
        i < list.len(),
    ensures
        b == exists|j: int| 0 <= j < i && list@[j] == list@[i as int],
{
    let mut j: usize = 0;
    while j < i
        invariant
            j <= i,
            i < list.len(),
            forall|k: int| 0 <= k < j ==> list@[k] != list@[i as int],
        decreases i - j,
    {
        if list[j] == list[i] {
            return true;
        }
        j += 1;
    }
    false
}

impl World {
    fn shape_is_ok(&self) -> (ok: bool)
        ensures
            ok == self@.shape_ok(),
    {
        let cells = match self.world_width.checked_mul(self.world_height) {
            Some(cells) => cells,
            None => {
                return false;
            },
        };
        cells < usize::MAX && self.store.len() >= 1 && self.parents.len() == self.store.len()
            && self.children.len() == self.store.len() && self.residents.len() == cells + 1
            && START_DAY <= self.day && self.day <= LAST_DAY && is_blank(&self.store[0])
    }

    fn bucket_is_ok(&self, cell: usize) -> (ok: bool)
        requires
            cell < self.residents.len(),
        ensures
            ok == self@.bucket_ok(cell),
    {
        let bucket = &self.residents[cell];
        let mut i: usize = 0;
        while i < bucket.len()
            invariant
                i <= bucket.len(),
                cell < self.residents.len(),
                bucket@ == self@.residents[cell as int],
                forall|k: int| 0 <= k < i ==> self@.resident_ok(cell, #[trigger] bucket@[k]),
                forall|k: int, j: int| 0 <= j < k < i ==> bucket@[j] != bucket@[k],
            decreases bucket.len() - i,
        {
            let e = bucket[i];
            let sound = e < self.store.len() && match self.store[e].position {
                Some(p) => p.0 == cell,
                None => false,
            };
            if !sound {
                return false;
            }
            let mut j: usize = 0;
            while j < i
                invariant
                    j <= i,
                    i < bucket.len(),
                    cell < self.residents.len(),
                    bucket@ == self@.residents[cell as int],
                    e == bucket@[i as int],
                    forall|k: int| 0 <= k < j ==> bucket@[k] != e,
                decreases i - j,
            {
                if bucket[j] == e {
                    return false;
                }
                j += 1;
            }
            i += 1;
        }
        true
    }

    fn record_is_ok(&self, e: usize) -> (ok: bool)
        requires
            e < self.store.len(),
        ensures
            ok == self@.record_ok(e),
    {
        let c = self.store[e];
        let born_in_time = match c.spawn_date {
            Some(d) => d.0 <= self.day,
            None => true,
        };
        !(c.male.0 && c.female.0) && born_in_time && !(c.fertile.0 && c.pregnant.is_some()) && (
        !c.human.0 || (c.life.0 && (c.male.0 || c.female.0) && c.forage.is_none())) && (
        !c.fertile.0 || (c.human.0 && c.female.0)) && (c.pregnant.is_none() || (c.human.0
            && c.female.0 && c.position.is_some()))
    }

    /// Whether all of `list` are identifiers that were issued.
    fn all_issued(&self, list: &Vec<usize>) -> (ok: bool)
        ensures
            ok == forall|i: int| 0 <= i < list@.len() ==> self@.issued(#[trigger] list@[i]),
    {
        let mut i: usize = 0;
        while i < list.len()
            invariant
                i <= list.len(),
                forall|k: int| 0 <= k < i ==> self@.issued(#[trigger] list@[k]),
            decreases list.len() - i,
        {
            if list[i] < 1 || list[i] >= self.store.len() {
                return false;
            }
            i += 1;
        }
        true
    }

    fn lineage_is_ok(&self, e: usize) -> (ok: bool)
        requires
            e < self.parents.len(),
            e < self.children.len(),
        ensures
            ok == self@.lineage_ok(e),
    {
        assert(self@.children[e as int] == self.children@[e as int]@);
        self.parents[e].len() <= 2 && distinct(&self.children[e]) && self.all_issued(
            &self.parents[e],
        ) && self.all_issued(&self.children[e])
    }

    fn mate_is_ok(&self, e: usize) -> (ok: bool)
        requires
            e < self.store.len(),
        ensures
            ok == self@.mate_ok(e),
    {
        let c = self.store[e];
        match c.mate {
            Some(m) => {
                if m < 1 || m >= self.store.len() || m == e || !c.human.0 {
                    return false;
                }
                let other = self.store[m];
                let back = match other.mate {
                    Some(b) => b == e,
                    None => false,
                };
                back && ((c.male.0 && other.female.0) || (c.female.0 && other.male.0))
            },
            None => true,
        }
    }

    fn place_is_ok(&self, e: usize) -> (ok: bool)
        requires
            e < self.store.len(),
        ensures
            ok == self@.placed_ok(e),
    {
        match self.store[e].position {
            Some(p) => 1 <= p.0 && p.0 < self.residents.len() && holds(&self.residents[p.0], e),
            None => true,
        }
    }

    /// Whether the world is well formed. The operations of this library
    /// keep a world well formed; a world whose fields were written from
    /// outside may not be.
    pub fn is_well_formed(&self) -> (ok: bool)
        ensures
            ok == self.wf(),
    {
        if !self.shape_is_ok() {
            return false;
        }
        let mut cell: usize = 0;
        while cell < self.residents.len()
            invariant
                cell <= self.residents.len(),
                forall|c: usize| c < cell ==> #[trigger] self@.bucket_ok(c),
            decreases self.residents.len() - cell,
        {
            if !self.bucket_is_ok(cell) {
                return false;
            }
            cell += 1;
        }
        let mut e: usize = 0;
        while e < self.store.len()
            invariant
                e <= self.store.len(),
                forall|i: usize| i < e ==> #[trigger] self@.placed_ok(i),
                forall|i: usize| i < e ==> #[trigger] self@.record_ok(i),
                forall|i: usize| i < e ==> #[trigger] self@.mate_ok(i),
                forall|i: usize| i < e ==> #[trigger] self@.lineage_ok(i),
                self@.shape_ok(),
            decreases self.store.len() - e,
        {
            if !self.place_is_ok(e) || !self.record_is_ok(e) || !self.mate_is_ok(e)
                || !self.lineage_is_ok(e) {
                return false;
            }
            e += 1;
        }
        true
    }
}

} // verus!
