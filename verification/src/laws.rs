//! What holds of every well-formed world, and of every world that a system
//! leaves behind.

use crate::components::{Components, Position};
use crate::model::WorldView;
use vstd::prelude::*;

verus! {

/// Mate links are symmetric: where `a` has the mate `b`, `b` has the mate
/// `a`, and the two are different entities.
pub proof fn lemma_mates_are_mutual(w: WorldView, a: usize, b: usize)
    requires
        w.wf(),
        a < w.store.len(),
        w.store[a as int].mate == Some(b),
    ensures
        w.issued(b),
        a != b,
        w.store[b as int].mate == Some(a),
{
    assert(w.mate_ok(a));
}

/// The spatial index and the positions agree: an entity stands in a cell
/// if and only if that cell is its position, and it stands there once.
pub proof fn lemma_resident_where_positioned(w: WorldView, e: usize, cell: usize)
    requires
        w.wf(),
        e < w.store.len(),
        cell < w.residents.len(),
    ensures
        w.residents[cell as int].contains(e) <==> w.store[e as int].position == Some(
            Position(cell),
        ),
        w.residents[cell as int].no_duplicates(),
{
    assert(w.bucket_ok(cell));
    assert(w.placed_ok(e));
}

/// Nobody is born in the future: the age of an entity is never negative.
pub proof fn lemma_age_is_not_negative(w: WorldView, e: usize)
    requires
        w.wf(),
        e < w.store.len(),
    ensures
        w.age(e) >= 0,
{
    assert(w.record_ok(e));
}

/// Nobody is fertile and pregnant at once.
pub proof fn lemma_fertile_or_pregnant(w: WorldView, e: usize)
    requires
        w.wf(),
        e < w.store.len(),
    ensures
        !(w.store[e as int].fertile.0 && w.store[e as int].pregnant.is_some()),
{
    assert(w.record_ok(e));
}

/// Nobody is male and female at once, and every human is alive, is one of
/// the two and yields no forage.
pub proof fn lemma_one_sex(w: WorldView, e: usize)
    requires
        w.wf(),
        e < w.store.len(),
    ensures
        !(w.store[e as int].male.0 && w.store[e as int].female.0),
        w.store[e as int].human.0 ==> w.store[e as int].life.0 && (w.store[e as int].male.0
            || w.store[e as int].female.0) && w.store[e as int].forage.is_none(),
{
    assert(w.record_ok(e));
}

/// No lineage names an identifier that was not issued, nobody has more
/// than two parents on record, and no child is on record twice.
pub proof fn lemma_lineage_is_issued(w: WorldView, e: usize, i: int)
    requires
        w.wf(),
        e < w.store.len(),
    ensures
        w.parents[e as int].len() <= 2,
        w.children[e as int].no_duplicates(),
        0 <= i < w.parents[e as int].len() ==> w.issued(w.parents[e as int][i]),
        0 <= i < w.children[e as int].len() ==> w.issued(w.children[e as int][i]),
{
    assert(w.lineage_ok(e));
}

/// A new identifier, whether issued alone or with a new person or forage
/// patch, is greater than every identifier issued before it, was not issued
/// before, and leaves the identifiers issued before it in use.
pub proof fn lemma_identifiers_increase(w: WorldView, e: usize, cell: usize, c: Components)
    requires
        w.wf(),
        w.store.len() < usize::MAX,
        w.issued(e),
    ensures
        e < w.store.len(),
        !w.issued(w.store.len() as usize),
        w.created().issued(w.store.len() as usize),
        w.created().issued(e),
        w.created().store.len() == w.store.len() + 1,
        w.spawned(cell, c).issued(w.store.len() as usize),
        w.spawned(cell, c).issued(e),
        w.spawned(cell, c).store.len() == w.store.len() + 1,
{
}

} // verus!
