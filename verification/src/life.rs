//! Conway's Game of Life on the characters of a layer.

use vstd::prelude::*;
use core::ops::{BitOrAssign, IndexMut};
use crate::cell::{Cell, Char};
use crate::coords::{area, lemma_nth_coord_inside, Coord};
use crate::equality::lemma_char_cell_eq;
use crate::grid::{one_if, CountableNeighbors, Grid};
use crate::layer::Layer;

verus! {

/// The character of a living cell, `#`.
pub const ALIVE: u8 = 35;

/// The character of a dead cell, a space.
pub const DEAD: u8 = 32;

/// Whether the cell at `at` lives. No cell outside the layer does.
pub open spec fn lives(layer: &Layer, at: Coord) -> bool {
    layer.lookup(at).ch == ALIVE
}

/// How many of the eight cells around `at` live.
pub open spec fn living_around(layer: &Layer, at: Coord) -> int {
    one_if(lives(layer, at.shifted(0, -1))) + one_if(lives(layer, at.shifted(0, 1))) + one_if(
        lives(layer, at.shifted(1, 0)),
    ) + one_if(lives(layer, at.shifted(-1, 0))) + one_if(lives(layer, at.shifted(1, -1)))
        + one_if(lives(layer, at.shifted(1, 1))) + one_if(lives(layer, at.shifted(-1, 1)))
        + one_if(lives(layer, at.shifted(-1, -1)))
}

/// Whether the cell at `at` lives in the next generation: a dead cell, shown
/// as a space, with exactly three living cells around it comes alive, and a
/// living cell with two or three stays alive. A cell that shows any other
/// character counts as neither and is dead afterwards.
pub open spec fn lives_on(layer: &Layer, at: Coord) -> bool {
    let around = living_around(layer, at);
    (layer.lookup(at).ch == DEAD && around == 3) || (layer.lookup(at).ch == ALIVE && (around == 2
        || around == 3))
}

/// Advances the layer by one generation of the Game of Life. Every cell
/// changes at once, by the cells that lived around it before; only the
/// characters change, to `#` for the living and to a space for the dead.
pub fn update(layer: &mut Layer)
    requires
        old(layer).wf(),
    ensures
        final(layer).wf(),
        final(layer).extent() == old(layer).extent(),
        final(layer).typeface() == old(layer).typeface(),
        final(layer).scaling() == old(layer).scaling(),
        final(layer).placement() == old(layer).placement(),
        forall|c: Coord|
            c.inside(old(layer).extent()) ==> #[trigger] final(layer).lookup(c) == (Cell {
                ch: if lives_on(old(layer), c) {
                    ALIVE
                } else {
                    DEAD
                },
                fg: old(layer).lookup(c).fg,
                bg: old(layer).lookup(c).bg,
            }),
{
    let ghost before = *layer;
    let ghost extent = layer.extent();
    let old_ch = layer.chars();
    let dims = old_ch.size();
    let mut it = dims.into_iter();
    loop
        invariant_except_break
            it.wf(),
            it.extent() == extent,
        invariant
            before.wf(),
            before.extent() == extent,
            layer.wf(),
            layer.extent() == extent,
            layer.typeface() == before.typeface(),
            layer.scaling() == before.scaling(),
            layer.placement() == before.placement(),
            old_ch.wf(),
            old_ch.extent() == extent,
            old_ch.filler() == Char(DEAD),
            forall|c: Coord| c.inside(extent) ==> old_ch.lookup(c) == Char(before.lookup(c).ch),
            forall|c: Coord|
                c.inside(extent) ==> #[trigger] layer.lookup(c) == (if crate::coords::linear_index(
                    extent,
                    c,
                ) < it.position() {
                    Cell {
                        ch: if lives_on(&before, c) {
                            ALIVE
                        } else {
                            DEAD
                        },
                        fg: before.lookup(c).fg,
                        bg: before.lookup(c).bg,
                    }
                } else {
                    before.lookup(c)
                }),
        ensures
            it.position() >= area(extent),
        decreases area(extent) - it.position(),
    {
        let ghost n = it.position();
        match it.next() {
            Some(pt) => {
                proof {
                    lemma_nth_coord_inside(extent, n);
                    lemma_char_cell_eq(Char(ALIVE), Char(ALIVE));
                    assert forall|c: Coord| old_ch.lookup(c).0 == before.lookup(c).ch by {
                        old_ch.lemma_lookup_outside(c);
                        before.lemma_lookup_outside(c);
                    }
                    assert forall|a: Char|
                        crate::equality::cell_eq(&a, &Char(ALIVE)) == (a.0 == ALIVE) by {
                        lemma_char_cell_eq(a, Char(ALIVE));
                    }
                }
                let cell = *old_ch.get(pt).unwrap();
                let neighbor_count = old_ch.neighbors_equal(pt, Char(ALIVE)).count()
                    + old_ch.diagonals_equal(pt, Char(ALIVE)).count();
                assert(neighbor_count == living_around(&before, pt));
                if (cell.0 == DEAD && neighbor_count == 3) || (cell.0 == ALIVE && (neighbor_count
                    == 2 || neighbor_count == 3)) {
                    layer.index_mut(pt).bitor_assign(Char(ALIVE));
                } else {
                    layer.index_mut(pt).bitor_assign(Char(DEAD));
                }
                proof {
                    assert forall|c: Coord| c.inside(extent) implies #[trigger] layer.lookup(c)
                        == (if crate::coords::linear_index(extent, c) < n + 1 {
                        Cell {
                            ch: if lives_on(&before, c) {
                                ALIVE
                            } else {
                                DEAD
                            },
                            fg: before.lookup(c).fg,
                            bg: before.lookup(c).bg,
                        }
                    } else {
                        before.lookup(c)
                    }) by {
                        crate::coords::lemma_linear_index_inside(extent, c);
                        if c != pt {
                            crate::coords::lemma_linear_index_injective(extent, c, pt);
                        }
                    }
                }
            },
            None => {
                break ;
            },
        }
    }
    proof {
        assert forall|c: Coord| c.inside(extent) implies crate::coords::linear_index(extent, c)
            < it.position() by {
            crate::coords::lemma_linear_index_inside(extent, c);
        }
    }
}

} // verus!
