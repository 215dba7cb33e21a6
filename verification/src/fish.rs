//! The prey species: a fish moves into a random empty neighbor cell and
//! breeds when its breed countdown is exactly zero.

use crate::rng::rand_below;
use crate::Cell;
use crate::Config;
use crate::Coord;
use crate::Decision;
use vstd::prelude::*;

verus! {

/// A fish: a position and a breed countdown. It breeds when the
/// countdown is exactly zero; the countdown is reset by `update` when a
/// decrement would take it below zero.
#[derive(Clone, Copy, PartialEq, Eq, Structural, Debug)]
pub struct Fish {
    pub coordinate: Coord,
    pub breed_count_down: i32,
}

impl Fish {
    /// A fresh fish at `coordinate` with a full breed countdown.
    pub fn new(coordinate: Coord, config: &Config) -> (r: Fish)
        ensures
            r.coordinate == coordinate,
            r.breed_count_down == config.fish_breed_time,
    {
        Fish { coordinate, breed_count_down: config.fish_breed_time }
    }

    /// This fish after one tick's bookkeeping: the countdown is reset to
    /// the configured breed time when a decrement would pass below zero,
    /// and otherwise decremented, saturating at `i32::MIN` (where a
    /// further decrement no longer changes any observable behavior).
    pub open spec fn updated(self, config: Config) -> Fish {
        if self.breed_count_down == 0 {
            Fish { breed_count_down: config.fish_breed_time, ..self }
        } else if self.breed_count_down == i32::MIN {
            self
        } else {
            Fish { breed_count_down: (self.breed_count_down - 1) as i32, ..self }
        }
    }

    /// Per-tick countdown bookkeeping.
    pub fn update(&mut self, config: &Config)
        ensures
            *final(self) == old(self).updated(*config),
    {
        if self.breed_count_down == 0 {
            self.breed_count_down = config.fish_breed_time;
        } else if self.breed_count_down > i32::MIN {
            self.breed_count_down = self.breed_count_down - 1;
        }
    }

    /// The offspring left behind on breeding: a fresh fish at this
    /// fish's coordinate (the cell it is about to vacate).
    pub fn breed(&self, config: &Config) -> (r: Fish)
        ensures
            r.coordinate == self.coordinate,
            r.breed_count_down == config.fish_breed_time,
    {
        Fish { coordinate: self.coordinate, breed_count_down: config.fish_breed_time }
    }

    /// The decision this fish takes for a chosen target cell: breed on
    /// the way out when the countdown is exactly zero, else just move.
    pub open spec fn decision_for(self, cell: Cell) -> Decision {
        if self.breed_count_down == 0 {
            Decision::MoveAndBreed(self.coordinate, cell.coord_spec())
        } else {
            Decision::Move(self.coordinate, cell.coord_spec())
        }
    }

    /// One turn's choice given the empty neighbor cells: stall when
    /// boxed in, else move (and breed when due) onto one of them,
    /// picked at random.
    pub fn decide(&self, neighbors: &Vec<Cell>) -> (d: Decision)
        requires
            forall|i: int| 0 <= i < neighbors@.len() ==> (#[trigger] neighbors@[i]).is_empty_spec(),
        ensures
            neighbors@.len() == 0 ==> d == Decision::Stall(self.coordinate),
            neighbors@.len() > 0 ==> exists|i: int|
                0 <= i < neighbors@.len() && d == self.decision_for(#[trigger] neighbors@[i]),
            d.origin() == self.coordinate,
    {
        if neighbors.len() == 0 {
            Decision::Stall(self.coordinate)
        } else {
            let idx = rand_below(neighbors.len());
            let to = neighbors[idx].to_coord_unchecked();
            if self.breed_count_down == 0 {
                Decision::MoveAndBreed(self.coordinate, to)
            } else {
                Decision::Move(self.coordinate, to)
            }
        }
    }
}

} // verus!
