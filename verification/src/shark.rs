//! The predator species: a shark eats a random neighboring fish when one
//! is there, else moves into a random empty neighbor cell; it breeds when
//! its breed countdown is negative and starves when its starve countdown
//! is negative.

use crate::rng::rand_below;
use crate::seq_has_fish;
use crate::Cell;
use crate::Config;
use crate::Coord;
use crate::Decision;
use vstd::prelude::*;

verus! {

/// A shark: a position, a breed countdown and a starve countdown. It
/// breeds when the breed countdown is negative and starves when the
/// starve countdown is negative; eating resets the starve countdown.
#[derive(Clone, Copy, PartialEq, Eq, Structural, Debug)]
pub struct Shark {
    pub coordinate: Coord,
    pub breed_count_down: i32,
    pub starve_count_down: i32,
}

impl Shark {
    /// A fresh shark at `coordinate` with full countdowns.
    pub fn new(coordinate: Coord, config: &Config) -> (r: Shark)
        ensures
            r.coordinate == coordinate,
            r.breed_count_down == config.shark_breed_time,
            r.starve_count_down == config.shark_starve_time,
    {
        Shark {
            coordinate,
            breed_count_down: config.shark_breed_time,
            starve_count_down: config.shark_starve_time,
        }
    }

    /// This shark after one tick's bookkeeping: both countdowns are
    /// decremented unconditionally, saturating at `i32::MIN` (where a
    /// further decrement no longer changes any observable behavior).
    pub open spec fn updated(self) -> Shark {
        Shark {
            breed_count_down: if self.breed_count_down == i32::MIN {
                i32::MIN
            } else {
                (self.breed_count_down - 1) as i32
            },
            starve_count_down: if self.starve_count_down == i32::MIN {
                i32::MIN
            } else {
                (self.starve_count_down - 1) as i32
            },
            ..self
        }
    }

    /// Per-tick countdown bookkeeping.
    pub fn update(&mut self)
        ensures
            *final(self) == old(self).updated(),
    {
        if self.breed_count_down > i32::MIN {
            self.breed_count_down = self.breed_count_down - 1;
        }
        if self.starve_count_down > i32::MIN {
            self.starve_count_down = self.starve_count_down - 1;
        }
    }

    /// Breed: reset this shark's own breed and starve countdowns to
    /// the configured values and return the offspring left behind, a
    /// fresh shark at this shark's coordinate.
    pub fn breed(&mut self, config: &Config) -> (r: Shark)
        ensures
            *final(self) == (Shark {
                coordinate: old(self).coordinate,
                breed_count_down: config.shark_breed_time,
                starve_count_down: config.shark_starve_time,
            }),
            r.coordinate == old(self).coordinate,
            r.breed_count_down == config.shark_breed_time,
            r.starve_count_down == config.shark_starve_time,
    {
        self.breed_count_down = config.shark_breed_time;
        self.starve_count_down = config.shark_starve_time;
        Shark {
            coordinate: self.coordinate,
            breed_count_down: config.shark_breed_time,
            starve_count_down: config.shark_starve_time,
        }
    }

    /// Reset the starve countdown after a meal.
    pub fn reset_starve_count_down(&mut self, config: &Config)
        ensures
            *final(self) == (Shark { starve_count_down: config.shark_starve_time, ..*old(self) }),
    {
        self.starve_count_down = config.shark_starve_time;
    }

    /// The decision this shark takes for a chosen fish-occupied cell:
    /// breed on the way out when the breed countdown is negative.
    pub open spec fn eat_decision_for(self, cell: Cell) -> Decision {
        if self.breed_count_down < 0 {
            Decision::EatAndBreed(self.coordinate, cell.coord_spec())
        } else {
            Decision::EatAndMove(self.coordinate, cell.coord_spec())
        }
    }

    /// The decision this shark takes for a chosen empty cell: breed on
    /// the way out when the breed countdown is negative.
    pub open spec fn move_decision_for(self, cell: Cell) -> Decision {
        if self.breed_count_down < 0 {
            Decision::MoveAndBreed(self.coordinate, cell.coord_spec())
        } else {
            Decision::Move(self.coordinate, cell.coord_spec())
        }
    }

    /// One turn's choice given the neighbor cells of interest (empty or
    /// fish-occupied; sharks never consider other sharks): starve once
    /// the starve countdown has gone negative, else eat a random
    /// neighboring fish, else move onto a random empty neighbor, else
    /// stall.
    pub fn decide(&self, neighbors: &Vec<Cell>) -> (d: Decision)
        requires
            forall|i: int|
                0 <= i < neighbors@.len() ==> (#[trigger] neighbors@[i]).is_empty_spec()
                    || neighbors@[i].is_fish_spec(),
        ensures
            self.starve_count_down < 0 ==> d == Decision::Starve(self.coordinate),
            self.starve_count_down >= 0 && seq_has_fish(neighbors@) ==> exists|i: int|
                0 <= i < neighbors@.len() && (#[trigger] neighbors@[i]).is_fish_spec()
                    && d == self.eat_decision_for(neighbors@[i]),
            self.starve_count_down >= 0 && !seq_has_fish(neighbors@) && neighbors@.len() > 0
                ==> exists|i: int|
                0 <= i < neighbors@.len() && (#[trigger] neighbors@[i]).is_empty_spec()
                    && d == self.move_decision_for(neighbors@[i]),
            self.starve_count_down >= 0 && neighbors@.len() == 0 ==> d == Decision::Stall(
                self.coordinate,
            ),
            d.origin() == self.coordinate,
    {
        if self.starve_count_down < 0 {
            return Decision::Starve(self.coordinate);
        }
        let mut fish_cells: Vec<Cell> = Vec::new();
        let mut i: usize = 0;
        while i < neighbors.len()
            invariant
                0 <= i <= neighbors@.len(),
                forall|j: int|
                    0 <= j < i && (#[trigger] neighbors@[j]).is_fish_spec()
                        ==> fish_cells@.contains(neighbors@[j]),
                forall|k: int|
                    0 <= k < fish_cells@.len() ==> (#[trigger] fish_cells@[k]).is_fish_spec()
                        && neighbors@.contains(fish_cells@[k]),
            decreases neighbors@.len() - i,
        {
            if neighbors[i].is_fish() {
                let ghost prev = fish_cells@;
                fish_cells.push(neighbors[i]);
                proof {
                    assert(fish_cells@.drop_last() =~= prev);
                    assert(neighbors@.contains(neighbors@[i as int]));
                    assert forall|j: int|
                        0 <= j < i + 1 && (#[trigger] neighbors@[j]).is_fish_spec()
                            implies fish_cells@.contains(neighbors@[j]) by {
                        if j == i as int {
                            assert(fish_cells@[fish_cells@.len() - 1] == neighbors@[j]);
                        } else {
                            let k = choose|k: int| 0 <= k < prev.len() && prev[k] == neighbors@[j];
                            assert(fish_cells@[k] == neighbors@[j]);
                        }
                    }
                }
            }
            i = i + 1;
        }
        if fish_cells.len() > 0 {
            let k = rand_below(fish_cells.len());
            let target = fish_cells[k];
            let to = target.to_coord_unchecked();
            proof {
                assert(neighbors@.contains(target));
            }
            if self.breed_count_down < 0 {
                Decision::EatAndBreed(self.coordinate, to)
            } else {
                Decision::EatAndMove(self.coordinate, to)
            }
        } else if neighbors.len() > 0 {
            let k = rand_below(neighbors.len());
            let target = neighbors[k];
            let to = target.to_coord_unchecked();
            proof {
                assert(!target.is_fish_spec());
            }
            if self.breed_count_down < 0 {
                Decision::MoveAndBreed(self.coordinate, to)
            } else {
                Decision::Move(self.coordinate, to)
            }
        } else {
            Decision::Stall(self.coordinate)
        }
    }
}

} // verus!
