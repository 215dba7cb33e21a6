//! The simulation orchestrator: owns the configuration and the board,
//! exposes the tick and the two population-seeding operations.

use crate::environment::count_agents;
use crate::environment::count_kind;
use crate::environment::lemma_count_kind_empty;
use crate::environment::lemma_count_kind_update;
use crate::environment::lemma_count_agents_zero;
use crate::environment::Environment;
use crate::fish::Fish;
use crate::rng::rand_below;
use crate::rng::shuffle_in_place;
use crate::shark::Shark;
use crate::trace::TickTrace;
use crate::Agent;
use crate::Cell;
use crate::AgentKind;
use crate::Config;
use crate::Coord;
use crate::SeedError;
use vstd::prelude::*;

verus! {

/// The cell a seeding operation writes when it places a fish at flat
/// index `i`: a fresh fish at that cell's coordinate.
pub open spec fn fresh_fish_cell(config: Config, i: int) -> Cell {
    Cell::Filled(
        Agent::Fish(
            Fish {
                coordinate: crate::coord_of_index(config, i),
                breed_count_down: config.fish_breed_time,
            },
        ),
    )
}

/// The cell a seeding operation writes when it places a shark at flat
/// index `i`: a fresh shark at that cell's coordinate.
pub open spec fn fresh_shark_cell(config: Config, i: int) -> Cell {
    Cell::Filled(
        Agent::Shark(
            Shark {
                coordinate: crate::coord_of_index(config, i),
                breed_count_down: config.shark_breed_time,
                starve_count_down: config.shark_starve_time,
            },
        ),
    )
}

/// Seeding only fills empty cells, and only with fresh agents: a cell
/// that differs from before was empty and now holds a fresh fish or
/// shark at its own coordinate.
pub open spec fn seeded_freshly(config: Config, before: Seq<Cell>, after: Seq<Cell>) -> bool {
    forall|i: int|
        0 <= i < before.len() && (#[trigger] after[i]) != before[i] ==> before[i].is_empty_spec()
            && (after[i] == fresh_fish_cell(config, i) || after[i] == fresh_shark_cell(config, i))
}

/// Freshness survives one more placement of a fresh agent into an
/// empty cell.
pub proof fn lemma_seeded_freshly_step(
    config: Config,
    before: Seq<Cell>,
    mid: Seq<Cell>,
    after: Seq<Cell>,
    i: int,
    c: Cell,
)
    requires
        seeded_freshly(config, before, mid),
        before.len() == mid.len(),
        0 <= i < mid.len(),
        mid[i].is_empty_spec(),
        c == fresh_fish_cell(config, i) || c == fresh_shark_cell(config, i),
        after == mid.update(i, c),
    ensures
        seeded_freshly(config, before, after),
{
    assert forall|j: int|
        0 <= j < before.len() && (#[trigger] after[j]) != before[j]
            implies before[j].is_empty_spec() && (after[j] == fresh_fish_cell(config, j)
            || after[j] == fresh_shark_cell(config, j)) by {
        if j != i {
            assert(after[j] == mid[j]);
        } else {
            if mid[j] == before[j] {
            } else {
                assert(before[j].is_empty_spec());
            }
        }
    }
}

/// The simulation: configuration fixed at construction, one board.
pub struct Sma {
    pub environment: Environment,
}

impl Sma {
    /// The simulation is well-formed when its board is.
    pub open spec fn wf(self) -> bool {
        self.environment.wf()
    }

    /// A fresh simulation on an empty board of the given extent, with
    /// the given species timers and boundary policy.
    pub fn new(
        width: i32,
        height: i32,
        fish_breed_time: i32,
        shark_breed_time: i32,
        shark_starve_time: i32,
        borderless: bool,
    ) -> (r: Sma)
        requires
            1 <= width,
            1 <= height,
            width * height <= i32::MAX,
        ensures
            r.wf(),
            r.environment.config == (Config {
                width,
                height,
                fish_breed_time,
                shark_breed_time,
                shark_starve_time,
                borderless,
            }),
            forall|i: int|
                0 <= i < r.environment.board@.len() ==> (
                #[trigger] r.environment.board@[i]).is_empty_spec(),
            count_agents(r.environment.board@) == 0,
    {
        let config = Config {
            width,
            height,
            fish_breed_time,
            shark_breed_time,
            shark_starve_time,
            borderless,
        };
        Sma { environment: Environment::new(config) }
    }

    /// Advance the simulation by one tick and report the tick's births
    /// and deaths. The guarantees are `Environment::update_all`'s: the
    /// grid invariant is preserved; each species count moves by exactly
    /// its reported births minus its reported deaths; every shark
    /// already starving when the tick began dies during it; and the
    /// first agent in scan order is forced to act (a fish due to breed
    /// beside an empty cell yields a fish birth, a live shark beside a
    /// fish yields a fish death).
    pub fn tick(&mut self) -> (trace: TickTrace)
        requires
            old(self).wf(),
        ensures
            final(self).wf(),
            final(self).environment.config == old(self).environment.config,
            trace.fish_birth >= 0 && trace.shark_birth >= 0,
            trace.fish_death >= 0 && trace.shark_death >= 0,
            count_agents(final(self).environment.board@) == count_agents(
                old(self).environment.board@,
            ) + trace.births() - trace.deaths(),
            count_kind(final(self).environment.board@, AgentKind::Fish) == count_kind(
                old(self).environment.board@,
                AgentKind::Fish,
            ) + trace.fish_birth - trace.fish_death,
            count_kind(final(self).environment.board@, AgentKind::Shark) == count_kind(
                old(self).environment.board@,
                AgentKind::Shark,
            ) + trace.shark_birth - trace.shark_death,
            trace.shark_death >= crate::environment::count_starving(old(self).environment.board@),
            ({
                let b = old(self).environment.board@;
                let i0 = crate::environment::first_occupied_from(b, 0);
                &&& i0 < b.len()
                &&& b[i0] is Filled
                &&& b[i0]->Filled_0 is Fish
                &&& b[i0]->Filled_0->Fish_0.breed_count_down == 0
                &&& old(self).environment.has_empty_neighbor(b[i0].coord_spec())
            }) ==> trace.fish_birth >= 1,
            ({
                let b = old(self).environment.board@;
                let i0 = crate::environment::first_occupied_from(b, 0);
                &&& i0 < b.len()
                &&& b[i0] is Filled
                &&& b[i0]->Filled_0 is Shark
                &&& b[i0]->Filled_0->Shark_0.starve_count_down >= 0
                &&& old(self).environment.has_fish_neighbor(b[i0].coord_spec())
            }) ==> trace.fish_death >= 1,
    {
        self.environment.update_all()
    }

    /// Seed the board uniformly: shuffle all cell indices and assign
    /// the first `fish_number` of them to fresh fish and the next
    /// `shark_number` to fresh sharks. Fails, placing nothing, exactly
    /// when the requested populations do not fit on the board; on an
    /// initially empty board it places exactly the requested counts.
    pub fn gen_agents(&mut self, fish_number: u32, shark_number: u32) -> (r: Result<
        (),
        SeedError,
    >)
        requires
            old(self).wf(),
        ensures
            final(self).wf(),
            final(self).environment.config == old(self).environment.config,
            (fish_number + shark_number > old(self).environment.config.size()) <==> r is Err,
            r is Err ==> r == Result::<(), SeedError>::Err(SeedError::InsufficientCapacity)
                && *final(self) == *old(self),
            r is Ok ==> seeded_freshly(
                old(self).environment.config,
                old(self).environment.board@,
                final(self).environment.board@,
            ),
            r is Ok ==> count_agents(final(self).environment.board@) <= count_agents(
                old(self).environment.board@,
            ) + fish_number + shark_number,
            r is Ok && count_agents(old(self).environment.board@) == 0 ==> count_agents(
                final(self).environment.board@,
            ) == fish_number + shark_number && count_kind(
                final(self).environment.board@,
                AgentKind::Fish,
            ) == fish_number && count_kind(
                final(self).environment.board@,
                AgentKind::Shark,
            ) == shark_number,
    {
        let config = self.environment.config;
        proof {
            assert(0 <= config.width * config.height) by (nonlinear_arith)
                requires
                    1 <= config.width,
                    1 <= config.height,
            ;
        }
        let size = config.width * config.height;
        if (fish_number as u64) + (shark_number as u64) > (size as u64) {
            return Err(SeedError::InsufficientCapacity);
        }
        let ghost count0 = count_agents(self.environment.board@);
        let ghost all_empty = forall|i: int|
            0 <= i < old(self).environment.board@.len() ==> (
            #[trigger] old(self).environment.board@[i]).is_empty_spec();
        proof {
            lemma_count_agents_zero(self.environment.board@);
        }
        let mut indices: Vec<i32> = Vec::new();
        let mut idx: i32 = 0;
        while idx < size
            invariant
                0 <= idx <= size,
                indices@.len() == idx,
                forall|j: int| 0 <= j < idx ==> #[trigger] indices@[j] == j,
            decreases size - idx,
        {
            indices.push(idx);
            idx = idx + 1;
        }
        let ghost orig = indices@;
        shuffle_in_place(&mut indices);
        proof {
            broadcast use vstd::seq_lib::group_to_multiset_ensures;

            assert(orig.no_duplicates());
            orig.lemma_multiset_has_no_duplicates();
            indices@.lemma_multiset_has_no_duplicates_conv();
            assert forall|k: int| 0 <= k < indices@.len() implies 0 <= #[trigger] indices@[k]
                < config.size() by {
                assert(indices@.contains(indices@[k]));
                assert(orig.to_multiset().count(indices@[k]) > 0);
                assert(orig.contains(indices@[k]));
                let j = choose|j: int| 0 <= j < orig.len() && orig[j] == indices@[k];
                assert(orig[j] == j);
            }
        }
        proof {
            if all_empty {
                lemma_count_kind_empty(self.environment.board@, AgentKind::Fish);
                lemma_count_kind_empty(self.environment.board@, AgentKind::Shark);
            }
        }
        let mut placed: u32 = 0;
        while placed < fish_number
            invariant
                self.environment.wf(),
                self.environment.config == config,
                config.wf(),
                old(self).environment.board@.len() == config.size(),
                fish_number + shark_number <= config.size(),
                0 <= placed <= fish_number,
                indices@.len() == config.size() - placed,
                indices@.no_duplicates(),
                forall|k: int| 0 <= k < indices@.len() ==> 0 <= #[trigger] indices@[k]
                    < config.size(),
                count_agents(self.environment.board@) <= count0 + placed,
                seeded_freshly(config, old(self).environment.board@, self.environment.board@),
                all_empty ==> count_agents(self.environment.board@) == count0 + placed
                    && count_kind(self.environment.board@, AgentKind::Fish) == placed
                    && count_kind(self.environment.board@, AgentKind::Shark) == 0
                    && (forall|k: int|
                    0 <= k < indices@.len() ==> (#[trigger] self.environment.board@[indices@[k] as int]).is_empty_spec()),
            decreases fish_number - placed,
        {
            let ghost prev_indices = indices@;
            let idx_opt = indices.pop();
            let target = match idx_opt {
                Some(v) => v,
                None => {
                    proof {
                        assert(false);
                    }
                    0
                },
            };
            let coordinate = Coord::from_idx(target, &config);
            let f = Fish::new(coordinate, &config);
            let ghost prev_board = self.environment.board@;
            self.environment.add_agent(Agent::Fish(f));
            proof {
                if prev_board[target as int].is_empty_spec() {
                    lemma_seeded_freshly_step(
                        config,
                        old(self).environment.board@,
                        prev_board,
                        self.environment.board@,
                        target as int,
                        Cell::Filled(Agent::Fish(f)),
                    );
                }
                if all_empty {
                    assert(prev_board[target as int].is_empty_spec());
                    lemma_count_kind_update(
                        prev_board,
                        target as int,
                        Cell::Filled(Agent::Fish(f)),
                        AgentKind::Fish,
                    );
                    lemma_count_kind_update(
                        prev_board,
                        target as int,
                        Cell::Filled(Agent::Fish(f)),
                        AgentKind::Shark,
                    );
                    assert forall|k: int|
                        0 <= k < indices@.len() implies (
                    #[trigger] self.environment.board@[indices@[k] as int]).is_empty_spec() by {
                        assert(prev_indices[k] == indices@[k]);
                        assert(prev_indices[k] != prev_indices[prev_indices.len() - 1]);
                    }
                }
            }
            placed = placed + 1;
        }
        let mut placed_shark: u32 = 0;
        while placed_shark < shark_number
            invariant
                self.environment.wf(),
                self.environment.config == config,
                config.wf(),
                old(self).environment.board@.len() == config.size(),
                fish_number + shark_number <= config.size(),
                0 <= placed_shark <= shark_number,
                indices@.len() == config.size() - fish_number - placed_shark,
                indices@.no_duplicates(),
                forall|k: int| 0 <= k < indices@.len() ==> 0 <= #[trigger] indices@[k]
                    < config.size(),
                count_agents(self.environment.board@) <= count0 + fish_number + placed_shark,
                seeded_freshly(config, old(self).environment.board@, self.environment.board@),
                all_empty ==> count_agents(self.environment.board@) == count0 + fish_number
                    + placed_shark && count_kind(self.environment.board@, AgentKind::Fish)
                    == fish_number && count_kind(self.environment.board@, AgentKind::Shark)
                    == placed_shark && (forall|k: int|
                    0 <= k < indices@.len() ==> (#[trigger] self.environment.board@[indices@[k] as int]).is_empty_spec()),
            decreases shark_number - placed_shark,
        {
            let ghost prev_indices = indices@;
            let idx_opt = indices.pop();
            let target = match idx_opt {
                Some(v) => v,
                None => {
                    proof {
                        assert(false);
                    }
                    0
                },
            };
            let coordinate = Coord::from_idx(target, &config);
            let s = Shark::new(coordinate, &config);
            let ghost prev_board = self.environment.board@;
            self.environment.add_agent(Agent::Shark(s));
            proof {
                if prev_board[target as int].is_empty_spec() {
                    lemma_seeded_freshly_step(
                        config,
                        old(self).environment.board@,
                        prev_board,
                        self.environment.board@,
                        target as int,
                        Cell::Filled(Agent::Shark(s)),
                    );
                }
                if all_empty {
                    assert(prev_board[target as int].is_empty_spec());
                    lemma_count_kind_update(
                        prev_board,
                        target as int,
                        Cell::Filled(Agent::Shark(s)),
                        AgentKind::Fish,
                    );
                    lemma_count_kind_update(
                        prev_board,
                        target as int,
                        Cell::Filled(Agent::Shark(s)),
                        AgentKind::Shark,
                    );
                    assert forall|k: int|
                        0 <= k < indices@.len() implies (
                    #[trigger] self.environment.board@[indices@[k] as int]).is_empty_spec() by {
                        assert(prev_indices[k] == indices@[k]);
                        assert(prev_indices[k] != prev_indices[prev_indices.len() - 1]);
                    }
                }
            }
            placed_shark = placed_shark + 1;
        }
        proof {
            lemma_count_agents_zero(old(self).environment.board@);
        }
        Ok(())
    }

    /// Seed the board as a connected colony: place one fish at a random
    /// coordinate, then place each further agent at a random empty cell
    /// adjacent to the colony, all fish before all sharks. The colony
    /// grows from its first fish, so at least one fish is required.
    /// Fails with
    /// `InsufficientCapacity`, placing nothing, exactly when the
    /// requested populations do not fit on the board; fails with
    /// `NoCandidateCell` when the colony's reachable region saturates
    /// first — which cannot happen when the board starts empty, so there
    /// seeding succeeds whenever the populations fit. On success exactly
    /// the requested counts of each species are placed.
    pub fn gen_agents_grouped(&mut self, fish_number: u32, shark_number: u32) -> (r: Result<
        (),
        SeedError,
    >)
        requires
            old(self).wf(),
            1 <= fish_number,
        ensures
            final(self).wf(),
            final(self).environment.config == old(self).environment.config,
            (fish_number + shark_number > old(self).environment.config.size()) <==> r == Result::<
                (),
                SeedError,
            >::Err(SeedError::InsufficientCapacity),
            r == Result::<(), SeedError>::Err(SeedError::InsufficientCapacity) ==> *final(self)
                == *old(self),
            count_agents(old(self).environment.board@) == 0 && fish_number + shark_number <= old(
                self,
            ).environment.config.size() ==> r is Ok,
            seeded_freshly(
                old(self).environment.config,
                old(self).environment.board@,
                final(self).environment.board@,
            ),
            count_agents(final(self).environment.board@) <= count_agents(
                old(self).environment.board@,
            ) + fish_number + shark_number,
            r is Ok ==> count_agents(final(self).environment.board@) == count_agents(
                old(self).environment.board@,
            ) + fish_number + shark_number && count_kind(
                final(self).environment.board@,
                AgentKind::Fish,
            ) == count_kind(old(self).environment.board@, AgentKind::Fish) + fish_number
                && count_kind(final(self).environment.board@, AgentKind::Shark) == count_kind(
                old(self).environment.board@,
                AgentKind::Shark,
            ) + shark_number,
    {
        let config = self.environment.config;
        proof {
            assert(0 <= config.width * config.height) by (nonlinear_arith)
                requires
                    1 <= config.width,
                    1 <= config.height,
            ;
        }
        let size = config.width * config.height;
        if (fish_number as u64) + (shark_number as u64) > (size as u64) {
            return Err(SeedError::InsufficientCapacity);
        }
        let ghost count0 = count_agents(self.environment.board@);
        let ghost fish0 = count_kind(self.environment.board@, AgentKind::Fish);
        let ghost shark0 = count_kind(self.environment.board@, AgentKind::Shark);
        let idx0 = rand_below(size as usize);
        let c0 = Coord::from_idx(idx0 as i32, &config);
        let mut placed_fish: u32 = 0;
        let cell0 = self.environment.get_cell(c0);
        proof {
            if count0 == 0 {
                lemma_count_agents_zero(self.environment.board@);
                crate::lemma_coord_index_round_trip(config, c0);
                assert(cell0.is_empty_spec());
            }
        }
        if cell0.is_empty() {
            let ghost prev_board = self.environment.board@;
            let first = Fish::new(c0, &config);
            self.environment.add_agent(Agent::Fish(first));
            proof {
                crate::lemma_coord_index_round_trip(config, c0);
                lemma_seeded_freshly_step(
                    config,
                    old(self).environment.board@,
                    prev_board,
                    self.environment.board@,
                    c0.index_of(config),
                    Cell::Filled(Agent::Fish(first)),
                );
                lemma_count_kind_update(
                    prev_board,
                    c0.index_of(config),
                    Cell::Filled(Agent::Fish(first)),
                    AgentKind::Fish,
                );
                lemma_count_kind_update(
                    prev_board,
                    c0.index_of(config),
                    Cell::Filled(Agent::Fish(first)),
                    AgentKind::Shark,
                );
            }
            placed_fish = 1;
        }
        while placed_fish < fish_number
            invariant
                self.environment.wf(),
                self.environment.config == config,
                config == old(self).environment.config,
                count0 == count_agents(old(self).environment.board@),
                config.wf(),
                old(self).environment.board@.len() == config.size(),
                fish_number + shark_number <= config.size(),
                0 <= placed_fish <= fish_number,
                count0 == 0 ==> 1 <= placed_fish,
                fish0 == count_kind(old(self).environment.board@, AgentKind::Fish),
                shark0 == count_kind(old(self).environment.board@, AgentKind::Shark),
                count_agents(self.environment.board@) == count0 + placed_fish,
                seeded_freshly(config, old(self).environment.board@, self.environment.board@),
                count_kind(self.environment.board@, AgentKind::Fish) == fish0 + placed_fish,
                count_kind(self.environment.board@, AgentKind::Shark) == shark0,
            decreases fish_number - placed_fish,
        {
            let available = self.environment.get_adjacent();
            if available.len() == 0 {
                proof {
                    if count0 == 0 {
                        self.environment.lemma_frontier_exists();
                        assert(false);
                    }
                }
                return Err(SeedError::NoCandidateCell);
            }
            let k = rand_below(available.len());
            let target = available[k];
            let ghost prev_board = self.environment.board@;
            let f = Fish::new(target, &config);
            self.environment.add_agent(Agent::Fish(f));
            proof {
                crate::lemma_coord_index_round_trip(config, target);
                lemma_seeded_freshly_step(
                    config,
                    old(self).environment.board@,
                    prev_board,
                    self.environment.board@,
                    target.index_of(config),
                    Cell::Filled(Agent::Fish(f)),
                );
                lemma_count_kind_update(
                    prev_board,
                    target.index_of(config),
                    Cell::Filled(Agent::Fish(f)),
                    AgentKind::Fish,
                );
                lemma_count_kind_update(
                    prev_board,
                    target.index_of(config),
                    Cell::Filled(Agent::Fish(f)),
                    AgentKind::Shark,
                );
            }
            placed_fish = placed_fish + 1;
        }
        let mut placed_shark: u32 = 0;
        while placed_shark < shark_number
            invariant
                self.environment.wf(),
                self.environment.config == config,
                config == old(self).environment.config,
                count0 == count_agents(old(self).environment.board@),
                config.wf(),
                old(self).environment.board@.len() == config.size(),
                fish_number + shark_number <= config.size(),
                0 <= placed_shark <= shark_number,
                1 <= fish_number,
                fish0 == count_kind(old(self).environment.board@, AgentKind::Fish),
                shark0 == count_kind(old(self).environment.board@, AgentKind::Shark),
                count_agents(self.environment.board@) == count0 + fish_number + placed_shark,
                seeded_freshly(config, old(self).environment.board@, self.environment.board@),
                count_kind(self.environment.board@, AgentKind::Fish) == fish0 + fish_number,
                count_kind(self.environment.board@, AgentKind::Shark) == shark0 + placed_shark,
            decreases shark_number - placed_shark,
        {
            let available = self.environment.get_adjacent();
            if available.len() == 0 {
                proof {
                    if count0 == 0 {
                        self.environment.lemma_frontier_exists();
                        assert(false);
                    }
                }
                return Err(SeedError::NoCandidateCell);
            }
            let k = rand_below(available.len());
            let target = available[k];
            let ghost prev_board = self.environment.board@;
            let sh = Shark::new(target, &config);
            self.environment.add_agent(Agent::Shark(sh));
            proof {
                crate::lemma_coord_index_round_trip(config, target);
                lemma_seeded_freshly_step(
                    config,
                    old(self).environment.board@,
                    prev_board,
                    self.environment.board@,
                    target.index_of(config),
                    Cell::Filled(Agent::Shark(sh)),
                );
                lemma_count_kind_update(
                    prev_board,
                    target.index_of(config),
                    Cell::Filled(Agent::Shark(sh)),
                    AgentKind::Fish,
                );
                lemma_count_kind_update(
                    prev_board,
                    target.index_of(config),
                    Cell::Filled(Agent::Shark(sh)),
                    AgentKind::Shark,
                );
            }
            placed_shark = placed_shark + 1;
        }
        Ok(())
    }
}

} // verus!
