//! A Wa-Tor predator-prey simulation on a fixed-size 2D grid.
//!
//! Fish and sharks occupy cells of a flat, row-major board, move into
//! neighboring cells, reproduce when their breed countdown runs out, and
//! (for sharks) starve when their starve countdown goes negative. The
//! simulation advances in discrete global ticks; each tick scans the board
//! once in index order and resolves every agent's decision in place.
//!
//! Countdown conventions, applied uniformly: a fish breeds when its breed
//! countdown is exactly zero and the countdown is reset when a decrement
//! would take it below zero; a shark breeds when its breed countdown is
//! negative and starves when its starve countdown is negative. Decrements
//! saturate at `i32::MIN`, where further decrements no longer change any
//! observable behavior.

use vstd::prelude::*;

pub mod environment;
pub mod fish;
pub mod rng;
pub mod shark;
pub mod sma;
pub mod trace;

use crate::fish::Fish;
use crate::shark::Shark;

verus! {

/// Simulation-wide configuration, fixed at construction and passed
/// explicitly to every component that needs it: grid extent, species
/// timers, and the boundary policy (toric when `borderless` is set,
/// clamped otherwise).
#[derive(Clone, Copy, PartialEq, Eq, Structural, Debug)]
pub struct Config {
    pub width: i32,
    pub height: i32,
    pub fish_breed_time: i32,
    pub shark_breed_time: i32,
    pub shark_starve_time: i32,
    pub borderless: bool,
}

impl Config {
    /// Number of cells of the board.
    pub open spec fn size(self) -> int {
        self.width * self.height
    }

    /// Positive extent in both axes, with the cell count representable
    /// as an `i32` (and hence as a `usize`).
    pub open spec fn wf(self) -> bool {
        1 <= self.width && 1 <= self.height && self.width * self.height <= i32::MAX
    }
}

/// A 2D position `(x, y)` on the board. Valid coordinates satisfy
/// `0 <= x < width` and `0 <= y < height`.
#[derive(Clone, Copy, PartialEq, Eq, Structural, Hash, Debug)]
pub struct Coord(pub i32, pub i32);

/// The coordinate stored at flat index `idx` of a row-major board.
pub open spec fn coord_of_index(config: Config, idx: int) -> Coord {
    Coord((idx % (config.width as int)) as i32, (idx / (config.width as int)) as i32)
}

impl Coord {
    /// Whether the coordinate lies on the board.
    pub open spec fn valid(self, config: Config) -> bool {
        0 <= self.0 < config.width && 0 <= self.1 < config.height
    }

    /// The flat row-major index of this coordinate: `y * width + x`.
    pub open spec fn index_of(self, config: Config) -> int {
        self.1 * config.width + self.0
    }

    /// The flat row-major index of this coordinate.
    pub fn as_idx(&self, config: &Config) -> (r: usize)
        requires
            config.wf(),
            self.valid(*config),
        ensures
            r == self.index_of(*config),
            r < config.size(),
    {
        proof {
            assert(0 <= self.1 * config.width + self.0 < config.width * config.height)
                by (nonlinear_arith)
                requires
                    0 <= self.0 < config.width,
                    0 <= self.1 < config.height,
            ;
        }
        (self.1 * config.width + self.0) as usize
    }

    /// The coordinate whose flat row-major index is `idx`.
    pub fn from_idx(idx: i32, config: &Config) -> (r: Coord)
        requires
            config.wf(),
            0 <= idx < config.size(),
        ensures
            r == coord_of_index(*config, idx as int),
            r.valid(*config),
            r.index_of(*config) == idx,
    {
        let i = idx as usize;
        let w = config.width as usize;
        let x = i % w;
        let y = i / w;
        proof {
            lemma_index_coord_round_trip(*config, idx as int);
        }
        Coord(x as i32, y as i32)
    }
}

/// Within a board, index-to-coordinate conversion inverts
/// coordinate-to-index conversion: decomposing `idx` into `(x, y)` by
/// division and remainder lands back on `idx` under `y * width + x`,
/// on a valid coordinate.
pub proof fn lemma_index_coord_round_trip(config: Config, idx: int)
    requires
        config.wf(),
        0 <= idx < config.size(),
    ensures
        coord_of_index(config, idx).valid(config),
        coord_of_index(config, idx).index_of(config) == idx,
{
    let w = config.width as int;
    let h = config.height as int;
    let x = idx % w;
    let y = idx / w;
    assert(y * w + x == idx && 0 <= x < w && 0 <= y < h) by (nonlinear_arith)
        requires
            0 <= idx < w * h,
            0 < w,
            0 < h,
            x == idx % w,
            y == idx / w,
    ;
}

/// Distinct valid coordinates have distinct flat indices.
pub proof fn lemma_coord_index_injective(config: Config, a: Coord, b: Coord)
    requires
        config.wf(),
        a.valid(config),
        b.valid(config),
        a != b,
    ensures
        a.index_of(config) != b.index_of(config),
{
    lemma_coord_index_round_trip(config, a);
    lemma_coord_index_round_trip(config, b);
}

/// Where one step toward `(dx, dy)` leads from `c` under the clamped
/// policy: the neighbor is absent when the offset coordinate falls off
/// the board.
pub open spec fn clamped_neighbor(config: Config, c: Coord, dx: int, dy: int) -> Option<Coord> {
    let x = c.0 + dx;
    let y = c.1 + dy;
    if 0 <= x < config.width && 0 <= y < config.height {
        Some(Coord(x as i32, y as i32))
    } else {
        None
    }
}

/// Where one step toward `(dx, dy)` leads from `c` under the toric
/// policy: an axis that falls off the board wraps around to its other
/// end, so every direction yields a neighbor.
pub open spec fn toric_neighbor(config: Config, c: Coord, dx: int, dy: int) -> Coord {
    let x = c.0 + dx;
    let y = c.1 + dy;
    let wx = if x < 0 {
        config.width - 1
    } else if x >= config.width {
        0
    } else {
        x
    };
    let wy = if y < 0 {
        config.height - 1
    } else if y >= config.height {
        0
    } else {
        y
    };
    Coord(wx as i32, wy as i32)
}

/// Where one step toward `(dx, dy)` leads from `c` under the configured
/// boundary policy.
pub open spec fn resolve_neighbor(config: Config, c: Coord, dx: int, dy: int) -> Option<Coord> {
    if config.borderless {
        Some(toric_neighbor(config, c, dx, dy))
    } else {
        clamped_neighbor(config, c, dx, dy)
    }
}

/// `s` extended by the coordinate of `o`, when there is one.
pub open spec fn opt_push(s: Seq<Coord>, o: Option<Coord>) -> Seq<Coord> {
    match o {
        Some(c) => s.push(c),
        None => s,
    }
}

/// The Moore neighborhood of `c`: the coordinates one step in each of
/// the eight directions, resolved under the configured boundary policy,
/// absent ones dropped. The order of the directions is fixed.
pub open spec fn neighbor_coords_spec(config: Config, c: Coord) -> Seq<Coord> {
    let s = opt_push(Seq::empty(), resolve_neighbor(config, c, 0, 1));
    let s = opt_push(s, resolve_neighbor(config, c, 0, -1));
    let s = opt_push(s, resolve_neighbor(config, c, -1, 0));
    let s = opt_push(s, resolve_neighbor(config, c, 1, 0));
    let s = opt_push(s, resolve_neighbor(config, c, 1, 1));
    let s = opt_push(s, resolve_neighbor(config, c, -1, 1));
    let s = opt_push(s, resolve_neighbor(config, c, -1, -1));
    let s = opt_push(s, resolve_neighbor(config, c, 1, -1));
    s
}

/// Append the coordinate of `o`, when there is one, keeping every
/// element valid.
fn push_neighbor(v: &mut Vec<Coord>, o: Option<Coord>, Ghost(config): Ghost<Config>)
    requires
        forall|k: int| 0 <= k < old(v)@.len() ==> (#[trigger] old(v)@[k]).valid(config),
        o matches Some(n) ==> n.valid(config),
    ensures
        final(v)@ == opt_push(old(v)@, o),
        forall|k: int| 0 <= k < final(v)@.len() ==> (#[trigger] final(v)@[k]).valid(config),
{
    match o {
        Some(c) => v.push(c),
        None => {},
    }
}

impl Coord {
    /// The neighbor one step toward `(dx, dy)` under the configured
    /// boundary policy, or `None` when the clamped policy finds no cell
    /// in that direction.
    pub fn neighbor_toward(&self, dx: i32, dy: i32, config: &Config) -> (r: Option<Coord>)
        requires
            config.wf(),
            self.valid(*config),
            -1 <= dx <= 1,
            -1 <= dy <= 1,
        ensures
            r == resolve_neighbor(*config, *self, dx as int, dy as int),
            r matches Some(n) ==> n.valid(*config),
    {
        let x = self.0 + dx;
        let y = self.1 + dy;
        if config.borderless {
            let wx = if x < 0 {
                config.width - 1
            } else if x >= config.width {
                0
            } else {
                x
            };
            let wy = if y < 0 {
                config.height - 1
            } else if y >= config.height {
                0
            } else {
                y
            };
            Some(Coord(wx, wy))
        } else {
            if x < 0 || x >= config.width || y < 0 || y >= config.height {
                None
            } else {
                Some(Coord(x, y))
            }
        }
    }

    /// The Moore neighborhood of this coordinate under the configured
    /// boundary policy, in the fixed direction order, absent neighbors
    /// dropped. Every returned coordinate is valid.
    pub fn neighbor_coords(&self, config: &Config) -> (r: Vec<Coord>)
        requires
            config.wf(),
            self.valid(*config),
        ensures
            r@ == neighbor_coords_spec(*config, *self),
            forall|k: int| 0 <= k < r@.len() ==> (#[trigger] r@[k]).valid(*config),
    {
        let ghost g = *config;
        let mut v: Vec<Coord> = Vec::new();
        push_neighbor(&mut v, self.neighbor_toward(0, 1, config), Ghost(g));
        push_neighbor(&mut v, self.neighbor_toward(0, -1, config), Ghost(g));
        push_neighbor(&mut v, self.neighbor_toward(-1, 0, config), Ghost(g));
        push_neighbor(&mut v, self.neighbor_toward(1, 0, config), Ghost(g));
        push_neighbor(&mut v, self.neighbor_toward(1, 1, config), Ghost(g));
        push_neighbor(&mut v, self.neighbor_toward(-1, 1, config), Ghost(g));
        push_neighbor(&mut v, self.neighbor_toward(-1, -1, config), Ghost(g));
        push_neighbor(&mut v, self.neighbor_toward(1, -1, config), Ghost(g));
        v
    }
}

/// Appending keeps what was contained, and what the option itself holds.
pub proof fn lemma_opt_push_contains(s: Seq<Coord>, o: Option<Coord>, x: Coord)
    requires
        s.contains(x) || o == Some(x),
    ensures
        opt_push(s, o).contains(x),
{
    match o {
        Some(c) => {
            if s.contains(x) {
                let k = choose|k: int| 0 <= k < s.len() && s[k] == x;
                assert(s.push(c)[k] == x);
            } else {
                assert(s.push(c)[s.len() as int] == x);
            }
        },
        None => {},
    }
}

/// Every neighbor that the boundary policy resolves is listed in the
/// Moore neighborhood.
pub proof fn lemma_neighbor_coords_contains(config: Config, c: Coord, dx: int, dy: int)
    requires
        -1 <= dx <= 1,
        -1 <= dy <= 1,
        !(dx == 0 && dy == 0),
        resolve_neighbor(config, c, dx, dy) is Some,
    ensures
        neighbor_coords_spec(config, c).contains(resolve_neighbor(config, c, dx, dy)->Some_0),
{
    let n = resolve_neighbor(config, c, dx, dy)->Some_0;
    let r1 = resolve_neighbor(config, c, 0, 1);
    let r2 = resolve_neighbor(config, c, 0, -1);
    let r3 = resolve_neighbor(config, c, -1, 0);
    let r4 = resolve_neighbor(config, c, 1, 0);
    let r5 = resolve_neighbor(config, c, 1, 1);
    let r6 = resolve_neighbor(config, c, -1, 1);
    let r7 = resolve_neighbor(config, c, -1, -1);
    let r8 = resolve_neighbor(config, c, 1, -1);
    let s1 = opt_push(Seq::empty(), r1);
    let s2 = opt_push(s1, r2);
    let s3 = opt_push(s2, r3);
    let s4 = opt_push(s3, r4);
    let s5 = opt_push(s4, r5);
    let s6 = opt_push(s5, r6);
    let s7 = opt_push(s6, r7);
    let s8 = opt_push(s7, r8);
    assert(neighbor_coords_spec(config, c) == s8);
    if r1 == Some(n) && dx == 0 && dy == 1 {
        lemma_opt_push_contains(Seq::empty(), r1, n);
    }
    if s1.contains(n) || (r2 == Some(n) && dx == 0 && dy == -1) {
        lemma_opt_push_contains(s1, r2, n);
    }
    if s2.contains(n) || (r3 == Some(n) && dx == -1 && dy == 0) {
        lemma_opt_push_contains(s2, r3, n);
    }
    if s3.contains(n) || (r4 == Some(n) && dx == 1 && dy == 0) {
        lemma_opt_push_contains(s3, r4, n);
    }
    if s4.contains(n) || (r5 == Some(n) && dx == 1 && dy == 1) {
        lemma_opt_push_contains(s4, r5, n);
    }
    if s5.contains(n) || (r6 == Some(n) && dx == -1 && dy == 1) {
        lemma_opt_push_contains(s5, r6, n);
    }
    if s6.contains(n) || (r7 == Some(n) && dx == -1 && dy == -1) {
        lemma_opt_push_contains(s6, r7, n);
    }
    if s7.contains(n) || (r8 == Some(n) && dx == 1 && dy == -1) {
        lemma_opt_push_contains(s7, r8, n);
    }
}

/// The two species of the simulation.
#[derive(Clone, Copy, PartialEq, Eq, Structural, Debug)]
pub enum AgentKind {
    Shark,
    Fish,
}

/// The outcome of one agent's turn: pure data describing intent, carrying
/// the coordinates it applies to. The board, not the agent, realizes it.
#[derive(Clone, Copy, PartialEq, Eq, Structural, Debug)]
pub enum Decision {
    EatAndMove(Coord, Coord),
    EatAndBreed(Coord, Coord),
    Move(Coord, Coord),
    MoveAndBreed(Coord, Coord),
    Starve(Coord),
    Stall(Coord),
}

impl Decision {
    /// The coordinate of the agent that produced this decision.
    pub open spec fn origin(self) -> Coord {
        match self {
            Decision::EatAndMove(from, _) => from,
            Decision::EatAndBreed(from, _) => from,
            Decision::Move(from, _) => from,
            Decision::MoveAndBreed(from, _) => from,
            Decision::Starve(from) => from,
            Decision::Stall(from) => from,
        }
    }

    /// The coordinate of the agent that produced this decision.
    pub fn get_origin(&self) -> (r: &Coord)
        ensures
            *r == self.origin(),
    {
        match self {
            Decision::EatAndMove(from, _) => from,
            Decision::EatAndBreed(from, _) => from,
            Decision::Move(from, _) => from,
            Decision::MoveAndBreed(from, _) => from,
            Decision::Starve(from) => from,
            Decision::Stall(from) => from,
        }
    }
}

/// An agent of the simulation: a closed union of the two species,
/// dispatched by exhaustive pattern matching.
#[derive(Clone, Copy, PartialEq, Eq, Structural, Debug)]
pub enum Agent {
    Fish(Fish),
    Shark(Shark),
}

impl Agent {
    /// The species of this agent.
    pub open spec fn kind_spec(&self) -> AgentKind {
        match self {
            Agent::Fish(_) => AgentKind::Fish,
            Agent::Shark(_) => AgentKind::Shark,
        }
    }

    /// The species of this agent.
    #[verifier::when_used_as_spec(kind_spec)]
    pub fn get_kind(&self) -> (k: AgentKind)
        ensures
            k == self.kind_spec(),
    {
        match self {
            Agent::Fish(_) => AgentKind::Fish,
            Agent::Shark(_) => AgentKind::Shark,
        }
    }

    /// The position of this agent on the board.
    pub open spec fn coord_spec(&self) -> Coord {
        match self {
            Agent::Fish(f) => f.coordinate,
            Agent::Shark(s) => s.coordinate,
        }
    }

    /// The position of this agent on the board.
    #[verifier::when_used_as_spec(coord_spec)]
    pub fn coordinate(&self) -> (c: Coord)
        ensures
            c == self.coord_spec(),
    {
        match self {
            Agent::Fish(f) => f.coordinate,
            Agent::Shark(s) => s.coordinate,
        }
    }

    /// This agent relocated to `coord`, all countdowns unchanged.
    pub open spec fn with_coord(self, coord: Coord) -> Agent {
        match self {
            Agent::Fish(f) => Agent::Fish(Fish { coordinate: coord, ..f }),
            Agent::Shark(s) => Agent::Shark(Shark { coordinate: coord, ..s }),
        }
    }

    /// Relocate this agent to `coord`.
    pub fn set_coordinate(&mut self, coord: Coord)
        ensures
            *final(self) == old(self).with_coord(coord),
    {
        match self {
            Agent::Fish(f) => f.coordinate = coord,
            Agent::Shark(s) => s.coordinate = coord,
        }
    }

    /// This agent after its per-tick countdown bookkeeping.
    pub open spec fn updated(self, config: Config) -> Agent {
        match self {
            Agent::Fish(f) => Agent::Fish(f.updated(config)),
            Agent::Shark(s) => Agent::Shark(s.updated()),
        }
    }

    /// Per-tick countdown bookkeeping, applied once per tick regardless
    /// of the decision's outcome.
    pub fn update(&mut self, config: &Config)
        ensures
            *final(self) == old(self).updated(*config),
    {
        match self {
            Agent::Fish(f) => f.update(config),
            Agent::Shark(s) => s.update(),
        }
    }

    /// This agent as it stands after breeding (a shark's own breed and
    /// starve countdowns are reset; a fish is unchanged, its reset
    /// having already happened during `update`).
    pub open spec fn bred_parent(self, config: Config) -> Agent {
        match self {
            Agent::Fish(f) => Agent::Fish(f),
            Agent::Shark(s) => Agent::Shark(
                Shark {
                    breed_count_down: config.shark_breed_time,
                    starve_count_down: config.shark_starve_time,
                    ..s
                },
            ),
        }
    }

    /// The offspring produced by breeding: a fresh agent of the same
    /// species at this agent's current coordinate.
    pub open spec fn offspring_of(self, config: Config) -> Agent {
        match self {
            Agent::Fish(f) => Agent::Fish(
                Fish { coordinate: f.coordinate, breed_count_down: config.fish_breed_time },
            ),
            Agent::Shark(s) => Agent::Shark(
                Shark {
                    coordinate: s.coordinate,
                    breed_count_down: config.shark_breed_time,
                    starve_count_down: config.shark_starve_time,
                },
            ),
        }
    }

    /// Breed: reset this agent's own breed countdown where the species
    /// asks for it and return a fresh offspring at the same coordinate.
    pub fn breed(&mut self, config: &Config) -> (child: Agent)
        ensures
            *final(self) == old(self).bred_parent(*config),
            child == old(self).offspring_of(*config),
    {
        match self {
            Agent::Fish(f) => Agent::Fish(f.breed(config)),
            Agent::Shark(s) => Agent::Shark(s.breed(config)),
        }
    }

    /// This agent with its starve countdown reset, where the species
    /// has one.
    pub open spec fn with_starve_reset(self, config: Config) -> Agent {
        match self {
            Agent::Fish(f) => Agent::Fish(f),
            Agent::Shark(s) => Agent::Shark(
                Shark { starve_count_down: config.shark_starve_time, ..s },
            ),
        }
    }

    /// Reset the starve countdown after a meal. Fish never starve:
    /// calling this on a fish is a contract violation, excluded here.
    pub fn reset_starve_count_down(&mut self, config: &Config)
        requires
            *old(self) is Shark,
        ensures
            *final(self) == old(self).with_starve_reset(*config),
    {
        match self {
            Agent::Fish(_) => {},
            Agent::Shark(s) => s.reset_starve_count_down(config),
        }
    }

    /// What any run of `decide` may return, whatever the random draw:
    /// the species' decision policy applied to some admissible neighbor.
    pub open spec fn decide_post(self, neighbors: Seq<Cell>, d: Decision) -> bool {
        match self {
            Agent::Fish(f) => {
                &&& (neighbors.len() == 0 ==> d == Decision::Stall(f.coordinate))
                &&& (neighbors.len() > 0 ==> exists|i: int|
                    0 <= i < neighbors.len() && d == f.decision_for(#[trigger] neighbors[i]))
            },
            Agent::Shark(s) => {
                &&& (s.starve_count_down < 0 ==> d == Decision::Starve(s.coordinate))
                &&& (s.starve_count_down >= 0 && seq_has_fish(neighbors) ==> exists|i: int|
                    0 <= i < neighbors.len() && (#[trigger] neighbors[i]).is_fish_spec()
                        && d == s.eat_decision_for(neighbors[i]))
                &&& (s.starve_count_down >= 0 && !seq_has_fish(neighbors) && neighbors.len() > 0
                    ==> exists|i: int|
                    0 <= i < neighbors.len() && (#[trigger] neighbors[i]).is_empty_spec()
                        && d == s.move_decision_for(neighbors[i]))
                &&& (s.starve_count_down >= 0 && neighbors.len() == 0 ==> d == Decision::Stall(
                    s.coordinate,
                ))
            },
        }
    }

    /// One turn's choice, given the species-appropriate neighbor cells:
    /// for a fish only empty cells, for a shark empty or fish-occupied
    /// cells. The pick among admissible targets is random; the contract
    /// holds of every outcome.
    pub fn decide(&self, neighbors: &Vec<Cell>) -> (d: Decision)
        requires
            self is Fish ==> forall|i: int|
                0 <= i < neighbors@.len() ==> (#[trigger] neighbors@[i]).is_empty_spec(),
            self is Shark ==> forall|i: int|
                0 <= i < neighbors@.len() ==> (#[trigger] neighbors@[i]).is_empty_spec()
                    || neighbors@[i].is_fish_spec(),
        ensures
            self.decide_post(neighbors@, d),
            d.origin() == self.coord_spec(),
    {
        match self {
            Agent::Fish(f) => f.decide(neighbors),
            Agent::Shark(s) => s.decide(neighbors),
        }
    }
}

/// A storage unit of the board: empty, tagged with its own coordinate,
/// or filled with an agent.
#[derive(Clone, Copy, PartialEq, Eq, Structural, Debug)]
pub enum Cell {
    Empty(Coord),
    Filled(Agent),
}

impl Cell {
    /// The coordinate this cell stands at: its own tag when empty, the
    /// agent's position when filled.
    pub open spec fn coord_spec(self) -> Coord {
        match self {
            Cell::Empty(coord) => coord,
            Cell::Filled(a) => a.coord_spec(),
        }
    }

    /// Whether the cell is empty.
    pub open spec fn is_empty_spec(&self) -> bool {
        self is Empty
    }

    /// Whether the cell is empty.
    #[verifier::when_used_as_spec(is_empty_spec)]
    pub fn is_empty(&self) -> (r: bool)
        ensures
            r == self.is_empty_spec(),
    {
        match self {
            Cell::Empty(_) => true,
            _ => false,
        }
    }

    /// Whether the cell holds a fish.
    pub open spec fn is_fish_spec(&self) -> bool {
        self matches Cell::Filled(a) && a.kind_spec() == AgentKind::Fish
    }

    /// Whether the cell holds a fish.
    #[verifier::when_used_as_spec(is_fish_spec)]
    pub fn is_fish(&self) -> (r: bool)
        ensures
            r == self.is_fish_spec(),
    {
        match self {
            Cell::Filled(a) => match a.get_kind() {
                AgentKind::Fish => true,
                _ => false,
            },
            _ => false,
        }
    }

    /// The cell's coordinate, whichever variant it is.
    pub fn to_coord_unchecked(&self) -> (c: Coord)
        ensures
            c == self.coord_spec(),
    {
        match self {
            Cell::Filled(a) => a.coordinate(),
            Cell::Empty(coord) => *coord,
        }
    }
}

/// Whether some cell of the sequence holds a fish.
pub open spec fn seq_has_fish(s: Seq<Cell>) -> bool {
    exists|i: int| 0 <= i < s.len() && (#[trigger] s[i]).is_fish_spec()
}

/// Why a seeding operation failed.
#[derive(Clone, Copy, PartialEq, Eq, Structural, Debug)]
pub enum SeedError {
    /// The requested populations do not fit on the board.
    InsufficientCapacity,
    /// Clustered seeding found no empty cell adjacent to the colony.
    NoCandidateCell,
}

/// The grid's index-coordinate bijection: every valid coordinate is
/// recovered from its own flat index.
pub proof fn lemma_coord_index_round_trip(config: Config, c: Coord)
    requires
        config.wf(),
        c.valid(config),
    ensures
        0 <= c.index_of(config) < config.size(),
        coord_of_index(config, c.index_of(config)) == c,
{
    let w = config.width as int;
    let idx = c.1 * w + c.0;
    assert(0 <= idx < config.size()) by (nonlinear_arith)
        requires
            0 <= c.0 < config.width,
            0 <= c.1 < config.height,
            idx == c.1 * (config.width as int) + c.0,
    ;
    vstd::arithmetic::div_mod::lemma_fundamental_div_mod_converse_mod(idx, w, c.1 as int, c.0 as int);
    vstd::arithmetic::div_mod::lemma_fundamental_div_mod_converse_div(idx, w, c.1 as int, c.0 as int);
}

} // verus!
