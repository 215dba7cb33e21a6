//! The board and its mutations: a flat row-major vector of cells, the
//! neighborhood queries, and the operations that realize one agent's
//! decision. The grid invariant — every cell sits at the flat index of
//! its own coordinate — is established by construction and preserved by
//! every operation.

use crate::coord_of_index;
use crate::lemma_coord_index_round_trip;
use crate::lemma_index_coord_round_trip;
use crate::lemma_coord_index_injective;
use crate::neighbor_coords_spec;
use crate::resolve_neighbor;
use crate::seq_has_fish;
use crate::trace::TickTrace;
use crate::Decision;
use crate::Agent;
use crate::AgentKind;
use crate::Cell;
use crate::Config;
use crate::Coord;
use vstd::prelude::*;

verus! {

/// 1 for a filled cell, 0 for an empty one.
pub open spec fn cell_count(c: Cell) -> int {
    if c.is_empty_spec() {
        0
    } else {
        1
    }
}

/// How many cells of the sequence hold an agent.
pub open spec fn count_agents(s: Seq<Cell>) -> int
    decreases s.len(),
{
    if s.len() == 0 {
        0
    } else {
        count_agents(s.drop_last()) + cell_count(s.last())
    }
}

/// Replacing one cell changes the agent count by the difference of the
/// two cells' occupancy.
pub proof fn lemma_count_agents_update(s: Seq<Cell>, i: int, c: Cell)
    requires
        0 <= i < s.len(),
    ensures
        count_agents(s.update(i, c)) == count_agents(s) - cell_count(s[i]) + cell_count(c),
    decreases s.len(),
{
    let t = s.update(i, c);
    if i == s.len() - 1 {
        assert(t.drop_last() =~= s.drop_last());
    } else {
        assert(t.drop_last() =~= s.drop_last().update(i, c));
        lemma_count_agents_update(s.drop_last(), i, c);
    }
}

/// Appending a cell adds its occupancy to the agent count.
pub proof fn lemma_count_agents_push(s: Seq<Cell>, c: Cell)
    ensures
        count_agents(s.push(c)) == count_agents(s) + cell_count(c),
{
    assert(s.push(c).drop_last() =~= s);
}

/// The agent count is never negative.
pub proof fn lemma_count_agents_nonneg(s: Seq<Cell>)
    ensures
        count_agents(s) >= 0,
    decreases s.len(),
{
    if s.len() > 0 {
        lemma_count_agents_nonneg(s.drop_last());
    }
}

/// The agent count is zero exactly when every cell is empty.
pub proof fn lemma_count_agents_zero(s: Seq<Cell>)
    ensures
        (count_agents(s) == 0) <==> (forall|i: int|
            0 <= i < s.len() ==> (#[trigger] s[i]).is_empty_spec()),
    decreases s.len(),
{
    if s.len() > 0 {
        lemma_count_agents_zero(s.drop_last());
        lemma_count_agents_nonneg(s.drop_last());
        if count_agents(s) == 0 {
            assert forall|i: int| 0 <= i < s.len() implies (#[trigger] s[i]).is_empty_spec() by {
                if i < s.len() - 1 {
                    assert(s.drop_last()[i] == s[i]);
                } else {
                    assert(s.last() == s[i]);
                }
            }
        } else {
            if forall|i: int| 0 <= i < s.len() ==> (#[trigger] s[i]).is_empty_spec() {
                assert forall|i: int|
                    0 <= i < s.drop_last().len() implies (#[trigger] s.drop_last()[i]).is_empty_spec() by {
                    assert(s.drop_last()[i] == s[i]);
                }
                assert(s.last() == s[s.len() - 1]);
            }
        }
    }
}

/// 1 for a cell holding an agent of the given species, else 0.
pub open spec fn kind_count(c: Cell, kind: AgentKind) -> int {
    if c matches Cell::Filled(a) && a.kind_spec() == kind {
        1
    } else {
        0
    }
}

/// How many cells of the sequence hold an agent of the given species.
pub open spec fn count_kind(s: Seq<Cell>, kind: AgentKind) -> int
    decreases s.len(),
{
    if s.len() == 0 {
        0
    } else {
        count_kind(s.drop_last(), kind) + kind_count(s.last(), kind)
    }
}

/// Replacing one cell changes a species count by the difference of the
/// two cells' contributions.
pub proof fn lemma_count_kind_update(s: Seq<Cell>, i: int, c: Cell, kind: AgentKind)
    requires
        0 <= i < s.len(),
    ensures
        count_kind(s.update(i, c), kind) == count_kind(s, kind) - kind_count(s[i], kind)
            + kind_count(c, kind),
    decreases s.len(),
{
    let t = s.update(i, c);
    if i == s.len() - 1 {
        assert(t.drop_last() =~= s.drop_last());
    } else {
        assert(t.drop_last() =~= s.drop_last().update(i, c));
        lemma_count_kind_update(s.drop_last(), i, c, kind);
    }
}

/// An all-empty board holds no agent of any species.
pub proof fn lemma_count_kind_empty(s: Seq<Cell>, kind: AgentKind)
    requires
        forall|i: int| 0 <= i < s.len() ==> (#[trigger] s[i]).is_empty_spec(),
    ensures
        count_kind(s, kind) == 0,
    decreases s.len(),
{
    if s.len() > 0 {
        assert forall|i: int|
            0 <= i < s.drop_last().len() implies (#[trigger] s.drop_last()[i]).is_empty_spec() by {
            assert(s.drop_last()[i] == s[i]);
        }
        lemma_count_kind_empty(s.drop_last(), kind);
        assert(s.last() == s[s.len() - 1]);
    }
}

/// A fully occupied board's agent count is its length.
pub proof fn lemma_count_agents_full(s: Seq<Cell>)
    requires
        forall|i: int| 0 <= i < s.len() ==> !(#[trigger] s[i]).is_empty_spec(),
    ensures
        count_agents(s) == s.len(),
    decreases s.len(),
{
    if s.len() > 0 {
        assert forall|i: int|
            0 <= i < s.drop_last().len() implies !(#[trigger] s.drop_last()[i]).is_empty_spec() by {
            assert(s.drop_last()[i] == s[i]);
        }
        lemma_count_agents_full(s.drop_last());
        assert(s.last() == s[s.len() - 1]);
    }
}

/// Along a line where the predicate holds at `a` and fails at `b > a`,
/// some point satisfies it while its successor does not.
pub proof fn lemma_line_frontier(f: spec_fn(int) -> bool, a: int, b: int)
    requires
        a < b,
        f(a),
        !f(b),
    ensures
        exists|x: int| a <= x < b && #[trigger] f(x) && !f(x + 1),
    decreases b - a,
{
    if f(b - 1) {
        assert(f(b - 1) && !f(b));
    } else if a < b - 1 {
        lemma_line_frontier(f, a, b - 1);
    } else {
        assert(f(a) && !f(a + 1));
    }
}

/// The least index of an occupied cell at or after `i`, or the length
/// when every cell from `i` on is empty. The cell it names is the first
/// agent a tick's scan reaches, while the board is still untouched.
pub open spec fn first_occupied_from(s: Seq<Cell>, i: int) -> int
    decreases s.len() - i
        when 0 <= i
{
    if i >= s.len() {
        s.len() as int
    } else if !s[i].is_empty_spec() {
        i
    } else {
        first_occupied_from(s, i + 1)
    }
}

/// What `first_occupied_from` names: every cell before it (from the
/// start index on) is empty, and the cell at it, when there is one, is
/// occupied.
pub proof fn lemma_first_occupied(s: Seq<Cell>, i: int)
    requires
        0 <= i <= s.len(),
    ensures
        i <= first_occupied_from(s, i) <= s.len(),
        forall|j: int| i <= j < first_occupied_from(s, i) ==> (#[trigger] s[j]).is_empty_spec(),
        first_occupied_from(s, i) < s.len() ==> !s[first_occupied_from(s, i)].is_empty_spec(),
    decreases s.len() - i,
{
    if i < s.len() && s[i].is_empty_spec() {
        lemma_first_occupied(s, i + 1);
    }
}

/// Whether the cell holds a shark whose starve countdown has gone
/// negative: such a shark's next decision is to starve.
pub open spec fn is_starving(c: Cell) -> bool {
    c matches Cell::Filled(Agent::Shark(s)) && s.starve_count_down < 0
}

/// How many cells of the sequence hold a starving shark.
pub open spec fn count_starving(s: Seq<Cell>) -> int
    decreases s.len(),
{
    if s.len() == 0 {
        0
    } else {
        count_starving(s.drop_last()) + if is_starving(s.last()) {
            1int
        } else {
            0int
        }
    }
}

/// Extending a prefix by one cell adds that cell's contribution to the
/// starving-shark count.
pub proof fn lemma_count_starving_take_step(s: Seq<Cell>, i: int)
    requires
        0 <= i < s.len(),
    ensures
        count_starving(s.take(i + 1)) == count_starving(s.take(i)) + if is_starving(s[i]) {
            1int
        } else {
            0int
        },
{
    assert(s.take(i + 1).drop_last() =~= s.take(i));
    assert(s.take(i + 1).last() == s[i]);
}

/// A sequence contains what it contained before a push.
pub proof fn lemma_contains_after_push<A>(s: Seq<A>, x: A, y: A)
    requires
        s.contains(y),
    ensures
        s.push(x).contains(y),
{
    let k = choose|k: int| 0 <= k < s.len() && s[k] == y;
    assert(s.push(x)[k] == y);
}

/// The board: one cell per coordinate of the configured extent, stored
/// row-major.
pub struct Environment {
    pub config: Config,
    pub board: Vec<Cell>,
}

impl Environment {
    /// The cell stored at index `i` sits at the coordinate whose flat
    /// index is `i`.
    pub open spec fn cell_ok(self, i: int) -> bool {
        let c = self.board@[i];
        c.coord_spec().valid(self.config) && c.coord_spec().index_of(self.config) == i
    }

    /// The grid invariant: a well-formed configuration, one cell per
    /// coordinate, each at the flat index of its own coordinate.
    pub open spec fn wf(self) -> bool {
        &&& self.config.wf()
        &&& self.board@.len() == self.config.size()
        &&& forall|i: int| 0 <= i < self.board@.len() ==> #[trigger] self.cell_ok(i)
    }

    /// The cell of the board at coordinate `c`.
    pub open spec fn cell_at(self, c: Coord) -> Cell {
        self.board@[c.index_of(self.config)]
    }

    /// The cell found at a valid coordinate stands at that coordinate.
    pub proof fn lemma_cell_at_coord(self, coord: Coord)
        requires
            self.wf(),
            coord.valid(self.config),
        ensures
            self.cell_at(coord).coord_spec() == coord,
    {
        let i = coord.index_of(self.config);
        lemma_coord_index_round_trip(self.config, coord);
        assert(self.cell_ok(i));
        lemma_coord_index_round_trip(self.config, self.board@[i].coord_spec());
    }

    /// The invariant every tick preserves, spelled out: the agent held
    /// by any filled cell stands at the coordinate of that cell's flat
    /// index.
    pub proof fn lemma_agents_match_indices(self)
        requires
            self.wf(),
        ensures
            forall|i: int|
                0 <= i < self.board@.len() && (#[trigger] self.board@[i]) is Filled
                    ==> self.board@[i]->Filled_0.coord_spec() == coord_of_index(self.config, i),
    {
        assert forall|i: int|
            0 <= i < self.board@.len() && (#[trigger] self.board@[i]) is Filled
                implies self.board@[i]->Filled_0.coord_spec() == coord_of_index(self.config, i) by {
            assert(self.cell_ok(i));
            lemma_coord_index_round_trip(self.config, self.board@[i].coord_spec());
        }
    }

    /// Two distinct valid coordinates store distinct cells, so a cell
    /// that differs in content cannot share a flat index.
    pub proof fn lemma_distinct_coords_distinct_cells(self, a: Coord, b: Coord)
        requires
            self.wf(),
            a.valid(self.config),
            b.valid(self.config),
            self.cell_at(a) != self.cell_at(b),
        ensures
            a.index_of(self.config) != b.index_of(self.config),
            a != b,
    {
        if a.index_of(self.config) == b.index_of(self.config) {
            assert(self.cell_at(a) == self.cell_at(b));
        }
    }

    /// A fresh board of the configured extent, all cells empty.
    pub fn new(config: Config) -> (r: Environment)
        requires
            config.wf(),
        ensures
            r.wf(),
            r.config == config,
            forall|i: int|
                0 <= i < r.board@.len() ==> r.board@[i] == Cell::Empty(
                    coord_of_index(config, i),
                ),
            count_agents(r.board@) == 0,
    {
        proof {
            assert(0 <= config.width * config.height) by (nonlinear_arith)
                requires
                    1 <= config.width,
                    1 <= config.height,
            ;
        }
        let size = config.width * config.height;
        let mut board: Vec<Cell> = Vec::new();
        let mut idx: i32 = 0;
        while idx < size
            invariant
                config.wf(),
                size == config.size(),
                0 <= idx <= size,
                board@.len() == idx,
                forall|j: int|
                    0 <= j < idx ==> board@[j] == Cell::Empty(coord_of_index(config, j)),
                count_agents(board@) == 0,
            decreases size - idx,
        {
            let c = Coord::from_idx(idx, &config);
            let ghost prev = board@;
            board.push(Cell::Empty(c));
            proof {
                lemma_count_agents_push(prev, Cell::Empty(c));
            }
            idx = idx + 1;
        }
        let r = Environment { config, board };
        proof {
            assert forall|i: int| 0 <= i < r.board@.len() implies r.cell_ok(i) by {
                lemma_index_coord_round_trip(config, i);
            }
        }
        r
    }

    /// Read the cell at a valid coordinate.
    pub fn get_cell(&self, coord: Coord) -> (r: Cell)
        requires
            self.wf(),
            coord.valid(self.config),
        ensures
            r == self.cell_at(coord),
    {
        let i = coord.as_idx(&self.config);
        self.board[i]
    }

    /// Clear the cell at `coord` back to empty.
    fn set_empty_cell(&mut self, coord: Coord)
        requires
            old(self).wf(),
            coord.valid(old(self).config),
        ensures
            final(self).config == old(self).config,
            final(self).wf(),
            final(self).board@ == old(self).board@.update(
                coord.index_of(old(self).config),
                Cell::Empty(coord),
            ),
            count_agents(final(self).board@) == count_agents(old(self).board@) - cell_count(
                old(self).cell_at(coord),
            ),
    {
        let i = coord.as_idx(&self.config);
        let ghost prev = *self;
        self.board.set(i, Cell::Empty(coord));
        proof {
            lemma_coord_index_round_trip(prev.config, coord);
            lemma_count_agents_update(prev.board@, i as int, Cell::Empty(coord));
            assert forall|j: int| 0 <= j < self.board@.len() implies self.cell_ok(j) by {
                if j != i as int {
                    assert(prev.cell_ok(j));
                }
            }
        }
    }

    /// Write `agent` into the cell at its own coordinate.
    fn set_agent_cell(&mut self, agent: Agent)
        requires
            old(self).wf(),
            agent.coord_spec().valid(old(self).config),
        ensures
            final(self).config == old(self).config,
            final(self).wf(),
            final(self).board@ == old(self).board@.update(
                agent.coord_spec().index_of(old(self).config),
                Cell::Filled(agent),
            ),
            count_agents(final(self).board@) == count_agents(old(self).board@) - cell_count(
                old(self).cell_at(agent.coord_spec()),
            ) + 1,
    {
        let coord = agent.coordinate();
        let i = coord.as_idx(&self.config);
        let ghost prev = *self;
        self.board.set(i, Cell::Filled(agent));
        proof {
            lemma_coord_index_round_trip(prev.config, coord);
            lemma_count_agents_update(prev.board@, i as int, Cell::Filled(agent));
            assert forall|j: int| 0 <= j < self.board@.len() implies self.cell_ok(j) by {
                if j != i as int {
                    assert(prev.cell_ok(j));
                }
            }
        }
    }

    /// Place an agent into the cell at its own coordinate, skipping the
    /// placement when that cell is already occupied.
    pub fn add_agent(&mut self, agent: Agent)
        requires
            old(self).wf(),
            agent.coord_spec().valid(old(self).config),
        ensures
            final(self).config == old(self).config,
            final(self).wf(),
            old(self).cell_at(agent.coord_spec()).is_empty_spec() ==> final(self).board@ == old(
                self,
            ).board@.update(agent.coord_spec().index_of(old(self).config), Cell::Filled(agent))
                && count_agents(final(self).board@) == count_agents(old(self).board@) + 1,
            !old(self).cell_at(agent.coord_spec()).is_empty_spec() ==> *final(self) == *old(self),
    {
        let coord = agent.coordinate();
        let i = coord.as_idx(&self.config);
        if self.board[i].is_empty() {
            self.set_agent_cell(agent);
        }
    }

    /// Clear the cell at `coord` back to empty, removing whatever agent
    /// stood there.
    pub fn remove_agent(&mut self, coord: Coord)
        requires
            old(self).wf(),
            coord.valid(old(self).config),
        ensures
            final(self).config == old(self).config,
            final(self).wf(),
            final(self).board@ == old(self).board@.update(
                coord.index_of(old(self).config),
                Cell::Empty(coord),
            ),
            count_agents(final(self).board@) == count_agents(old(self).board@) - cell_count(
                old(self).cell_at(coord),
            ),
    {
        self.set_empty_cell(coord);
    }

    /// Apply one tick's countdown bookkeeping to the agent at `coord`.
    pub fn update_agent(&mut self, coord: Coord)
        requires
            old(self).wf(),
            coord.valid(old(self).config),
            !old(self).cell_at(coord).is_empty_spec(),
        ensures
            final(self).config == old(self).config,
            final(self).wf(),
            final(self).board@ == old(self).board@.update(
                coord.index_of(old(self).config),
                Cell::Filled(old(self).cell_at(coord)->Filled_0.updated(old(self).config)),
            ),
            count_agents(final(self).board@) == count_agents(old(self).board@),
    {
        let i = coord.as_idx(&self.config);
        let cell = self.board[i];
        match cell {
            Cell::Filled(mut agent) => {
                proof {
                    self.lemma_cell_at_coord(coord);
                }
                let config = self.config;
                agent.update(&config);
                self.set_agent_cell(agent);
            },
            Cell::Empty(_) => {
                proof {
                    assert(false);
                }
            },
        }
    }

    /// Apply one tick's bookkeeping to the shark at `coord` and reset
    /// its starve countdown (its decision consumed a fish).
    pub fn update_agent_and_reset_starve(&mut self, coord: Coord)
        requires
            old(self).wf(),
            coord.valid(old(self).config),
            old(self).cell_at(coord) matches Cell::Filled(a) && a is Shark,
        ensures
            final(self).config == old(self).config,
            final(self).wf(),
            final(self).board@ == old(self).board@.update(
                coord.index_of(old(self).config),
                Cell::Filled(
                    old(self).cell_at(coord)->Filled_0.updated(old(self).config).with_starve_reset(
                        old(self).config,
                    ),
                ),
            ),
            count_agents(final(self).board@) == count_agents(old(self).board@),
    {
        let i = coord.as_idx(&self.config);
        let cell = self.board[i];
        match cell {
            Cell::Filled(mut agent) => {
                proof {
                    self.lemma_cell_at_coord(coord);
                }
                let config = self.config;
                agent.update(&config);
                agent.reset_starve_count_down(&config);
                self.set_agent_cell(agent);
            },
            Cell::Empty(_) => {
                proof {
                    assert(false);
                }
            },
        }
    }

    /// Relocate the agent at `from` into the empty cell at `to`: the
    /// source becomes empty, the destination holds the agent with its
    /// coordinate updated.
    fn move_agent(&mut self, from: Coord, to: Coord)
        requires
            old(self).wf(),
            from.valid(old(self).config),
            to.valid(old(self).config),
            !old(self).cell_at(from).is_empty_spec(),
            old(self).cell_at(to).is_empty_spec(),
        ensures
            final(self).config == old(self).config,
            final(self).wf(),
            final(self).board@ == old(self).board@.update(
                from.index_of(old(self).config),
                Cell::Empty(from),
            ).update(
                to.index_of(old(self).config),
                Cell::Filled(old(self).cell_at(from)->Filled_0.with_coord(to)),
            ),
            count_agents(final(self).board@) == count_agents(old(self).board@),
    {
        proof {
            lemma_coord_index_round_trip(old(self).config, from);
            lemma_coord_index_round_trip(old(self).config, to);
            old(self).lemma_distinct_coords_distinct_cells(from, to);
        }
        let i = from.as_idx(&self.config);
        let cell = self.board[i];
        match cell {
            Cell::Filled(mut agent) => {
                proof {
                    self.lemma_cell_at_coord(from);
                }
                self.set_empty_cell(from);
                agent.set_coordinate(to);
                self.set_agent_cell(agent);
            },
            Cell::Empty(_) => {
                proof {
                    assert(false);
                }
            },
        }
    }

    /// Breed the agent at `from` and relocate it into the empty cell at
    /// `to`: the offspring takes the vacated source cell, the parent
    /// (its own countdowns reset as the species asks) moves to the
    /// destination.
    fn breed_and_move_agent(&mut self, from: Coord, to: Coord)
        requires
            old(self).wf(),
            from.valid(old(self).config),
            to.valid(old(self).config),
            !old(self).cell_at(from).is_empty_spec(),
            old(self).cell_at(to).is_empty_spec(),
        ensures
            final(self).config == old(self).config,
            final(self).wf(),
            final(self).board@ == old(self).board@.update(
                from.index_of(old(self).config),
                Cell::Filled(old(self).cell_at(from)->Filled_0.offspring_of(old(self).config)),
            ).update(
                to.index_of(old(self).config),
                Cell::Filled(
                    old(self).cell_at(from)->Filled_0.bred_parent(old(self).config).with_coord(to),
                ),
            ),
            count_agents(final(self).board@) == count_agents(old(self).board@) + 1,
    {
        proof {
            lemma_coord_index_round_trip(old(self).config, from);
            lemma_coord_index_round_trip(old(self).config, to);
            old(self).lemma_distinct_coords_distinct_cells(from, to);
        }
        let i = from.as_idx(&self.config);
        let cell = self.board[i];
        match cell {
            Cell::Filled(mut agent) => {
                proof {
                    self.lemma_cell_at_coord(from);
                }
                let config = self.config;
                let child = agent.breed(&config);
                self.set_agent_cell(child);
                agent.set_coordinate(to);
                self.set_agent_cell(agent);
            },
            Cell::Empty(_) => {
                proof {
                    assert(false);
                }
            },
        }
    }

    /// The empty cells of the Moore neighborhood of `coord`: what a
    /// fish considers. Sound (every returned cell is an empty neighbor
    /// cell of the board) and complete (every empty neighbor cell is
    /// returned).
    pub fn get_empty_neighbors(&self, coord: Coord) -> (r: Vec<Cell>)
        requires
            self.wf(),
            coord.valid(self.config),
        ensures
            forall|k: int|
                0 <= k < r@.len() ==> {
                    let cell = #[trigger] r@[k];
                    &&& cell.is_empty_spec()
                    &&& cell.coord_spec().valid(self.config)
                    &&& self.cell_at(cell.coord_spec()) == cell
                },
            forall|k: int|
                0 <= k < r@.len() ==> exists|j: int|
                    0 <= j < neighbor_coords_spec(self.config, coord).len() && #[trigger] r@[k]
                        == self.cell_at(neighbor_coords_spec(self.config, coord)[j]),
            forall|j: int|
                0 <= j < neighbor_coords_spec(self.config, coord).len() ==> {
                    let n = #[trigger] neighbor_coords_spec(self.config, coord)[j];
                    self.cell_at(n).is_empty_spec() ==> r@.contains(self.cell_at(n))
                },
            forall|j: int|
                0 <= j < neighbor_coords_spec(self.config, coord).len() ==> (
                #[trigger] neighbor_coords_spec(self.config, coord)[j]).valid(self.config),
    {
        let coords = coord.neighbor_coords(&self.config);
        let mut r: Vec<Cell> = Vec::new();
        let mut j: usize = 0;
        while j < coords.len()
            invariant
                self.wf(),
                coord.valid(self.config),
                coords@ == neighbor_coords_spec(self.config, coord),
                forall|k: int| 0 <= k < coords@.len() ==> (#[trigger] coords@[k]).valid(self.config),
                0 <= j <= coords@.len(),
                forall|k: int|
                    0 <= k < r@.len() ==> {
                        let cell = #[trigger] r@[k];
                        &&& cell.is_empty_spec()
                        &&& cell.coord_spec().valid(self.config)
                        &&& self.cell_at(cell.coord_spec()) == cell
                    },
                forall|k: int|
                    0 <= k < r@.len() ==> exists|jj: int|
                        0 <= jj < coords@.len() && #[trigger] r@[k] == self.cell_at(coords@[jj]),
                forall|jj: int|
                    0 <= jj < j ==> {
                        let n = #[trigger] coords@[jj];
                        self.cell_at(n).is_empty_spec() ==> r@.contains(self.cell_at(n))
                    },
            decreases coords@.len() - j,
        {
            let c = coords[j];
            let cell = self.get_cell(c);
            if cell.is_empty() {
                let ghost prev = r@;
                r.push(cell);
                proof {
                    self.lemma_cell_at_coord(c);
                    assert(r@[prev.len() as int] == cell);
                    assert forall|jj: int|
                        0 <= jj < j + 1 && self.cell_at(#[trigger] coords@[jj]).is_empty_spec()
                            implies r@.contains(self.cell_at(coords@[jj])) by {
                        if jj < j {
                            lemma_contains_after_push(prev, cell, self.cell_at(coords@[jj]));
                        }
                    }
                }
            }
            j = j + 1;
        }
        r
    }

    /// The cells of interest to a shark in the Moore neighborhood of
    /// `coord`: the empty and the fish-occupied ones (sharks never
    /// consider other sharks). Sound and complete in the same sense as
    /// `get_empty_neighbors`.
    pub fn get_shark_neighbors(&self, coord: Coord) -> (r: Vec<Cell>)
        requires
            self.wf(),
            coord.valid(self.config),
        ensures
            forall|k: int|
                0 <= k < r@.len() ==> {
                    let cell = #[trigger] r@[k];
                    &&& (cell.is_empty_spec() || cell.is_fish_spec())
                    &&& cell.coord_spec().valid(self.config)
                    &&& self.cell_at(cell.coord_spec()) == cell
                },
            forall|k: int|
                0 <= k < r@.len() ==> exists|j: int|
                    0 <= j < neighbor_coords_spec(self.config, coord).len() && #[trigger] r@[k]
                        == self.cell_at(neighbor_coords_spec(self.config, coord)[j]),
            forall|j: int|
                0 <= j < neighbor_coords_spec(self.config, coord).len() ==> {
                    let n = #[trigger] neighbor_coords_spec(self.config, coord)[j];
                    (self.cell_at(n).is_empty_spec() || self.cell_at(n).is_fish_spec())
                        ==> r@.contains(self.cell_at(n))
                },
            forall|j: int|
                0 <= j < neighbor_coords_spec(self.config, coord).len() ==> (
                #[trigger] neighbor_coords_spec(self.config, coord)[j]).valid(self.config),
    {
        let coords = coord.neighbor_coords(&self.config);
        let mut r: Vec<Cell> = Vec::new();
        let mut j: usize = 0;
        while j < coords.len()
            invariant
                self.wf(),
                coord.valid(self.config),
                coords@ == neighbor_coords_spec(self.config, coord),
                forall|k: int| 0 <= k < coords@.len() ==> (#[trigger] coords@[k]).valid(self.config),
                0 <= j <= coords@.len(),
                forall|k: int|
                    0 <= k < r@.len() ==> {
                        let cell = #[trigger] r@[k];
                        &&& (cell.is_empty_spec() || cell.is_fish_spec())
                        &&& cell.coord_spec().valid(self.config)
                        &&& self.cell_at(cell.coord_spec()) == cell
                    },
                forall|k: int|
                    0 <= k < r@.len() ==> exists|jj: int|
                        0 <= jj < coords@.len() && #[trigger] r@[k] == self.cell_at(coords@[jj]),
                forall|jj: int|
                    0 <= jj < j ==> {
                        let n = #[trigger] coords@[jj];
                        (self.cell_at(n).is_empty_spec() || self.cell_at(n).is_fish_spec())
                            ==> r@.contains(self.cell_at(n))
                    },
            decreases coords@.len() - j,
        {
            let c = coords[j];
            let cell = self.get_cell(c);
            if cell.is_fish() || cell.is_empty() {
                let ghost prev = r@;
                r.push(cell);
                proof {
                    self.lemma_cell_at_coord(c);
                    assert(r@[prev.len() as int] == cell);
                    assert forall|jj: int|
                        0 <= jj < j + 1 && (self.cell_at(#[trigger] coords@[jj]).is_empty_spec()
                            || self.cell_at(coords@[jj]).is_fish_spec())
                            implies r@.contains(self.cell_at(coords@[jj])) by {
                        if jj < j {
                            lemma_contains_after_push(prev, cell, self.cell_at(coords@[jj]));
                        }
                    }
                }
            }
            j = j + 1;
        }
        r
    }

    /// Legality of a decision produced by `agent` standing at `from`,
    /// against the current board: the origin is the agent's own cell; a
    /// movement target is a distinct valid Moore neighbor of the origin
    /// whose cell is empty (for a plain move) or holds a fish (for a
    /// meal, which only a shark decides).
    pub open spec fn decision_ok(self, d: Decision, from: Coord, agent: Agent) -> bool {
        match d {
            Decision::Stall(p) => p == from,
            Decision::Starve(p) => p == from,
            Decision::Move(f, t) => f == from && t.valid(self.config) && self.cell_at(
                t,
            ).is_empty_spec() && t != from && neighbor_coords_spec(self.config, from).contains(t),
            Decision::MoveAndBreed(f, t) => f == from && t.valid(self.config) && self.cell_at(
                t,
            ).is_empty_spec() && t != from && neighbor_coords_spec(self.config, from).contains(t),
            Decision::EatAndMove(f, t) => f == from && t.valid(self.config) && self.cell_at(
                t,
            ).is_fish_spec() && t != from && agent is Shark && neighbor_coords_spec(
                self.config,
                from,
            ).contains(t),
            Decision::EatAndBreed(f, t) => f == from && t.valid(self.config) && self.cell_at(
                t,
            ).is_fish_spec() && t != from && agent is Shark && neighbor_coords_spec(
                self.config,
                from,
            ).contains(t),
        }
    }

    /// Both species counts of one cell replacement, in a single call.
    ///
    /// (This is a free-standing statement about sequences; it sits here
    /// beside the tick that leans on it.)
    pub proof fn lemma_count_kind_update_both(s: Seq<Cell>, i: int, c: Cell)
        requires
            0 <= i < s.len(),
        ensures
            count_kind(s.update(i, c), AgentKind::Fish) == count_kind(s, AgentKind::Fish)
                - kind_count(s[i], AgentKind::Fish) + kind_count(c, AgentKind::Fish),
            count_kind(s.update(i, c), AgentKind::Shark) == count_kind(s, AgentKind::Shark)
                - kind_count(s[i], AgentKind::Shark) + kind_count(c, AgentKind::Shark),
    {
        lemma_count_kind_update(s, i, c, AgentKind::Fish);
        lemma_count_kind_update(s, i, c, AgentKind::Shark);
    }

    /// One full tick: scan the board once in index order; for each
    /// occupied cell ask its agent to decide on the species-appropriate
    /// neighborhood and realize the decision in place at once, recording
    /// births and deaths. Because the scan mutates the board as it goes,
    /// an agent relocated to a not-yet-visited index acts again in the
    /// same tick, while one relocated backward does not: this
    /// directional bias is a documented property of the scan order, not
    /// a defect.
    ///
    /// The contract pins, for every outcome of the random picks: the
    /// grid invariant; conservation per species (each species count
    /// moves by exactly its recorded births minus its recorded deaths);
    /// that every shark whose starve countdown was already negative when
    /// the tick began dies during it (nothing moves a shark but its own
    /// turn, so each such shark is still in place when the scan reaches
    /// it and then starves); and that the first agent in scan order,
    /// which provably acts on the untouched board, is forced to act: a
    /// fish due to breed beside an empty cell yields a fish birth, and a
    /// live shark beside a fish yields a fish death.
    #[verifier::rlimit(80)]
    pub fn update_all(&mut self) -> (trace: TickTrace)
        requires
            old(self).wf(),
        ensures
            final(self).wf(),
            final(self).config == old(self).config,
            final(self).board@.len() == old(self).board@.len(),
            trace.fish_birth >= 0 && trace.shark_birth >= 0,
            trace.fish_death >= 0 && trace.shark_death >= 0,
            count_agents(final(self).board@) == count_agents(old(self).board@) + trace.births()
                - trace.deaths(),
            count_kind(final(self).board@, AgentKind::Fish) == count_kind(
                old(self).board@,
                AgentKind::Fish,
            ) + trace.fish_birth - trace.fish_death,
            count_kind(final(self).board@, AgentKind::Shark) == count_kind(
                old(self).board@,
                AgentKind::Shark,
            ) + trace.shark_birth - trace.shark_death,
            trace.shark_death >= count_starving(old(self).board@),
            ({
                let b = old(self).board@;
                let i0 = first_occupied_from(b, 0);
                &&& i0 < b.len()
                &&& b[i0] is Filled
                &&& b[i0]->Filled_0 is Fish
                &&& b[i0]->Filled_0->Fish_0.breed_count_down == 0
                &&& old(self).has_empty_neighbor(b[i0].coord_spec())
            }) ==> trace.fish_birth >= 1,
            ({
                let b = old(self).board@;
                let i0 = first_occupied_from(b, 0);
                &&& i0 < b.len()
                &&& b[i0] is Filled
                &&& b[i0]->Filled_0 is Shark
                &&& b[i0]->Filled_0->Shark_0.starve_count_down >= 0
                &&& old(self).has_fish_neighbor(b[i0].coord_spec())
            }) ==> trace.fish_death >= 1,
    {
        let ghost b_init = self.board@;
        let ghost i0 = first_occupied_from(b_init, 0);
        let ghost force_birth = i0 < b_init.len() && b_init[i0] is Filled
            && b_init[i0]->Filled_0 is Fish && b_init[i0]->Filled_0->Fish_0.breed_count_down == 0
            && old(self).has_empty_neighbor(b_init[i0].coord_spec());
        let ghost force_death = i0 < b_init.len() && b_init[i0] is Filled
            && b_init[i0]->Filled_0 is Shark
            && b_init[i0]->Filled_0->Shark_0.starve_count_down >= 0 && old(self).has_fish_neighbor(
            b_init[i0].coord_spec(),
        );
        proof {
            lemma_first_occupied(b_init, 0);
        }
        let size = self.board.len();
        let mut trace = TickTrace::new();
        let mut idx: usize = 0;
        while idx < size
            invariant
                self.wf(),
                self.config == old(self).config,
                size == self.board@.len(),
                self.board@.len() == old(self).board@.len(),
                0 <= idx <= size,
                0 <= trace.fish_birth <= idx,
                0 <= trace.shark_birth <= idx,
                0 <= trace.fish_death <= idx,
                0 <= trace.shark_death <= idx,
                count_agents(self.board@) == count_agents(old(self).board@) + trace.births()
                    - trace.deaths(),
                count_kind(self.board@, AgentKind::Fish) == count_kind(
                    old(self).board@,
                    AgentKind::Fish,
                ) + trace.fish_birth - trace.fish_death,
                count_kind(self.board@, AgentKind::Shark) == count_kind(
                    old(self).board@,
                    AgentKind::Shark,
                ) + trace.shark_birth - trace.shark_death,
                forall|j: int|
                    idx <= j < size && is_starving(#[trigger] old(self).board@[j])
                        ==> self.board@[j] == old(self).board@[j],
                trace.shark_death >= count_starving(old(self).board@.take(idx as int)),
                b_init == old(self).board@,
                i0 == first_occupied_from(b_init, 0),
                force_birth == (i0 < b_init.len() && b_init[i0] is Filled
                    && b_init[i0]->Filled_0 is Fish
                    && b_init[i0]->Filled_0->Fish_0.breed_count_down == 0
                    && old(self).has_empty_neighbor(b_init[i0].coord_spec())),
                force_death == (i0 < b_init.len() && b_init[i0] is Filled
                    && b_init[i0]->Filled_0 is Shark
                    && b_init[i0]->Filled_0->Shark_0.starve_count_down >= 0
                    && old(self).has_fish_neighbor(b_init[i0].coord_spec())),
                idx <= i0 ==> self.board@ == old(self).board@ && trace == (TickTrace {
                    shark_birth: 0,
                    shark_death: 0,
                    fish_birth: 0,
                    fish_death: 0,
                }),
                i0 < idx && force_birth ==> trace.fish_birth >= 1,
                i0 < idx && force_death ==> trace.fish_death >= 1,
            decreases size - idx,
        {
            let ghost pre_env = *self;
            let ghost death0 = trace.shark_death;
            let cell = self.board[idx];
            if let Cell::Filled(agent) = cell {
                let from = agent.coordinate();
                proof {
                    assert(self.cell_ok(idx as int));
                    assert(self.cell_at(from) == Cell::Filled(agent));
                    if (idx as int) < i0 {
                        lemma_first_occupied(b_init, 0);
                        assert(false);
                    }
                }
                let agent_kind = agent.get_kind();
                let neighbors = if agent_kind == AgentKind::Fish {
                    self.get_empty_neighbors(from)
                } else {
                    self.get_shark_neighbors(from)
                };
                let decision = agent.decide(&neighbors);
                proof {
                    let nb = neighbors@;
                    assert(self.decision_ok(decision, from, agent)) by {
                        let ncs = neighbor_coords_spec(self.config, from);
                        match agent {
                            Agent::Fish(f) => {
                                if nb.len() > 0 {
                                    let i = choose|i: int|
                                        0 <= i < nb.len() && decision == f.decision_for(nb[i]);
                                    assert(nb[i].is_empty_spec());
                                    assert(self.cell_at(nb[i].coord_spec()) == nb[i]);
                                    let j = choose|j: int|
                                        0 <= j < ncs.len() && nb[i] == self.cell_at(ncs[j]);
                                    self.lemma_cell_at_coord(ncs[j]);
                                    assert(ncs[j] == nb[i].coord_spec());
                                    assert(ncs.contains(nb[i].coord_spec()));
                                }
                            },
                            Agent::Shark(s) => {
                                if s.starve_count_down < 0 {
                                } else if seq_has_fish(nb) {
                                    let i = choose|i: int|
                                        0 <= i < nb.len() && nb[i].is_fish_spec() && decision
                                            == s.eat_decision_for(nb[i]);
                                    assert(self.cell_at(nb[i].coord_spec()) == nb[i]);
                                    let j = choose|j: int|
                                        0 <= j < ncs.len() && nb[i] == self.cell_at(ncs[j]);
                                    self.lemma_cell_at_coord(ncs[j]);
                                    assert(ncs[j] == nb[i].coord_spec());
                                    assert(ncs.contains(nb[i].coord_spec()));
                                } else if nb.len() > 0 {
                                    let i = choose|i: int|
                                        0 <= i < nb.len() && nb[i].is_empty_spec() && decision
                                            == s.move_decision_for(nb[i]);
                                    assert(self.cell_at(nb[i].coord_spec()) == nb[i]);
                                    let j = choose|j: int|
                                        0 <= j < ncs.len() && nb[i] == self.cell_at(ncs[j]);
                                    self.lemma_cell_at_coord(ncs[j]);
                                    assert(ncs[j] == nb[i].coord_spec());
                                    assert(ncs.contains(nb[i].coord_spec()));
                                }
                            },
                        }
                    }
                    // the first agent of the scan acts on the untouched
                    // board, so its forced decisions are pinned here
                    if idx as int == i0 {
                        let ncs = neighbor_coords_spec(self.config, from);
                        if force_birth {
                            let j = choose|j: int|
                                0 <= j < neighbor_coords_spec(
                                    old(self).config,
                                    b_init[i0].coord_spec(),
                                ).len() && old(self).cell_at(
                                    #[trigger] neighbor_coords_spec(
                                        old(self).config,
                                        b_init[i0].coord_spec(),
                                    )[j],
                                ).is_empty_spec();
                            assert(self.cell_at(ncs[j]) == old(self).cell_at(ncs[j]));
                            assert(nb.contains(self.cell_at(ncs[j])));
                            assert(nb.len() > 0);
                            assert(decision is MoveAndBreed);
                        }
                        if force_death {
                            let j = choose|j: int|
                                0 <= j < neighbor_coords_spec(
                                    old(self).config,
                                    b_init[i0].coord_spec(),
                                ).len() && old(self).cell_at(
                                    #[trigger] neighbor_coords_spec(
                                        old(self).config,
                                        b_init[i0].coord_spec(),
                                    )[j],
                                ).is_fish_spec();
                            assert(self.cell_at(ncs[j]) == old(self).cell_at(ncs[j]));
                            assert(nb.contains(self.cell_at(ncs[j])));
                            let k = choose|k: int| 0 <= k < nb.len() && nb[k] == self.cell_at(
                                ncs[j],
                            );
                            assert(nb[k].is_fish_spec());
                            assert(seq_has_fish(nb));
                            assert(decision is EatAndMove || decision is EatAndBreed);
                        }
                    }
                }
                match decision {
                    Decision::Stall(position) => {
                        self.update_agent(position);
                        proof {
                            Self::lemma_count_kind_update_both(
                                pre_env.board@,
                                position.index_of(pre_env.config),
                                self.board@[position.index_of(pre_env.config)],
                            );
                        }
                    },
                    Decision::Move(from_c, to) => {
                        proof {
                            lemma_coord_index_round_trip(self.config, from_c);
                            lemma_coord_index_round_trip(self.config, to);
                            lemma_coord_index_injective(self.config, from_c, to);
                        }
                        self.update_agent(from_c);
                        let ghost b1 = self.board@;
                        self.move_agent(from_c, to);
                        proof {
                            let fi = from_c.index_of(pre_env.config);
                            let ti = to.index_of(pre_env.config);
                            Self::lemma_count_kind_update_both(pre_env.board@, fi, b1[fi]);
                            Self::lemma_count_kind_update_both(b1, fi, Cell::Empty(from_c));
                            Self::lemma_count_kind_update_both(
                                b1.update(fi, Cell::Empty(from_c)),
                                ti,
                                self.board@[ti],
                            );
                        }
                    },
                    Decision::MoveAndBreed(from_c, to) => {
                        proof {
                            lemma_coord_index_round_trip(self.config, from_c);
                            lemma_coord_index_round_trip(self.config, to);
                            lemma_coord_index_injective(self.config, from_c, to);
                        }
                        self.update_agent(from_c);
                        let ghost b1 = self.board@;
                        self.breed_and_move_agent(from_c, to);
                        trace.birth(agent_kind);
                        proof {
                            let fi = from_c.index_of(pre_env.config);
                            let ti = to.index_of(pre_env.config);
                            Self::lemma_count_kind_update_both(pre_env.board@, fi, b1[fi]);
                            Self::lemma_count_kind_update_both(b1, fi, self.board@[fi]);
                            Self::lemma_count_kind_update_both(
                                b1.update(fi, self.board@[fi]),
                                ti,
                                self.board@[ti],
                            );
                        }
                    },
                    Decision::EatAndMove(from_c, to) => {
                        proof {
                            lemma_coord_index_round_trip(self.config, from_c);
                            lemma_coord_index_round_trip(self.config, to);
                            lemma_coord_index_injective(self.config, from_c, to);
                        }
                        self.update_agent_and_reset_starve(from_c);
                        let ghost b1 = self.board@;
                        self.remove_agent(to);
                        let ghost b2 = self.board@;
                        self.move_agent(from_c, to);
                        trace.death(AgentKind::Fish);
                        proof {
                            let fi = from_c.index_of(pre_env.config);
                            let ti = to.index_of(pre_env.config);
                            Self::lemma_count_kind_update_both(pre_env.board@, fi, b1[fi]);
                            Self::lemma_count_kind_update_both(b1, ti, Cell::Empty(to));
                            Self::lemma_count_kind_update_both(b2, fi, Cell::Empty(from_c));
                            Self::lemma_count_kind_update_both(
                                b2.update(fi, Cell::Empty(from_c)),
                                ti,
                                self.board@[ti],
                            );
                        }
                    },
                    Decision::EatAndBreed(from_c, to) => {
                        proof {
                            lemma_coord_index_round_trip(self.config, from_c);
                            lemma_coord_index_round_trip(self.config, to);
                            lemma_coord_index_injective(self.config, from_c, to);
                        }
                        self.update_agent_and_reset_starve(from_c);
                        let ghost b1 = self.board@;
                        self.remove_agent(to);
                        let ghost b2 = self.board@;
                        self.breed_and_move_agent(from_c, to);
                        trace.death(AgentKind::Fish);
                        trace.birth(AgentKind::Shark);
                        proof {
                            let fi = from_c.index_of(pre_env.config);
                            let ti = to.index_of(pre_env.config);
                            Self::lemma_count_kind_update_both(pre_env.board@, fi, b1[fi]);
                            Self::lemma_count_kind_update_both(b1, ti, Cell::Empty(to));
                            Self::lemma_count_kind_update_both(b2, fi, self.board@[fi]);
                            Self::lemma_count_kind_update_both(
                                b2.update(fi, self.board@[fi]),
                                ti,
                                self.board@[ti],
                            );
                        }
                    },
                    Decision::Starve(position) => {
                        self.remove_agent(position);
                        trace.death(AgentKind::Shark);
                        proof {
                            Self::lemma_count_kind_update_both(
                                pre_env.board@,
                                position.index_of(pre_env.config),
                                Cell::Empty(position),
                            );
                        }
                    },
                }
                proof {
                    lemma_count_starving_take_step(old(self).board@, idx as int);
                    assert forall|j: int|
                        idx + 1 <= j < size && is_starving(#[trigger] old(self).board@[j])
                            implies self.board@[j] == old(self).board@[j] by {
                        assert(pre_env.board@[j] == old(self).board@[j]);
                        match decision {
                            Decision::Stall(_) => {},
                            Decision::Starve(_) => {},
                            Decision::Move(_, t) => {
                                assert(pre_env.cell_at(t).is_empty_spec());
                                assert(t.index_of(pre_env.config) != j);
                            },
                            Decision::MoveAndBreed(_, t) => {
                                assert(pre_env.cell_at(t).is_empty_spec());
                                assert(t.index_of(pre_env.config) != j);
                            },
                            Decision::EatAndMove(_, t) => {
                                assert(pre_env.cell_at(t).is_fish_spec());
                                assert(t.index_of(pre_env.config) != j);
                            },
                            Decision::EatAndBreed(_, t) => {
                                assert(pre_env.cell_at(t).is_fish_spec());
                                assert(t.index_of(pre_env.config) != j);
                            },
                        }
                    }
                    if is_starving(old(self).board@[idx as int]) {
                        assert(decision == Decision::Starve(from));
                        assert(trace.shark_death >= death0 + 1);
                    }
                }
            } else {
                proof {
                    lemma_count_starving_take_step(old(self).board@, idx as int);
                    assert(!is_starving(old(self).board@[idx as int]));
                    if idx as int == i0 {
                        lemma_first_occupied(b_init, 0);
                        assert(false);
                    }
                }
            }
            idx = idx + 1;
        }
        proof {
            assert(old(self).board@.take(size as int) =~= old(self).board@);
        }
        trace
    }

    /// Whether a shark stands at `coord`.
    pub fn is_shark_at(&self, coord: Coord) -> (r: bool)
        requires
            self.wf(),
            coord.valid(self.config),
        ensures
            r == (self.cell_at(coord) matches Cell::Filled(a) && a.kind_spec()
                == AgentKind::Shark),
    {
        let cell = self.get_cell(coord);
        if let Cell::Filled(agent) = cell {
            if agent.get_kind() == AgentKind::Shark {
                return true;
            }
        }
        false
    }

    /// Whether some neighbor cell of `c` is empty.
    pub open spec fn has_empty_neighbor(self, c: Coord) -> bool {
        exists|j: int|
            0 <= j < neighbor_coords_spec(self.config, c).len() && self.cell_at(
                #[trigger] neighbor_coords_spec(self.config, c)[j],
            ).is_empty_spec()
    }

    /// Every coordinate of `r` is a Moore neighbor of some occupied
    /// cell of the board.
    pub open spec fn all_adjacent_to_colony(self, r: Seq<Coord>) -> bool {
        forall|k: int| #![trigger r[k]]
            0 <= k < r.len() ==> exists|ii: int|
                #![trigger neighbor_coords_spec(self.config, self.board@[ii].coord_spec())]
                0 <= ii < self.board@.len() && !self.board@[ii].is_empty_spec()
                    && neighbor_coords_spec(self.config, self.board@[ii].coord_spec()).contains(
                    r[k],
                )
    }

    /// Whether some neighbor cell of `c` holds a fish.
    pub open spec fn has_fish_neighbor(self, c: Coord) -> bool {
        exists|j: int|
            0 <= j < neighbor_coords_spec(self.config, c).len() && self.cell_at(
                #[trigger] neighbor_coords_spec(self.config, c)[j],
            ).is_fish_spec()
    }

    /// An occupied cell with an empty cell one in-range unit step away
    /// witnesses a colony frontier: that occupied cell has an empty
    /// Moore neighbor under either boundary policy.
    proof fn lemma_pair_frontier(self, x: int, y: int, dx: int, dy: int)
        requires
            self.wf(),
            0 <= x && x < self.config.width && 0 <= y && y < self.config.height,
            0 <= x + dx && x + dx < self.config.width,
            0 <= y + dy && y + dy < self.config.height,
            -1 <= dx <= 1,
            -1 <= dy <= 1,
            !(dx == 0 && dy == 0),
            !self.board@[y * (self.config.width as int) + x].is_empty_spec(),
            self.board@[(y + dy) * (self.config.width as int) + (x + dx)].is_empty_spec(),
        ensures
            exists|i: int|
                0 <= i < self.board@.len() && !(#[trigger] self.board@[i]).is_empty_spec()
                    && self.has_empty_neighbor(self.board@[i].coord_spec()),
    {
        let w = self.config.width as int;
        let c = Coord(x as i32, y as i32);
        let n = Coord((x + dx) as i32, (y + dy) as i32);
        lemma_coord_index_round_trip(self.config, c);
        lemma_coord_index_round_trip(self.config, n);
        assert(resolve_neighbor(self.config, c, dx, dy) == Some(n));
        crate::lemma_neighbor_coords_contains(self.config, c, dx, dy);
        let ncs = neighbor_coords_spec(self.config, c);
        let j = choose|j: int| 0 <= j < ncs.len() && ncs[j] == n;
        assert(self.cell_at(#[trigger] neighbor_coords_spec(self.config, c)[j]).is_empty_spec());
        assert(self.has_empty_neighbor(c));
        let i = y * w + x;
        assert(self.cell_ok(i));
        lemma_coord_index_round_trip(self.config, self.board@[i].coord_spec());
        assert(self.board@[i].coord_spec() == c);
        assert(!(#[trigger] self.board@[i]).is_empty_spec() && self.has_empty_neighbor(
            self.board@[i].coord_spec(),
        ));
    }

    /// A board that is neither empty nor full has a frontier: some
    /// occupied cell has an empty Moore neighbor. (Walk from an occupied
    /// cell toward an empty one, first along its row, else down the
    /// empty cell's column, and take the first occupied-to-empty step.)
    pub proof fn lemma_frontier_exists(self)
        requires
            self.wf(),
            0 < count_agents(self.board@) < self.config.size(),
        ensures
            exists|i: int|
                0 <= i < self.board@.len() && !(#[trigger] self.board@[i]).is_empty_spec()
                    && self.has_empty_neighbor(self.board@[i].coord_spec()),
    {
        let b = self.board@;
        let cfg = self.config;
        let w = cfg.width as int;
        lemma_count_agents_zero(b);
        let io = choose|i: int| 0 <= i < b.len() && !(#[trigger] b[i]).is_empty_spec();
        if forall|i: int| 0 <= i < b.len() ==> !(#[trigger] b[i]).is_empty_spec() {
            lemma_count_agents_full(b);
            assert(false);
        }
        let ie = choose|i: int| 0 <= i < b.len() && (#[trigger] b[i]).is_empty_spec();
        lemma_index_coord_round_trip(cfg, io);
        lemma_index_coord_round_trip(cfg, ie);
        let co = coord_of_index(cfg, io);
        let ce = coord_of_index(cfg, ie);
        let xo = co.0 as int;
        let yo = co.1 as int;
        let xe = ce.0 as int;
        let ye = ce.1 as int;
        assert(yo * w + xo == io);
        assert(ye * w + xe == ie);
        if exists|x: int| 0 <= x < w && (#[trigger] b[yo * w + x]).is_empty_spec() {
            let x2 = choose|x: int| 0 <= x < w && (#[trigger] b[yo * w + x]).is_empty_spec();
            let occ_row = |x: int| !b[yo * w + x].is_empty_spec();
            let emp_row = |x: int| b[yo * w + x].is_empty_spec();
            if x2 > xo {
                lemma_line_frontier(occ_row, xo, x2);
                let x = choose|x: int| xo <= x < x2 && #[trigger] occ_row(x) && !occ_row(x + 1);
                self.lemma_pair_frontier(x, yo, 1, 0);
            } else {
                lemma_line_frontier(emp_row, x2, xo);
                let x = choose|x: int| x2 <= x < xo && #[trigger] emp_row(x) && !emp_row(x + 1);
                self.lemma_pair_frontier(x + 1, yo, -1, 0);
            }
        } else {
            assert(!b[yo * w + xe].is_empty_spec());
            assert(ye != yo);
            let occ_col = |y: int| !b[y * w + xe].is_empty_spec();
            let emp_col = |y: int| b[y * w + xe].is_empty_spec();
            if ye > yo {
                lemma_line_frontier(occ_col, yo, ye);
                let y = choose|y: int| yo <= y < ye && #[trigger] occ_col(y) && !occ_col(y + 1);
                self.lemma_pair_frontier(xe, y, 0, 1);
            } else {
                lemma_line_frontier(emp_col, ye, yo);
                let y = choose|y: int| ye <= y < yo && #[trigger] emp_col(y) && !emp_col(y + 1);
                self.lemma_pair_frontier(xe, y + 1, 0, -1);
            }
        }
    }

    /// The coordinates of the empty cells adjacent to any occupied cell
    /// (with repetition, in board scan order): the candidate sites of
    /// clustered seeding. Every returned coordinate is a valid, empty
    /// cell; an empty result means no occupied cell has an empty
    /// neighbor.
    pub fn get_adjacent(&self) -> (r: Vec<Coord>)
        requires
            self.wf(),
        ensures
            forall|k: int|
                0 <= k < r@.len() ==> (#[trigger] r@[k]).valid(self.config) && self.cell_at(
                    r@[k],
                ).is_empty_spec(),
            self.all_adjacent_to_colony(r@),
            forall|ii: int, j: int|
                0 <= ii < self.board@.len() && !self.board@[ii].is_empty_spec() && 0 <= j
                    < neighbor_coords_spec(self.config, self.board@[ii].coord_spec()).len()
                    && self.cell_at(
                    #[trigger] neighbor_coords_spec(self.config, self.board@[ii].coord_spec())[j],
                ).is_empty_spec() ==> r@.contains(
                    neighbor_coords_spec(self.config, self.board@[ii].coord_spec())[j],
                ),
            r@.len() == 0 ==> forall|i: int|
                0 <= i < self.board@.len() && !(#[trigger] self.board@[i]).is_empty_spec()
                    ==> !self.has_empty_neighbor(self.board@[i].coord_spec()),
    {
        let mut r: Vec<Coord> = Vec::new();
        let mut i: usize = 0;
        while i < self.board.len()
            invariant
                self.wf(),
                0 <= i <= self.board@.len(),
                forall|k: int|
                    0 <= k < r@.len() ==> (#[trigger] r@[k]).valid(self.config) && self.cell_at(
                        r@[k],
                    ).is_empty_spec(),
                self.all_adjacent_to_colony(r@),
                forall|ii: int, j: int|
                    0 <= ii < i && !self.board@[ii].is_empty_spec() && 0 <= j
                        < neighbor_coords_spec(self.config, self.board@[ii].coord_spec()).len()
                        && self.cell_at(
                        #[trigger] neighbor_coords_spec(
                            self.config,
                            self.board@[ii].coord_spec(),
                        )[j],
                    ).is_empty_spec() ==> r@.contains(
                        neighbor_coords_spec(self.config, self.board@[ii].coord_spec())[j],
                    ),
                r@.len() == 0 ==> forall|ii: int|
                    0 <= ii < i && !(#[trigger] self.board@[ii]).is_empty_spec()
                        ==> !self.has_empty_neighbor(self.board@[ii].coord_spec()),
            decreases self.board@.len() - i,
        {
            let ghost r_outer = r@;
            let cell = self.board[i];
            if !cell.is_empty() {
                let c = cell.to_coord_unchecked();
                proof {
                    assert(self.cell_ok(i as int));
                }
                let cells = self.get_empty_neighbors(c);
                let ghost had_empty = self.has_empty_neighbor(c);
                proof {
                    if had_empty {
                        let j = choose|j: int|
                            0 <= j < neighbor_coords_spec(self.config, c).len() && self.cell_at(
                                neighbor_coords_spec(self.config, c)[j],
                            ).is_empty_spec();
                        assert(cells@.contains(
                            self.cell_at(neighbor_coords_spec(self.config, c)[j]),
                        ));
                    }
                }
                let ghost r_before = r@.len();
                let mut k: usize = 0;
                while k < cells.len()
                    invariant
                        self.wf(),
                        0 <= i < self.board@.len(),
                        !self.board@[i as int].is_empty_spec(),
                        c == self.board@[i as int].coord_spec(),
                        c.valid(self.config),
                        0 <= k <= cells@.len(),
                        forall|kk: int|
                            0 <= kk < cells@.len() ==> {
                                let cc = #[trigger] cells@[kk];
                                &&& cc.is_empty_spec()
                                &&& cc.coord_spec().valid(self.config)
                                &&& self.cell_at(cc.coord_spec()) == cc
                            },
                        forall|kk: int|
                            0 <= kk < cells@.len() ==> exists|j: int|
                                0 <= j < neighbor_coords_spec(self.config, c).len()
                                    && #[trigger] cells@[kk] == self.cell_at(
                                    neighbor_coords_spec(self.config, c)[j],
                                ),
                        forall|j: int|
                            0 <= j < neighbor_coords_spec(self.config, c).len() ==> (
                            #[trigger] neighbor_coords_spec(self.config, c)[j]).valid(self.config),
                        forall|kk: int|
                            0 <= kk < r@.len() ==> (#[trigger] r@[kk]).valid(self.config)
                                && self.cell_at(r@[kk]).is_empty_spec(),
                        self.all_adjacent_to_colony(r@),
                        forall|x: Coord| r_outer.contains(x) ==> r@.contains(x),
                        forall|kk: int|
                            0 <= kk < k ==> r@.contains((#[trigger] cells@[kk]).coord_spec()),
                        r@.len() == r_before + k,
                    decreases cells@.len() - k,
                {
                    let cc = cells[k];
                    let ghost prev = r@;
                    r.push(cc.to_coord_unchecked());
                    proof {
                        assert(r@[prev.len() as int] == cc.coord_spec());
                        let j = choose|j: int|
                            0 <= j < neighbor_coords_spec(self.config, c).len() && cells@[k as int]
                                == self.cell_at(neighbor_coords_spec(self.config, c)[j]);
                        self.lemma_cell_at_coord(neighbor_coords_spec(self.config, c)[j]);
                        assert(cc.coord_spec() == neighbor_coords_spec(self.config, c)[j]);
                        assert(0 <= i < self.board@.len() && !self.board@[i as int].is_empty_spec()
                            && neighbor_coords_spec(
                            self.config,
                            self.board@[i as int].coord_spec(),
                        ).contains(r@[prev.len() as int]));
                        assert forall|x: Coord| r_outer.contains(x) implies r@.contains(x) by {
                            lemma_contains_after_push(prev, cc.coord_spec(), x);
                        }
                        assert forall|kk: int| 0 <= kk < k + 1 implies r@.contains(
                            (#[trigger] cells@[kk]).coord_spec(),
                        ) by {
                            if kk < k {
                                lemma_contains_after_push(prev, cc.coord_spec(), cells@[kk].coord_spec());
                            }
                        }
                    }
                    k = k + 1;
                }
                proof {
                    if r@.len() == 0 {
                        assert(cells@.len() == 0);
                        assert(!had_empty);
                    }
                    // completeness for the cell just processed: every
                    // empty neighbor cell appears in `cells`, and its
                    // coordinate was pushed
                    assert forall|j: int|
                        0 <= j < neighbor_coords_spec(self.config, c).len() && self.cell_at(
                            #[trigger] neighbor_coords_spec(self.config, c)[j],
                        ).is_empty_spec() implies r@.contains(
                        neighbor_coords_spec(self.config, c)[j],
                    ) by {
                        let n = neighbor_coords_spec(self.config, c)[j];
                        assert(cells@.contains(self.cell_at(n)));
                        let kk = choose|kk: int|
                            0 <= kk < cells@.len() && cells@[kk] == self.cell_at(n);
                        self.lemma_cell_at_coord(n);
                        assert(cells@[kk].coord_spec() == n);
                    }
                }
            }
            i = i + 1;
        }
        r
    }
}

} // verus!
