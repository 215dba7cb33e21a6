use wator::fish::Fish;
use wator::shark::Shark;
use wator::sma::Sma;
use wator::Agent;
use wator::AgentKind;
use wator::Cell;
use wator::Coord;

fn count_filled(sma: &Sma) -> i64 {
    let mut n: i64 = 0;
    for cell in sma.environment.board.iter() {
        if !cell.is_empty() {
            n += 1;
        }
    }
    n
}

#[test]
fn fish_breeding_resolution_on_a_strip() {
    // A 1x2 board: the fish at (0,0) has exactly one empty neighbor, so
    // its breeding decision is forced: MoveAndBreed((0,0), (1,0)). The
    // offspring takes the vacated (0,0) cell with a full countdown; the
    // parent moves to (1,0) with its countdown reset. Because (1,0) is
    // later in scan order the parent acts once more in the same tick
    // (the documented scan-order bias), stalling there and counting
    // down once.
    let mut sma = Sma::new(2, 1, 5, 9, 9, false);
    let mut f = Fish::new(Coord(0, 0), &sma.environment.config);
    f.breed_count_down = 0;
    sma.environment.add_agent(Agent::Fish(f));
    let trace = sma.tick();
    assert_eq!(trace.fish_birth, 1);
    assert_eq!(trace.fish_death, 0);
    assert_eq!(trace.shark_birth, 0);
    assert_eq!(trace.shark_death, 0);
    match sma.environment.board[0] {
        Cell::Filled(Agent::Fish(child)) => {
            assert_eq!(child.coordinate, Coord(0, 0));
            assert_eq!(child.breed_count_down, 5);
        }
        _ => panic!("expected the offspring fish at (0,0)"),
    }
    match sma.environment.board[1] {
        Cell::Filled(Agent::Fish(parent)) => {
            assert_eq!(parent.coordinate, Coord(1, 0));
            // reset to 5 on the breeding turn, then one more countdown
            // on the second visit of the same tick
            assert_eq!(parent.breed_count_down, 4);
        }
        _ => panic!("expected the parent fish at (1,0)"),
    }
}

#[test]
fn scan_order_artifact_on_a_strip() {
    // A 1x2 board with a single fish: it moves forward into the cell
    // the scan has not visited yet, is revisited there in the same
    // tick, and moves straight back. One tick therefore leaves it at
    // its starting cell having counted down twice: the reference
    // scan-order behavior, pinned here on purpose.
    let mut sma = Sma::new(2, 1, 10, 9, 9, false);
    sma.environment
        .add_agent(Agent::Fish(Fish::new(Coord(0, 0), &sma.environment.config)));
    let trace = sma.tick();
    assert_eq!(trace.fish_birth, 0);
    assert_eq!(trace.fish_death, 0);
    assert_eq!(trace.shark_birth, 0);
    assert_eq!(trace.shark_death, 0);
    match sma.environment.board[0] {
        Cell::Filled(Agent::Fish(f)) => {
            assert_eq!(f.coordinate, Coord(0, 0));
            assert_eq!(f.breed_count_down, 8);
        }
        _ => panic!("expected the fish back at (0,0)"),
    }
    assert!(sma.environment.board[1].is_empty());
}

#[test]
fn shark_eats_the_only_fish() {
    // A 1x2 board, shark at (0,0), fish at (1,0): the shark's decision
    // is forced. It eats the fish, moves onto its cell with the starve
    // countdown reset, is revisited there, and moves back.
    let mut sma = Sma::new(2, 1, 9, 5, 3, false);
    let config = sma.environment.config;
    sma.environment.add_agent(Agent::Shark(Shark::new(Coord(0, 0), &config)));
    sma.environment.add_agent(Agent::Fish(Fish::new(Coord(1, 0), &config)));
    assert_eq!(count_filled(&sma), 2);
    let trace = sma.tick();
    assert_eq!(trace.fish_death, 1);
    assert_eq!(trace.fish_birth, 0);
    assert_eq!(trace.shark_birth, 0);
    assert_eq!(trace.shark_death, 0);
    assert_eq!(count_filled(&sma), 1);
    match sma.environment.board[0] {
        Cell::Filled(Agent::Shark(s)) => {
            assert_eq!(s.coordinate, Coord(0, 0));
            // first visit: countdown, then reset to 3; second visit:
            // one more countdown
            assert_eq!(s.starve_count_down, 2);
            assert_eq!(s.breed_count_down, 3);
        }
        _ => panic!("expected the shark back at (0,0)"),
    }
    assert!(sma.environment.board[1].is_empty());
}

#[test]
fn shark_breeds_into_vacated_cell() {
    let mut sma = Sma::new(2, 1, 9, 4, 10, false);
    let config = sma.environment.config;
    let mut s = Shark::new(Coord(0, 0), &config);
    s.breed_count_down = -1;
    sma.environment.add_agent(Agent::Shark(s));
    let trace = sma.tick();
    assert_eq!(trace.shark_birth, 1);
    assert_eq!(trace.fish_death, 0);
    assert_eq!(trace.shark_death, 0);
    assert_eq!(count_filled(&sma), 2);
    match sma.environment.board[0] {
        Cell::Filled(Agent::Shark(child)) => {
            assert_eq!(child.coordinate, Coord(0, 0));
            assert_eq!(child.breed_count_down, 4);
            assert_eq!(child.starve_count_down, 10);
        }
        _ => panic!("expected the offspring shark at (0,0)"),
    }
    match sma.environment.board[1] {
        Cell::Filled(Agent::Shark(parent)) => {
            assert_eq!(parent.coordinate, Coord(1, 0));
            // breeding reset both countdowns (to 4 and 10); the second
            // visit of the tick (a stall: the only neighbor now holds
            // the offspring) counts both timers down once more
            assert_eq!(parent.breed_count_down, 3);
            assert_eq!(parent.starve_count_down, 9);
        }
        _ => panic!("expected the parent shark at (1,0)"),
    }
}

#[test]
fn starving_shark_is_removed() {
    let mut sma = Sma::new(2, 1, 9, 5, 0, false);
    let config = sma.environment.config;
    let mut s = Shark::new(Coord(0, 0), &config);
    s.starve_count_down = -1;
    sma.environment.add_agent(Agent::Shark(s));
    let trace = sma.tick();
    assert_eq!(trace.shark_death, 1);
    assert_eq!(trace.fish_death, 0);
    assert_eq!(count_filled(&sma), 0);
    assert!(sma.environment.board[0].is_empty());
    assert!(sma.environment.board[1].is_empty());
}

#[test]
fn invariant_and_conservation_over_many_ticks() {
    // The two proved tick guarantees, observed at run time: every
    // filled cell agrees with its flat index, and the agent count moves
    // by exactly births minus deaths, tick after tick.
    for borderless in [false, true] {
        let mut sma = Sma::new(5, 4, 3, 6, 4, borderless);
        assert_eq!(sma.gen_agents(9, 4), Ok(()));
        assert_eq!(count_filled(&sma), 13);
        for _ in 0..25 {
            let before = count_filled(&sma);
            let trace = sma.tick();
            let after = count_filled(&sma);
            assert_eq!(
                after,
                before + trace.fish_birth + trace.shark_birth - trace.fish_death
                    - trace.shark_death
            );
            let config = sma.environment.config;
            for (i, cell) in sma.environment.board.iter().enumerate() {
                let coord = cell.to_coord_unchecked();
                assert_eq!(coord.as_idx(&config), i);
                if let Cell::Filled(agent) = cell {
                    assert_eq!(agent.coordinate(), coord);
                }
            }
        }
    }
}

#[test]
fn is_shark_at_sees_only_sharks() {
    let mut sma = Sma::new(3, 3, 3, 5, 4, false);
    let config = sma.environment.config;
    sma.environment.add_agent(Agent::Shark(Shark::new(Coord(1, 1), &config)));
    sma.environment.add_agent(Agent::Fish(Fish::new(Coord(0, 0), &config)));
    assert!(sma.environment.is_shark_at(Coord(1, 1)));
    assert!(!sma.environment.is_shark_at(Coord(0, 0)));
    assert!(!sma.environment.is_shark_at(Coord(2, 2)));
}

#[test]
fn neighbor_queries_filter_by_species_interest() {
    let mut sma = Sma::new(3, 3, 3, 5, 4, false);
    let config = sma.environment.config;
    sma.environment.add_agent(Agent::Fish(Fish::new(Coord(1, 0), &config)));
    sma.environment.add_agent(Agent::Shark(Shark::new(Coord(0, 1), &config)));
    // Around (0,0): (1,0) holds a fish, (0,1) holds a shark, (1,1) is
    // empty. A fish only sees the empty cell; a shark sees the empty
    // cell and the fish, never the other shark.
    let empties = sma.environment.get_empty_neighbors(Coord(0, 0));
    assert_eq!(empties.len(), 1);
    assert_eq!(empties[0], Cell::Empty(Coord(1, 1)));
    let of_interest = sma.environment.get_shark_neighbors(Coord(0, 0));
    assert_eq!(of_interest.len(), 2);
    assert!(of_interest.iter().any(|c| c.is_fish()));
    assert!(of_interest.iter().any(|c| c.is_empty()));
    assert!(!of_interest
        .iter()
        .any(|c| c.to_coord_unchecked() == Coord(0, 1)));
}

#[test]
fn get_adjacent_lists_the_colony_border() {
    let mut sma = Sma::new(3, 3, 3, 5, 4, false);
    let config = sma.environment.config;
    sma.environment.add_agent(Agent::Fish(Fish::new(Coord(1, 1), &config)));
    let adjacent = sma.environment.get_adjacent();
    assert_eq!(adjacent.len(), 8);
    for y in 0..3 {
        for x in 0..3 {
            let coord = Coord(x, y);
            if coord == Coord(1, 1) {
                assert!(!adjacent.contains(&coord));
            } else {
                assert!(adjacent.contains(&coord));
            }
        }
    }
}

#[test]
fn direct_board_operations() {
    let mut sma = Sma::new(3, 3, 3, 5, 4, false);
    let config = sma.environment.config;
    sma.environment.add_agent(Agent::Fish(Fish::new(Coord(0, 0), &config)));
    sma.environment.update_agent(Coord(0, 0));
    match sma.environment.get_cell(Coord(0, 0)) {
        Cell::Filled(Agent::Fish(f)) => assert_eq!(f.breed_count_down, 2),
        _ => panic!("expected the fish at (0,0)"),
    }
    sma.environment.add_agent(Agent::Shark(Shark::new(Coord(1, 1), &config)));
    sma.environment.update_agent(Coord(1, 1));
    sma.environment.update_agent_and_reset_starve(Coord(1, 1));
    match sma.environment.get_cell(Coord(1, 1)) {
        Cell::Filled(Agent::Shark(s)) => {
            assert_eq!(s.breed_count_down, 3);
            assert_eq!(s.starve_count_down, 4);
        }
        _ => panic!("expected the shark at (1,1)"),
    }
    // placement into an occupied cell is skipped
    sma.environment
        .add_agent(Agent::Shark(Shark::new(Coord(0, 0), &config)));
    assert!(sma.environment.get_cell(Coord(0, 0)).is_fish());
    sma.environment.remove_agent(Coord(0, 0));
    assert!(sma.environment.get_cell(Coord(0, 0)).is_empty());
}

#[test]
fn single_cell_grid_fish_stalls() {
    for borderless in [false, true] {
        let mut sma = Sma::new(1, 1, 3, 5, 4, borderless);
        let config = sma.environment.config;
        sma.environment.add_agent(Agent::Fish(Fish::new(Coord(0, 0), &config)));
        let trace = sma.tick();
        assert_eq!(trace.fish_birth, 0);
        assert_eq!(trace.fish_death, 0);
        match sma.environment.board[0] {
            Cell::Filled(Agent::Fish(f)) => {
                assert_eq!(f.coordinate, Coord(0, 0));
                assert_eq!(f.breed_count_down, 2);
            }
            _ => panic!("expected the fish to stall in place"),
        }
    }
}

#[test]
fn negative_timers_act_as_permanently_starved() {
    // Negative timers are an accepted, if unusual, configuration: a
    // shark born with a negative starve countdown starves on its first
    // turn.
    let mut sma = Sma::new(2, 1, 3, 5, -1, false);
    let config = sma.environment.config;
    sma.environment.add_agent(Agent::Shark(Shark::new(Coord(0, 0), &config)));
    let trace = sma.tick();
    assert_eq!(trace.shark_death, 1);
    assert_eq!(count_filled(&sma), 0);
}
