use wator::sma::Sma;
use wator::AgentKind;
use wator::Cell;
use wator::SeedError;

fn population(sma: &Sma) -> (usize, usize) {
    let mut fish = 0;
    let mut sharks = 0;
    for cell in sma.environment.board.iter() {
        if let Cell::Filled(agent) = cell {
            match agent.get_kind() {
                AgentKind::Fish => fish += 1,
                AgentKind::Shark => sharks += 1,
            }
        }
    }
    (fish, sharks)
}

#[test]
fn uniform_seeding_over_capacity_places_nothing() {
    let mut sma = Sma::new(3, 3, 3, 5, 4, false);
    let r = sma.gen_agents(5, 5);
    assert_eq!(r, Err(SeedError::InsufficientCapacity));
    assert_eq!(population(&sma), (0, 0));
    for cell in sma.environment.board.iter() {
        assert!(cell.is_empty());
    }
}

#[test]
fn uniform_seeding_places_exact_counts() {
    let mut sma = Sma::new(3, 3, 3, 5, 4, false);
    assert_eq!(sma.gen_agents(3, 2), Ok(()));
    assert_eq!(population(&sma), (3, 2));
    // every placed agent agrees with its cell's index
    let config = sma.environment.config;
    for (i, cell) in sma.environment.board.iter().enumerate() {
        if let Cell::Filled(agent) = cell {
            assert_eq!(agent.coordinate().as_idx(&config), i);
        }
    }
}

#[test]
fn uniform_seeding_can_fill_the_board() {
    let mut sma = Sma::new(3, 3, 3, 5, 4, false);
    assert_eq!(sma.gen_agents(4, 5), Ok(()));
    assert_eq!(population(&sma), (4, 5));
}

#[test]
fn clustered_seeding_over_capacity_places_nothing() {
    let mut sma = Sma::new(3, 3, 3, 5, 4, false);
    let r = sma.gen_agents_grouped(8, 2);
    assert_eq!(r, Err(SeedError::InsufficientCapacity));
    assert_eq!(population(&sma), (0, 0));
}

#[test]
fn clustered_seeding_places_exact_counts() {
    let mut sma = Sma::new(4, 4, 3, 5, 4, false);
    assert_eq!(sma.gen_agents_grouped(5, 3), Ok(()));
    assert_eq!(population(&sma), (5, 3));
}

#[test]
fn clustered_seeding_grows_a_connected_colony() {
    // With one fish placed first and every later agent placed adjacent
    // to the colony, every agent but some seed must touch another one.
    let mut sma = Sma::new(5, 5, 3, 5, 4, false);
    assert_eq!(sma.gen_agents_grouped(6, 0), Ok(()));
    let config = sma.environment.config;
    let mut touching = 0;
    for cell in sma.environment.board.iter() {
        if let Cell::Filled(agent) = cell {
            let neighbors = agent.coordinate().neighbor_coords(&config);
            if neighbors
                .iter()
                .any(|n| !sma.environment.get_cell(*n).is_empty())
            {
                touching += 1;
            }
        }
    }
    // a 6-agent colony in which each agent after the first touches the
    // colony leaves no isolated agent
    assert_eq!(touching, 6);
}

#[test]
fn clustered_seeding_reports_a_saturated_region() {
    let mut sma = Sma::new(2, 1, 3, 5, 4, false);
    assert_eq!(sma.gen_agents_grouped(2, 0), Ok(()));
    assert_eq!(population(&sma), (2, 0));
    // the board is full: a further request fits the capacity check for
    // two agents but finds no candidate cell
    let r = sma.gen_agents_grouped(2, 0);
    assert_eq!(r, Err(SeedError::NoCandidateCell));
}

#[test]
fn seeded_population_survives_a_tick_without_agents_leaking() {
    let mut sma = Sma::new(6, 6, 4, 7, 5, true);
    assert_eq!(sma.gen_agents(12, 5), Ok(()));
    let trace = sma.tick();
    let (fish, sharks) = population(&sma);
    assert_eq!(
        (fish + sharks) as i64,
        17 + trace.fish_birth + trace.shark_birth - trace.fish_death - trace.shark_death
    );
}

#[test]
fn tick_on_an_empty_board_changes_nothing() {
    let mut sma = Sma::new(3, 3, 3, 5, 4, false);
    let trace = sma.tick();
    assert_eq!(trace.fish_birth, 0);
    assert_eq!(trace.fish_death, 0);
    assert_eq!(trace.shark_birth, 0);
    assert_eq!(trace.shark_death, 0);
    assert_eq!(population(&sma), (0, 0));
}

#[test]
fn uniform_seeding_skips_occupied_cells() {
    let mut sma = Sma::new(3, 3, 3, 5, 4, false);
    assert_eq!(sma.gen_agents(9, 0), Ok(()));
    assert_eq!(population(&sma), (9, 0));
    // the request fits the capacity check, but every drawn cell is
    // already occupied, so the placements are silently skipped
    assert_eq!(sma.gen_agents(0, 1), Ok(()));
    assert_eq!(population(&sma), (9, 0));
}
