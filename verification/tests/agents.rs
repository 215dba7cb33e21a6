use wator::fish::Fish;
use wator::shark::Shark;
use wator::trace::TickTrace;
use wator::AgentKind;
use wator::Cell;
use wator::Config;
use wator::Coord;
use wator::Decision;

fn config() -> Config {
    Config {
        width: 3,
        height: 3,
        fish_breed_time: 3,
        shark_breed_time: 5,
        shark_starve_time: 4,
        borderless: false,
    }
}

#[test]
fn fish_new_takes_configured_timer() {
    let f = Fish::new(Coord(1, 2), &config());
    assert_eq!(f.coordinate, Coord(1, 2));
    assert_eq!(f.breed_count_down, 3);
}

#[test]
fn fish_update_decrements_and_resets_past_zero() {
    let c = config();
    let mut f = Fish::new(Coord(0, 0), &c);
    f.update(&c);
    assert_eq!(f.breed_count_down, 2);
    f.update(&c);
    assert_eq!(f.breed_count_down, 1);
    f.update(&c);
    assert_eq!(f.breed_count_down, 0);
    f.update(&c);
    assert_eq!(f.breed_count_down, 3);
}

#[test]
fn fish_stalls_when_boxed_in() {
    let f = Fish::new(Coord(0, 0), &config());
    let d = f.decide(&vec![]);
    assert_eq!(d, Decision::Stall(Coord(0, 0)));
}

#[test]
fn fish_moves_to_single_empty_neighbor() {
    let c = config();
    let f = Fish::new(Coord(0, 0), &c);
    let d = f.decide(&vec![Cell::Empty(Coord(1, 0))]);
    assert_eq!(d, Decision::Move(Coord(0, 0), Coord(1, 0)));
}

#[test]
fn fish_breeds_at_zero_countdown() {
    let c = config();
    let mut f = Fish::new(Coord(0, 0), &c);
    f.breed_count_down = 0;
    let d = f.decide(&vec![Cell::Empty(Coord(1, 0))]);
    assert_eq!(d, Decision::MoveAndBreed(Coord(0, 0), Coord(1, 0)));
}

#[test]
fn shark_new_takes_configured_timers() {
    let s = Shark::new(Coord(2, 1), &config());
    assert_eq!(s.coordinate, Coord(2, 1));
    assert_eq!(s.breed_count_down, 5);
    assert_eq!(s.starve_count_down, 4);
}

#[test]
fn shark_update_decrements_both_countdowns() {
    let mut s = Shark::new(Coord(0, 0), &config());
    s.update();
    assert_eq!(s.breed_count_down, 4);
    assert_eq!(s.starve_count_down, 3);
}

#[test]
fn shark_starves_after_countdown_goes_negative() {
    let mut c = config();
    c.shark_starve_time = 0;
    let mut s = Shark::new(Coord(1, 1), &c);
    assert_eq!(s.starve_count_down, 0);
    s.update();
    assert_eq!(s.starve_count_down, -1);
    // Starvation wins regardless of neighbor contents.
    let d = s.decide(&vec![
        Cell::Empty(Coord(0, 1)),
        Cell::Filled(wator::Agent::Fish(Fish::new(Coord(2, 1), &c))),
    ]);
    assert_eq!(d, Decision::Starve(Coord(1, 1)));
    let d2 = s.decide(&vec![]);
    assert_eq!(d2, Decision::Starve(Coord(1, 1)));
}

#[test]
fn shark_prefers_the_fish_neighbor() {
    let c = config();
    let s = Shark::new(Coord(0, 0), &c);
    let fish_cell = Cell::Filled(wator::Agent::Fish(Fish::new(Coord(1, 0), &c)));
    let d = s.decide(&vec![Cell::Empty(Coord(0, 1)), fish_cell]);
    assert_eq!(d, Decision::EatAndMove(Coord(0, 0), Coord(1, 0)));
}

#[test]
fn shark_eats_and_breeds_on_negative_breed_countdown() {
    let c = config();
    let mut s = Shark::new(Coord(0, 0), &c);
    s.breed_count_down = -1;
    let fish_cell = Cell::Filled(wator::Agent::Fish(Fish::new(Coord(1, 0), &c)));
    let d = s.decide(&vec![fish_cell]);
    assert_eq!(d, Decision::EatAndBreed(Coord(0, 0), Coord(1, 0)));
}

#[test]
fn shark_moves_when_no_fish_is_near() {
    let c = config();
    let s = Shark::new(Coord(0, 0), &c);
    let d = s.decide(&vec![Cell::Empty(Coord(1, 0))]);
    assert_eq!(d, Decision::Move(Coord(0, 0), Coord(1, 0)));
}

#[test]
fn shark_stalls_when_boxed_in() {
    let c = config();
    let s = Shark::new(Coord(0, 0), &c);
    let d = s.decide(&vec![]);
    assert_eq!(d, Decision::Stall(Coord(0, 0)));
}

#[test]
fn shark_breed_resets_own_countdown_and_spawns_fresh() {
    let c = config();
    let mut s = Shark::new(Coord(2, 2), &c);
    s.breed_count_down = -1;
    s.starve_count_down = 1;
    let child = s.breed(&c);
    // breeding resets both of the parent's countdowns
    assert_eq!(s.breed_count_down, 5);
    assert_eq!(s.starve_count_down, 4);
    assert_eq!(child.coordinate, Coord(2, 2));
    assert_eq!(child.breed_count_down, 5);
    assert_eq!(child.starve_count_down, 4);
}

#[test]
fn decision_get_origin_every_variant() {
    let a = Coord(1, 2);
    let b = Coord(2, 2);
    assert_eq!(*Decision::EatAndMove(a, b).get_origin(), a);
    assert_eq!(*Decision::EatAndBreed(a, b).get_origin(), a);
    assert_eq!(*Decision::Move(a, b).get_origin(), a);
    assert_eq!(*Decision::MoveAndBreed(a, b).get_origin(), a);
    assert_eq!(*Decision::Starve(a).get_origin(), a);
    assert_eq!(*Decision::Stall(a).get_origin(), a);
}

#[test]
fn cell_queries() {
    let c = config();
    let empty = Cell::Empty(Coord(0, 2));
    let fish = Cell::Filled(wator::Agent::Fish(Fish::new(Coord(1, 0), &c)));
    let shark = Cell::Filled(wator::Agent::Shark(Shark::new(Coord(2, 0), &c)));
    assert!(empty.is_empty());
    assert!(!fish.is_empty());
    assert!(!shark.is_empty());
    assert!(!empty.is_fish());
    assert!(fish.is_fish());
    assert!(!shark.is_fish());
    assert_eq!(empty.to_coord_unchecked(), Coord(0, 2));
    assert_eq!(fish.to_coord_unchecked(), Coord(1, 0));
    assert_eq!(shark.to_coord_unchecked(), Coord(2, 0));
}

#[test]
fn agent_kind_dispatch() {
    let c = config();
    let f = wator::Agent::Fish(Fish::new(Coord(0, 0), &c));
    let s = wator::Agent::Shark(Shark::new(Coord(1, 1), &c));
    assert_eq!(f.get_kind(), AgentKind::Fish);
    assert_eq!(s.get_kind(), AgentKind::Shark);
    assert_eq!(f.coordinate(), Coord(0, 0));
    assert_eq!(s.coordinate(), Coord(1, 1));
}

#[test]
fn tick_trace_counters() {
    let mut t = TickTrace::new();
    assert_eq!(t.fish_birth, 0);
    assert_eq!(t.fish_death, 0);
    assert_eq!(t.shark_birth, 0);
    assert_eq!(t.shark_death, 0);
    t.birth(AgentKind::Fish);
    t.birth(AgentKind::Fish);
    t.birth(AgentKind::Shark);
    t.death(AgentKind::Shark);
    t.death(AgentKind::Fish);
    assert_eq!(t.fish_birth, 2);
    assert_eq!(t.shark_birth, 1);
    assert_eq!(t.fish_death, 1);
    assert_eq!(t.shark_death, 1);
}
