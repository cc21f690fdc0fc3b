//! Target election and manual cycling.

use math_defense::alien::{Alien, AlienState};
use math_defense::explosion::Explosion;
use math_defense::level::Operation;
use math_defense::targeting::{
    all_aliens_dead, any_breach, any_cycle_candidate, get_lowest_living_alien, next_target,
    prev_target,
};

fn alien_at(x: i32, y: i32, state: AlienState) -> Alien {
    Alien {
        operation: Operation::Add,
        speed_milli: 2_500,
        pos_x: x,
        pos_y: y,
        num1: 1,
        num2: 2,
        answer: 3,
        text: String::from("1+2"),
        explosion: Explosion::new(0, 0, 0),
        state,
    }
}

#[test]
fn elects_deepest_living() {
    let aliens = vec![
        alien_at(100_000, 300_000, AlienState::Alive),
        alien_at(300_000, 700_000, AlienState::Dead),
        alien_at(500_000, 600_000, AlienState::Alive),
        alien_at(700_000, 100_000, AlienState::Exploding),
    ];
    // The dead alien is ignored even though it sits deepest.
    assert_eq!(get_lowest_living_alien(&aliens), Some(2));
}

#[test]
fn election_breaks_ties_by_first() {
    let aliens = vec![
        alien_at(100_000, 500_000, AlienState::Alive),
        alien_at(300_000, 500_000, AlienState::Alive),
    ];
    assert_eq!(get_lowest_living_alien(&aliens), Some(0));
}

#[test]
fn election_none_when_all_dead() {
    let aliens = vec![
        alien_at(100_000, 500_000, AlienState::Dead),
        alien_at(300_000, 200_000, AlienState::Dead),
    ];
    assert_eq!(get_lowest_living_alien(&aliens), None);
    assert!(all_aliens_dead(&aliens));
    let empty: Vec<Alien> = Vec::new();
    assert_eq!(get_lowest_living_alien(&empty), None);
}

#[test]
fn cycling_skips_dead_and_spawning() {
    // Three aliens at x = 0.2, 0.5, 0.8; the middle one is dead.  Left
    // from the rightmost wraps past the dead one to the leftmost.
    let aliens = vec![
        alien_at(200_000, 100_000, AlienState::Alive),
        alien_at(500_000, 100_000, AlienState::Dead),
        alien_at(800_000, 100_000, AlienState::Alive),
    ];
    assert_eq!(prev_target(&aliens, 2), 0);
    assert_eq!(next_target(&aliens, 0), 2);
    // A still-spawning alien (above the field) is skipped too.
    let aliens2 = vec![
        alien_at(200_000, 100_000, AlienState::Alive),
        alien_at(500_000, -300_000, AlienState::Alive),
        alien_at(800_000, 100_000, AlienState::Alive),
    ];
    assert_eq!(prev_target(&aliens2, 2), 0);
    assert_eq!(next_target(&aliens2, 0), 2);
}

#[test]
fn cycling_can_return_to_self() {
    let aliens = vec![
        alien_at(200_000, 100_000, AlienState::Alive),
        alien_at(500_000, 100_000, AlienState::Dead),
    ];
    assert_eq!(prev_target(&aliens, 0), 0);
    assert_eq!(next_target(&aliens, 0), 0);
}

#[test]
fn candidate_and_breach_scans() {
    let aliens = vec![
        alien_at(200_000, -100_000, AlienState::Alive),
        alien_at(500_000, 100_000, AlienState::Dead),
    ];
    // Alive but off screen, or dead: no cycling candidate.
    assert!(!any_cycle_candidate(&aliens));
    assert!(!any_breach(&aliens));
    let deep = vec![alien_at(200_000, 900_001, AlienState::Dead)];
    assert!(any_breach(&deep));
}
