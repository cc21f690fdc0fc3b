//! The explosion animation, the alien lifecycle, and the turret reservoir.

use math_defense::alien::{Alien, AlienState};
use math_defense::explosion::Explosion;
use math_defense::level::Operation;
use math_defense::turret::Turret;

fn alien() -> Alien {
    Alien {
        operation: Operation::Add,
        speed_milli: 2_500,
        pos_x: 500_000,
        pos_y: 100_000,
        num1: 1,
        num2: 2,
        answer: 3,
        text: String::from("1+2"),
        explosion: Explosion::new(0, 0, 0),
        state: AlienState::Alive,
    }
}

#[test]
fn explosion_frames_ping_pong() {
    let mut e = Explosion::new(0, 0, 0);
    assert_eq!(e.duration, 500);
    let fired = e.update(100);
    assert!(fired, "the sound cue fires when the delay is first reached");
    assert_eq!(e.index, 6);
    assert!(!e.update(150), "the sound fires only once");
    assert_eq!(e.index, 15, "the peak frame");
    e.update(50);
    assert_eq!(e.index, 12, "counting back down");
    e.update(200);
    assert_eq!(e.index, 0, "at rest past the end");
    e.update(150);
    assert!(e.elapsed > e.duration);
    let frozen = e.elapsed;
    e.update(100);
    assert_eq!(e.elapsed, frozen, "a finished explosion is inert");
    // Frames stay within the sprite sheet whatever the deltas.
    let mut e2 = Explosion::new(250, 0, 0);
    for _ in 0..40 {
        e2.update(33);
        assert!(e2.index <= 15);
    }
}

#[test]
fn delayed_explosion_waits_for_its_cue() {
    let mut e = Explosion::new(400, 0, 0);
    assert!(!e.update(100), "silent before the delay");
    assert_eq!(e.index, 0);
    assert!(e.update(350), "fires on crossing the delay");
}

#[test]
fn aliens_descend_and_die_by_explosion() {
    let mut a = alien();
    let signals = a.update(100);
    assert!(!signals.finished && !signals.fired);
    // Below the entrance line the craft falls three times as fast.
    assert_eq!(a.pos_y, 100_000 + 2_500 * 100 / 100);
    let mut b = alien();
    b.pos_y = 0;
    b.update(100);
    assert_eq!(b.pos_y, 3 * 2_500 * 100 / 100);
    // A struck alien dies when its explosion has run its course, and the
    // round loop is told so it can rest the turret's laser.
    a.state = AlienState::Exploding;
    let s1 = a.update(300);
    assert!(s1.fired, "the embedded explosion sounds once");
    assert!(!s1.finished);
    let s2 = a.update(300);
    assert!(s2.finished);
    assert_eq!(a.state, AlienState::Dead);
    let s3 = a.update(100);
    assert!(!s3.finished, "a dead alien stays dead");
    let frozen = a.pos_y;
    a.update(100);
    assert_eq!(a.pos_y, frozen, "a dead alien stops moving");
}

#[test]
fn turret_reservoir_runs_out() {
    let mut t = Turret::new();
    assert_eq!(t.explosions.len(), 20);
    assert!(t.explosions.iter().all(|e| e.start_time < 1_000 && e.elapsed == 0));
    assert!(!t.explosions_done());
    let mut fired = 0;
    for _ in 0..40 {
        fired += t.update_explosions(100);
    }
    assert_eq!(fired, 20, "every destruction explosion sounds exactly once");
    assert!(t.explosions_done());
}
