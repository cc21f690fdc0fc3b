//! One descending enemy craft: its lifecycle (alive, exploding, dead), its
//! motion, and the consistency between its printed expression and its
//! numeric answer.

use vstd::prelude::*;

use crate::explosion::{
    max_frame_ms, spec_explosion_fired, spec_explosion_step, wf_explosion, Explosion,
};
use crate::level::Operation;
use crate::numbers::dec_digits;

verus! {

/// The lifecycle of an alien.  `Alive` becomes `Exploding` on a correct hit;
/// `Exploding` becomes `Dead` when the embedded explosion finishes; `Dead`
/// is terminal.
#[derive(Clone, Copy, PartialEq, Eq, Structural, Debug)]
pub enum AlienState {
    Alive,
    Exploding,
    Dead,
}

/// One enemy craft.  Positions are millionths of the playfield; the craft
/// only ever moves straight down.  `num1` and `num2` are the two operands of
/// the printed expression, kept so the answer's provenance stays checkable.
#[derive(Clone, Debug)]
pub struct Alien {
    pub operation: Operation,
    pub speed_milli: u32,
    pub pos_x: i32,
    pub pos_y: i32,
    pub num1: u32,
    pub num2: u32,
    pub answer: i32,
    pub text: String,
    pub explosion: Explosion,
    pub state: AlienState,
}

/// An alien below this height is still descending into view and falls three
/// times as fast.
pub open spec fn entrance_y() -> int {
    70_000
}

/// Any alien deeper than this has reached the turret.
pub open spec fn breach_y() -> int {
    900_000
}

/// Aliens never advance past this depth; it is well below the visible field,
/// and keeps the position arithmetic bounded.
pub open spec fn depth_cap() -> int {
    2_000_000
}

pub open spec fn wf_alien(a: Alien) -> bool {
    &&& a.speed_milli <= 300_000
    &&& 50_000 <= a.pos_x < 950_000
    &&& -1_000_000_000 <= a.pos_y <= depth_cap()
    &&& wf_explosion(a.explosion)
    &&& a.explosion.start_time == 0
}

/// The display character of an operation.
pub open spec fn op_char(op: Operation) -> char {
    match op {
        Operation::Add => '+',
        Operation::Subtract => '-',
        Operation::Multiply => '×',
        Operation::Divide => '/',
    }
}

/// The printed expression of an alien: its two operands around the
/// operation's character.
pub open spec fn spec_expression(op: Operation, a: nat, b: nat) -> Seq<char> {
    dec_digits(a) + seq![op_char(op)] + dec_digits(b)
}

/// The next vertical position after `dt` milliseconds: speed is thousandths
/// of a playfield per hundred seconds, tripled during the entrance, and the
/// depth is capped.
pub open spec fn spec_step_y(y: int, speed_milli: int, dt: int) -> int {
    let mult: int = if y < entrance_y() {
        3
    } else {
        1
    };
    let y2 = y + speed_milli * dt * mult / 100;
    if y2 > depth_cap() {
        depth_cap()
    } else {
        y2
    }
}

/// The alien after one frame: a dead alien is inert; otherwise it descends,
/// an exploding alien advances its explosion, and it dies the moment the
/// explosion has run its course.
pub open spec fn spec_alien_step(a: Alien, dt: int) -> Alien {
    if a.state is Dead {
        a
    } else {
        let e2 = if a.state is Exploding {
            spec_explosion_step(a.explosion, dt)
        } else {
            a.explosion
        };
        let dead = e2.elapsed > e2.duration;
        Alien {
            pos_y: spec_step_y(a.pos_y as int, a.speed_milli as int, dt) as i32,
            explosion: e2,
            state: if dead {
                AlienState::Dead
            } else {
                a.state
            },
            ..a
        }
    }
}

/// Whether one frame finishes the alien off: its explosion completes and it
/// turns dead.  The round loop rests the turret on this signal.
pub open spec fn spec_alien_finishes(a: Alien, dt: int) -> bool {
    &&& !(a.state is Dead)
    &&& {
        let e2 = if a.state is Exploding {
            spec_explosion_step(a.explosion, dt)
        } else {
            a.explosion
        };
        e2.elapsed > e2.duration
    }
}

/// Whether one frame fires the alien's explosion sound cue.
pub open spec fn spec_alien_fires(a: Alien, dt: int) -> bool {
    a.state is Exploding && spec_explosion_fired(a.explosion, dt)
}

/// Every alien of the collection advanced by one frame.
pub open spec fn stepped_aliens(aliens: Seq<Alien>, dt: int) -> Seq<Alien> {
    aliens.map_values(|a: Alien| spec_alien_step(a, dt))
}

/// How many aliens of the collection fire their explosion sound cue this
/// frame.
pub open spec fn spec_count_fires(aliens: Seq<Alien>, dt: int) -> nat
    decreases aliens.len(),
{
    if aliens.len() == 0 {
        0
    } else {
        spec_count_fires(aliens.drop_last(), dt) + (if spec_alien_fires(aliens.last(), dt) {
            1nat
        } else {
            0nat
        })
    }
}

/// Signals an alien update hands back to the round loop.
pub struct AlienSignals {
    pub finished: bool,
    pub fired: bool,
}

impl Alien {
    /// Advances the alien by one frame of `dt` milliseconds.
    pub fn update(&mut self, dt: u32) -> (signals: AlienSignals)
        requires
            wf_alien(*old(self)),
            dt <= max_frame_ms(),
        ensures
            wf_alien(*final(self)),
            *final(self) == spec_alien_step(*old(self), dt as int),
            signals.finished == spec_alien_finishes(*old(self), dt as int),
            signals.fired == spec_alien_fires(*old(self), dt as int),
            final(self).state is Dead ==> old(self).state is Dead || signals.finished,
    {
        let mut signals = AlienSignals { finished: false, fired: false };
        if !matches!(self.state, AlienState::Dead) {
            let mult: u64 = if self.pos_y < 70_000 {
                3
            } else {
                1
            };
            let sp: u64 = self.speed_milli as u64;
            proof {
                assert((sp as int) * (dt as int) * (mult as int) <= 300_000 * 100_000 * 3)
                    by (nonlinear_arith)
                    requires
                        sp <= 300_000 && dt <= 100_000 && 0 <= mult <= 3,
                ;
                assert((sp as int) * (dt as int) * (mult as int) >= 0) by (nonlinear_arith)
                    requires
                        sp >= 0 && dt >= 0 && mult >= 0,
                ;
            }
            let dy: u64 = sp * (dt as u64) * mult / 100;
            let y2: i64 = (self.pos_y as i64) + (dy as i64);
            self.pos_y = if y2 > 2_000_000 {
                2_000_000
            } else {
                y2 as i32
            };
            if matches!(self.state, AlienState::Exploding) {
                signals.fired = self.explosion.update(dt);
            }
            if self.explosion.elapsed > self.explosion.duration {
                self.state = AlienState::Dead;
                signals.finished = true;
            }
        }
        signals
    }
}

} // verus!
