//! A 16-frame ping-pong explosion animation with a start delay and a
//! one-shot sound cue.

use vstd::prelude::*;

verus! {

/// One explosion animation.  Times are milliseconds; positions are
/// millionths of the playfield.
#[derive(Clone, Copy, Debug)]
pub struct Explosion {
    pub start_time: u32,
    pub duration: u32,
    pub elapsed: u32,
    pub index: usize,
    pub pos_x: i32,
    pub pos_y: i32,
    pub sound_played: bool,
}

/// The largest frame delta an update accepts, far above any real frame.
pub open spec fn max_frame_ms() -> int {
    100_000
}

pub open spec fn wf_explosion(e: Explosion) -> bool {
    &&& 1 <= e.duration <= 10_000
    &&& e.start_time <= 10_000
    &&& e.index <= 15
    &&& e.elapsed <= e.start_time + e.duration + max_frame_ms()
}

/// The animation frame for a given elapsed time: a ping-pong
/// 0,1,...,15,14,...,0 over the duration, clamped at rest past the end.
pub open spec fn spec_frame_index(start_time: int, duration: int, elapsed: int) -> int {
    let t = (elapsed - start_time) * 30 / duration;
    if t >= 30 {
        0
    } else if t > 15 {
        30 - t
    } else {
        t
    }
}

/// Whether the animation has run to completion.
pub open spec fn spec_explosion_done(e: Explosion) -> bool {
    e.elapsed > e.start_time + e.duration
}

/// The explosion after one frame of `dt` milliseconds: the clock advances
/// until the animation has finished, and the frame index follows it once the
/// start delay has passed.
pub open spec fn spec_explosion_step(e: Explosion, dt: int) -> Explosion {
    if e.elapsed <= e.start_time + e.duration {
        let elapsed2 = (e.elapsed + dt) as u32;
        let index2 = if elapsed2 >= e.start_time {
            spec_frame_index(e.start_time as int, e.duration as int, elapsed2 as int) as usize
        } else {
            e.index
        };
        let fired = !e.sound_played && elapsed2 >= e.start_time;
        Explosion { elapsed: elapsed2, index: index2, sound_played: e.sound_played || fired, ..e }
    } else {
        e
    }
}

/// Whether stepping the explosion crosses the start delay for the first
/// time, which is the one moment its sound cue fires.
pub open spec fn spec_explosion_fired(e: Explosion, dt: int) -> bool {
    e.elapsed <= e.start_time + e.duration && !e.sound_played && e.elapsed + dt >= e.start_time
}

/// Every explosion of the collection advanced by one frame.
pub open spec fn stepped_explosions(es: Seq<Explosion>, dt: int) -> Seq<Explosion> {
    es.map_values(|e: Explosion| spec_explosion_step(e, dt))
}

/// How many explosions of the collection fire their sound cue this frame.
pub open spec fn spec_count_explosion_fires(es: Seq<Explosion>, dt: int) -> nat
    decreases es.len(),
{
    if es.len() == 0 {
        0
    } else {
        spec_count_explosion_fires(es.drop_last(), dt) + (if spec_explosion_fired(es.last(), dt) {
            1nat
        } else {
            0nat
        })
    }
}

impl Explosion {
    /// A fresh explosion at a position, beginning after `start_time` ms.
    pub fn new(start_time: u32, pos_x: i32, pos_y: i32) -> (e: Explosion)
        requires
            start_time <= 10_000,
        ensures
            e == (Explosion {
                start_time,
                duration: 500,
                elapsed: 0,
                index: 0,
                pos_x,
                pos_y,
                sound_played: false,
            }),
            wf_explosion(e),
    {
        Explosion { start_time, duration: 500, elapsed: 0, index: 0, pos_x, pos_y, sound_played: false }
    }

    /// Advances the animation clock by `dt` ms.  Returns true exactly when
    /// the sound cue fires, which happens at most once over the explosion's
    /// life.
    pub fn update(&mut self, dt: u32) -> (fired: bool)
        requires
            wf_explosion(*old(self)),
            dt <= max_frame_ms(),
        ensures
            wf_explosion(*final(self)),
            *final(self) == spec_explosion_step(*old(self), dt as int),
            fired == spec_explosion_fired(*old(self), dt as int),
            fired ==> !old(self).sound_played && final(self).sound_played,
    {
        let mut fired = false;
        if self.elapsed <= self.start_time + self.duration {
            self.elapsed = self.elapsed + dt;
            if self.elapsed >= self.start_time {
                let t = (self.elapsed - self.start_time) * 30 / self.duration;
                self.index = if t >= 30 {
                    0
                } else if t > 15 {
                    (30 - t) as usize
                } else {
                    t as usize
                };
            }
            if !self.sound_played && self.elapsed >= self.start_time {
                self.sound_played = true;
                fired = true;
            }
        }
        fired
    }
}

} // verus!
