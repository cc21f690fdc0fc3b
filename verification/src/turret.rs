//! The player's turret: its firing state, the typed entry buffer, and the
//! reservoir of twenty destruction explosions that animate a lost life.

use vstd::prelude::*;

use crate::explosion::{
    max_frame_ms, spec_count_explosion_fires, spec_explosion_done, spec_explosion_fired,
    spec_explosion_step, stepped_explosions, wf_explosion, Explosion,
};
use crate::rng::{new_rng, rand_range};

verus! {

/// `Firing` while the laser to the struck target is shown; `Resting`
/// otherwise.  The laser rests again when the target's explosion finishes.
#[derive(Clone, Copy, PartialEq, Eq, Structural, Debug)]
pub enum TurretState {
    Firing,
    Resting,
}

/// The player avatar.  `raw_text` is the entry buffer of typed digits and
/// minus signs; the twenty `explosions` play, randomly placed and delayed,
/// when the player loses a life.
#[derive(Clone, Debug)]
pub struct Turret {
    pub raw_text: Vec<char>,
    pub state: TurretState,
    pub explosions: Vec<Explosion>,
}

pub open spec fn wf_turret(t: Turret) -> bool {
    &&& t.explosions@.len() == 20
    &&& forall|i: int|
        0 <= i < t.explosions@.len() ==> wf_explosion(#[trigger] t.explosions@[i])
            && t.explosions@[i].start_time < 1_000
}

/// Whether every destruction explosion has run to completion; the dying
/// animation ends here.
pub open spec fn spec_turret_explosions_done(t: Turret) -> bool {
    forall|i: int| 0 <= i < t.explosions@.len() ==> spec_explosion_done(#[trigger] t.explosions@[i])
}

impl Turret {
    /// A fresh turret: resting, empty buffer, and twenty destruction
    /// explosions scattered around the turret's corner of the field with
    /// random start delays under a second.
    pub fn new() -> (t: Turret)
        ensures
            wf_turret(t),
            t.raw_text@ =~= Seq::<char>::empty(),
            t.state is Resting,
            forall|i: int|
                0 <= i < t.explosions@.len() ==> (#[trigger] t.explosions@[i]).elapsed == 0
                    && !t.explosions@[i].sound_played && t.explosions@[i].duration == 500
                    && 450_000 <= t.explosions@[i].pos_x < 550_000 && 850_000
                    <= t.explosions@[i].pos_y < 950_000,
    {
        let mut rng = new_rng();
        let mut explosions: Vec<Explosion> = Vec::new();
        let mut k: usize = 0;
        while k < 20
            invariant
                k <= 20,
                explosions@.len() == k,
                forall|i: int|
                    0 <= i < explosions@.len() ==> wf_explosion(#[trigger] explosions@[i])
                        && explosions@[i].start_time < 1_000 && explosions@[i].elapsed == 0
                        && !explosions@[i].sound_played && explosions@[i].duration == 500
                        && 450_000 <= explosions@[i].pos_x < 550_000 && 850_000
                        <= explosions@[i].pos_y < 950_000,
            decreases 20 - k,
        {
            let r1 = rand_range(&mut rng, 0, 100_000);
            let r2 = rand_range(&mut rng, 0, 100_000);
            let t = rand_range(&mut rng, 0, 1_000);
            explosions.push(Explosion::new(t, 450_000 + r1 as i32, 850_000 + r2 as i32));
            k = k + 1;
        }
        Turret { raw_text: Vec::new(), state: TurretState::Resting, explosions }
    }

    /// Advances every destruction explosion by one frame; returns how many
    /// sound cues fired this frame.
    pub fn update_explosions(&mut self, dt: u32) -> (fired: usize)
        requires
            wf_turret(*old(self)),
            dt <= max_frame_ms(),
        ensures
            wf_turret(*final(self)),
            final(self).raw_text == old(self).raw_text,
            final(self).state == old(self).state,
            final(self).explosions@ == stepped_explosions(old(self).explosions@, dt as int),
            fired == spec_count_explosion_fires(old(self).explosions@, dt as int),
    {
        let mut fired: usize = 0;
        let mut k: usize = 0;
        let n = self.explosions.len();
        while k < n
            invariant
                k <= n,
                n == old(self).explosions@.len(),
                self.explosions@.len() == n,
                self.raw_text == old(self).raw_text,
                self.state == old(self).state,
                dt <= max_frame_ms(),
                fired == spec_count_explosion_fires(old(self).explosions@.take(k as int), dt as int),
                fired <= k,
                forall|i: int|
                    0 <= i < n ==> wf_explosion(#[trigger] old(self).explosions@[i]) && old(
                        self,
                    ).explosions@[i].start_time < 1_000,
                forall|i: int|
                    k <= i < n ==> #[trigger] self.explosions@[i] == old(self).explosions@[i],
                forall|i: int|
                    0 <= i < k ==> #[trigger] self.explosions@[i] == spec_explosion_step(
                        old(self).explosions@[i],
                        dt as int,
                    ),
            decreases n - k,
        {
            let e = &mut self.explosions[k];
            let f = e.update(dt);
            if f {
                fired = fired + 1;
            }
            proof {
                let pre = old(self).explosions@.take(k as int);
                let cur = old(self).explosions@.take(k + 1);
                assert(cur.drop_last() =~= pre);
                assert(cur.last() == old(self).explosions@[k as int]);
            }
            k = k + 1;
        }
        proof {
            assert(self.explosions@ =~= stepped_explosions(old(self).explosions@, dt as int));
            assert(old(self).explosions@.take(n as int) =~= old(self).explosions@);
        }
        fired
    }

    /// Whether every destruction explosion has completed.
    pub fn explosions_done(&self) -> (done: bool)
        requires
            wf_turret(*self),
        ensures
            done == spec_turret_explosions_done(*self),
    {
        let n = self.explosions.len();
        let mut k: usize = 0;
        while k < n
            invariant
                k <= n,
                n == self.explosions@.len(),
                wf_turret(*self),
                forall|i: int| 0 <= i < k ==> spec_explosion_done(#[trigger] self.explosions@[i]),
            decreases n - k,
        {
            assert(wf_explosion(self.explosions@[k as int]));
            let e = &self.explosions[k];
            if !(e.elapsed > e.start_time + e.duration) {
                return false;
            }
            k = k + 1;
        }
        true
    }
}

} // verus!
