//! Target election and manual cycling over the alien collection, plus the
//! two per-frame scans of the round loop: has any alien reached the turret,
//! and is the wave cleared.

use vstd::prelude::*;

use crate::alien::{breach_y, Alien, AlienState};

verus! {

/// Every alien in the wave is dead (vacuously true of an empty wave).
pub open spec fn all_dead(aliens: Seq<Alien>) -> bool {
    forall|i: int| 0 <= i < aliens.len() ==> (#[trigger] aliens[i].state) is Dead
}

/// Some alien has descended past the turret line.
pub open spec fn spec_breach(aliens: Seq<Alien>) -> bool {
    exists|i: int| 0 <= i < aliens.len() && (#[trigger] aliens[i].pos_y) > breach_y()
}

/// An alien the player can cycle to: alive and already on screen.
pub open spec fn cycle_candidate(aliens: Seq<Alien>, i: int) -> bool {
    0 <= i < aliens.len() && aliens[i].state is Alive && aliens[i].pos_y >= 0
}

/// How many steps leftward (with wraparound) from `idx` reach `j`; ranges
/// over 1..=len, with the full circle leading back to `idx` itself.
pub open spec fn left_dist(idx: int, j: int, len: int) -> int {
    if j < idx {
        idx - j
    } else {
        idx + len - j
    }
}

/// How many steps rightward (with wraparound) from `idx` reach `j`.
pub open spec fn right_dist(idx: int, j: int, len: int) -> int {
    if j > idx {
        j - idx
    } else {
        j + len - idx
    }
}

/// Elects the target: the deepest non-dead alien, ties broken by the first
/// occurrence; `None` exactly when the wave is cleared.
pub fn get_lowest_living_alien(aliens: &Vec<Alien>) -> (r: Option<usize>)
    ensures
        r is None <==> all_dead(aliens@),
        r matches Some(i) ==> {
            &&& i < aliens@.len()
            &&& !((#[trigger] aliens@[i as int].state) is Dead)
            &&& forall|j: int|
                0 <= j < aliens@.len() && !((#[trigger] aliens@[j].state) is Dead)
                    ==> aliens@[j].pos_y <= aliens@[i as int].pos_y
            &&& forall|j: int|
                0 <= j < i && !((#[trigger] aliens@[j].state) is Dead) ==> aliens@[j].pos_y
                    < aliens@[i as int].pos_y
        },
{
    let mut best: Option<usize> = None;
    let mut k: usize = 0;
    let n = aliens.len();
    while k < n
        invariant
            k <= n,
            n == aliens@.len(),
            best is None <==> all_dead(aliens@.take(k as int)),
            best matches Some(i) ==> {
                &&& i < k
                &&& !((#[trigger] aliens@[i as int].state) is Dead)
                &&& forall|j: int|
                    0 <= j < k && !((#[trigger] aliens@[j].state) is Dead) ==> aliens@[j].pos_y
                        <= aliens@[i as int].pos_y
                &&& forall|j: int|
                    0 <= j < i && !((#[trigger] aliens@[j].state) is Dead) ==> aliens@[j].pos_y
                        < aliens@[i as int].pos_y
            },
        decreases n - k,
    {
        assert(aliens@.take(k + 1).len() == k + 1);
        assert(forall|j: int| 0 <= j <= k ==> aliens@.take(k + 1)[j] == aliens@[j]);
        if !matches!(aliens[k].state, AlienState::Dead) {
            match best {
                Some(i) => {
                    if aliens[k].pos_y > aliens[i].pos_y {
                        best = Some(k);
                    }
                },
                None => {
                    best = Some(k);
                },
            }
        }
        k = k + 1;
    }
    proof {
        assert(aliens@.take(n as int) =~= aliens@);
    }
    best
}

/// Moves the target one step left (wrapping), skipping dead and still
/// off-screen aliens: lands on the nearest candidate to the left.
pub fn prev_target(aliens: &Vec<Alien>, idx: usize) -> (r: usize)
    requires
        idx < aliens@.len(),
        exists|j: int| cycle_candidate(aliens@, j),
    ensures
        cycle_candidate(aliens@, r as int),
        forall|j: int|
            cycle_candidate(aliens@, j) ==> left_dist(idx as int, r as int, aliens@.len() as int)
                <= left_dist(idx as int, j, aliens@.len() as int),
{
    let n = aliens.len();
    let mut i: usize = if idx == 0 {
        n - 1
    } else {
        idx - 1
    };
    while !(matches!(aliens[i].state, AlienState::Alive) && aliens[i].pos_y >= 0)
        invariant
            n == aliens@.len(),
            idx < n,
            i < n,
            exists|j: int| cycle_candidate(aliens@, j),
            1 <= left_dist(idx as int, i as int, n as int) <= n,
            forall|j: int|
                cycle_candidate(aliens@, j) ==> left_dist(idx as int, i as int, n as int)
                    <= left_dist(idx as int, j, n as int),
        decreases n - left_dist(idx as int, i as int, n as int),
    {
        proof {
            let d = left_dist(idx as int, i as int, n as int);
            if d == n {
                assert(i == idx);
                let j = choose|j: int| cycle_candidate(aliens@, j);
                assert(left_dist(idx as int, j, n as int) <= n);
                assert(!cycle_candidate(aliens@, i as int));
                assert(false);
            }
        }
        i = if i == 0 {
            n - 1
        } else {
            i - 1
        };
    }
    i
}

/// Moves the target one step right (wrapping), skipping dead and still
/// off-screen aliens: lands on the nearest candidate to the right.
pub fn next_target(aliens: &Vec<Alien>, idx: usize) -> (r: usize)
    requires
        idx < aliens@.len(),
        exists|j: int| cycle_candidate(aliens@, j),
    ensures
        cycle_candidate(aliens@, r as int),
        forall|j: int|
            cycle_candidate(aliens@, j) ==> right_dist(idx as int, r as int, aliens@.len() as int)
                <= right_dist(idx as int, j, aliens@.len() as int),
{
    let n = aliens.len();
    let mut i: usize = if idx + 1 >= n {
        0
    } else {
        idx + 1
    };
    while !(matches!(aliens[i].state, AlienState::Alive) && aliens[i].pos_y >= 0)
        invariant
            n == aliens@.len(),
            idx < n,
            i < n,
            exists|j: int| cycle_candidate(aliens@, j),
            1 <= right_dist(idx as int, i as int, n as int) <= n,
            forall|j: int|
                cycle_candidate(aliens@, j) ==> right_dist(idx as int, i as int, n as int)
                    <= right_dist(idx as int, j, n as int),
        decreases n - right_dist(idx as int, i as int, n as int),
    {
        proof {
            let d = right_dist(idx as int, i as int, n as int);
            if d == n {
                assert(i == idx);
                let j = choose|j: int| cycle_candidate(aliens@, j);
                assert(right_dist(idx as int, j, n as int) <= n);
                assert(!cycle_candidate(aliens@, i as int));
                assert(false);
            }
        }
        i = if i + 1 >= n {
            0
        } else {
            i + 1
        };
    }
    i
}

/// Whether at least one alien is a cycling candidate (alive and on screen).
pub fn any_cycle_candidate(aliens: &Vec<Alien>) -> (r: bool)
    ensures
        r == exists|j: int| cycle_candidate(aliens@, j),
{
    let n = aliens.len();
    let mut k: usize = 0;
    while k < n
        invariant
            k <= n,
            n == aliens@.len(),
            forall|j: int| 0 <= j < k ==> !cycle_candidate(aliens@, j),
        decreases n - k,
    {
        if matches!(aliens[k].state, AlienState::Alive) && aliens[k].pos_y >= 0 {
            assert(cycle_candidate(aliens@, k as int));
            return true;
        }
        k = k + 1;
    }
    false
}

/// Whether some alien has reached the turret line.
pub fn any_breach(aliens: &Vec<Alien>) -> (r: bool)
    ensures
        r == spec_breach(aliens@),
{
    let n = aliens.len();
    let mut k: usize = 0;
    while k < n
        invariant
            k <= n,
            n == aliens@.len(),
            forall|j: int| 0 <= j < k ==> !((#[trigger] aliens@[j].pos_y) > breach_y()),
        decreases n - k,
    {
        if aliens[k].pos_y > 900_000 {
            return true;
        }
        k = k + 1;
    }
    false
}

/// Whether the wave is cleared: every alien dead.
pub fn all_aliens_dead(aliens: &Vec<Alien>) -> (r: bool)
    ensures
        r == all_dead(aliens@),
{
    let n = aliens.len();
    let mut k: usize = 0;
    while k < n
        invariant
            k <= n,
            n == aliens@.len(),
            forall|j: int| 0 <= j < k ==> (#[trigger] aliens@[j].state) is Dead,
        decreases n - k,
    {
        if !matches!(aliens[k].state, AlienState::Dead) {
            return false;
        }
        k = k + 1;
    }
    true
}

} // verus!
