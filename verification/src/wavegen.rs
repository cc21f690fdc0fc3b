//! The wave generator: turns a wave spec and a difficulty tier into the
//! ordered alien collection, sampling operands under each operation's
//! validity constraints, spacing spawn positions, and sorting by x.

use vstd::prelude::*;

use vstd::arithmetic::div_mod::{lemma_div_by_multiple, lemma_div_is_ordered, lemma_div_plus_one};

use crate::alien::{op_char, spec_expression, wf_alien, Alien, AlienState};
use crate::explosion::Explosion;
use crate::level::{
    number_mul_pct, scaled, spec_number_mul_pct, spec_scaled, spec_speed_mul_pct, speed_mul_pct,
    wf_group, wf_wave, Operation, Wave, WaveGroup,
};
use crate::numbers::u32_to_string;
use crate::rng::{new_rng, rand_range};

verus! {

/// Scaling by at least 100 percent keeps a strict inequality strict.
pub proof fn lemma_scaled_strict(v1: int, v2: int, pct: int)
    requires
        0 <= v1 < v2,
        100 <= pct,
    ensures
        spec_scaled(v1, pct) < spec_scaled(v2, pct),
{
    assert(v1 * pct + 100 <= v2 * pct) by (nonlinear_arith)
        requires
            v1 < v2 && 100 <= pct,
    ;
    lemma_div_plus_one(v1 * pct, 100);
    assert(1 + (v1 * pct) / 100 == (100 + v1 * pct) / 100);
    lemma_div_is_ordered(100 + v1 * pct, v2 * pct, 100);
}

/// Scaling a bounded value by a bounded percentage is bounded.
pub proof fn lemma_scaled_upper(v: int, pct: int, vmax: int)
    requires
        0 <= v <= vmax,
        0 <= pct <= 300,
    ensures
        spec_scaled(v, pct) <= vmax * 3,
{
    assert(v * pct <= vmax * 300) by (nonlinear_arith)
        requires
            0 <= v <= vmax && 0 <= pct <= 300,
    ;
    lemma_div_is_ordered(v * pct, vmax * 300, 100);
    lemma_div_by_multiple(vmax * 3, 100);
    assert(vmax * 300 == (vmax * 3) * 100) by (nonlinear_arith);
}

/// Scaling by at least 100 percent never shrinks a value.
pub proof fn lemma_scaled_ge(v: int, pct: int)
    requires
        0 <= v,
        100 <= pct,
    ensures
        spec_scaled(v, pct) >= v,
{
    assert(v * 100 <= v * pct) by (nonlinear_arith)
        requires
            0 <= v && 100 <= pct,
    ;
    lemma_div_by_multiple(v, 100);
    lemma_div_is_ordered(v * 100, v * pct, 100);
}

/// The operand and answer constraints a sampled ship must satisfy, given
/// the scaled half-open operand range `[min_s, max_s)`.
///
/// Addition and multiplication sample both operands from the range
/// unchanged.  Subtraction swaps the operands below the third difficulty
/// tier so the answer is never negative.  Division clamps the lower bound
/// to one and rejects until the divisor is nonzero, no larger than the
/// dividend, and divides it exactly.
pub open spec fn operands_ok(
    op: Operation,
    difficulty: int,
    min_s: int,
    max_s: int,
    a: int,
    b: int,
    ans: int,
) -> bool {
    match op {
        Operation::Add => {
            &&& min_s <= a < max_s
            &&& min_s <= b < max_s
            &&& ans == a + b
        },
        Operation::Subtract => {
            &&& min_s <= a < max_s
            &&& min_s <= b < max_s
            &&& ans == a - b
            &&& (difficulty < 2 ==> ans >= 0)
        },
        Operation::Multiply => {
            &&& min_s <= a < max_s
            &&& min_s <= b < max_s
            &&& ans == a * b
        },
        Operation::Divide => {
            let lo = if min_s < 1 {
                1int
            } else {
                min_s
            };
            &&& lo <= b <= a < max_s
            &&& a % b == 0
            &&& ans == a / b
        },
    }
}

/// The arithmetic facts an alien carries for the life of the wave: the
/// answer matches the operands, the expression text prints them, and a
/// division is exact with a nonzero divisor.
pub open spec fn alien_arith_ok(al: Alien, difficulty: int) -> bool {
    &&& al.text@ == spec_expression(al.operation, al.num1 as nat, al.num2 as nat)
    &&& match al.operation {
        Operation::Add => al.answer == al.num1 + al.num2,
        Operation::Subtract => {
            &&& al.answer == al.num1 - al.num2
            &&& (difficulty < 2 ==> al.answer >= 0)
        },
        Operation::Multiply => al.answer == al.num1 * al.num2,
        Operation::Divide => {
            &&& 1 <= al.num2 <= al.num1
            &&& al.num1 as int % al.num2 as int == 0
            &&& al.answer == al.num1 as int / al.num2 as int
        },
    }
}

/// Draws the two operands and the answer for one ship.
fn sample_operands(
    rng: &mut rand::rngs::ThreadRng,
    op: Operation,
    difficulty: usize,
    min_s: u32,
    max_s: u32,
) -> (r: (u32, u32, i32))
    requires
        min_s < max_s,
        max_s <= 30_000,
        op is Divide ==> max_s >= 2,
        difficulty < 4,
    ensures
        operands_ok(op, difficulty as int, min_s as int, max_s as int, r.0 as int, r.1 as int, r.2 as int),
        r.0 < 30_000 && r.1 < 30_000,
{
    match op {
        Operation::Add => {
            let a = rand_range(rng, min_s, max_s);
            let b = rand_range(rng, min_s, max_s);
            (a, b, (a + b) as i32)
        },
        Operation::Subtract => {
            let mut a = rand_range(rng, min_s, max_s);
            let mut b = rand_range(rng, min_s, max_s);
            if difficulty < 2 && b > a {
                let t = a;
                a = b;
                b = t;
            }
            (a, b, a as i32 - b as i32)
        },
        Operation::Multiply => {
            let a = rand_range(rng, min_s, max_s);
            let b = rand_range(rng, min_s, max_s);
            proof {
                assert(a * b < 30_000 * 30_000) by (nonlinear_arith)
                    requires
                        0 <= a < 30_000 && 0 <= b < 30_000,
                ;
                assert(a * b >= 0) by (nonlinear_arith)
                    requires
                        a >= 0 && b >= 0,
                ;
            }
            (a, b, (a * b) as i32)
        },
        Operation::Divide => {
            let lo: u32 = if min_s < 1 {
                1
            } else {
                min_s
            };
            // Reject-sample until the division is exact.  The attempt bound
            // only forces termination; it is never reached in practice, and
            // the degenerate pair it falls back to satisfies the same
            // constraints with answer one.
            let mut attempts: u32 = 0;
            while attempts < 10_000
                invariant
                    lo < max_s,
                    max_s <= 30_000,
                    1 <= lo,
                    lo == if min_s < 1 { 1u32 } else { min_s },
                    op is Divide,
                    difficulty < 4,
                decreases 10_000 - attempts,
            {
                let a = rand_range(rng, lo, max_s);
                let b = if a == lo {
                    a
                } else {
                    rand_range(rng, lo, a)
                };
                if a % b == 0 {
                    return (a, b, (a / b) as i32);
                }
                attempts = attempts + 1;
            }
            proof {
                vstd::arithmetic::div_mod::lemma_mod_self_0(lo as int);
                vstd::arithmetic::div_mod::lemma_div_by_self(lo as int);
            }
            (lo, lo, 1)
        },
    }
}

/// The rendered expression `"<a><op><b>"`.
fn make_expression(op: Operation, a: u32, b: u32) -> (s: String)
    ensures
        s@ == spec_expression(op, a as nat, b as nat),
{
    let op_str: &'static str = match op {
        Operation::Add => "+",
        Operation::Subtract => "-",
        Operation::Multiply => "×",
        Operation::Divide => "/",
    };
    proof {
        reveal_strlit("+");
        reveal_strlit("-");
        reveal_strlit("×");
        reveal_strlit("/");
        assert(op_str@ =~= seq![op_char(op)]);
    }
    let s = u32_to_string(a).concat(op_str).concat(u32_to_string(b).as_str());
    assert(s@ =~= spec_expression(op, a as nat, b as nat));
    s
}

/// No alien sits within a tenth of the playfield of any of the three placed
/// just before it, so freshly spawned ships do not visually stack.
pub open spec fn spaced3(s: Seq<Alien>) -> bool {
    forall|i: int, j: int|
        0 <= j < i < s.len() && i - j <= 3 ==> (s[i].pos_x - s[j].pos_x >= 100_000 || #[trigger] s[j].pos_x
            - #[trigger] s[i].pos_x >= 100_000)
}

/// Whether `x` sits too close to one of the up-to-three most recently
/// placed aliens.
spec fn too_close_spec(aliens: Seq<Alien>, x: int) -> bool {
    exists|j: int|
        aliens.len() - 3 <= j < aliens.len() && 0 <= j && -100_000 < #[trigger] aliens[j].pos_x - x
            < 100_000
}

fn too_close(aliens: &Vec<Alien>, x: u32) -> (r: bool)
    requires
        x < 1_000_000,
        forall|i: int| 0 <= i < aliens@.len() ==> wf_alien(#[trigger] aliens@[i]),
    ensures
        r == too_close_spec(aliens@, x as int),
{
    let n = aliens.len();
    let lo: usize = if n >= 3 {
        n - 3
    } else {
        0
    };
    let mut j = lo;
    while j < n
        invariant
            lo <= j <= n,
            n == aliens@.len(),
            lo == if n >= 3 { n - 3 } else { 0int },
            x < 1_000_000,
            forall|i: int| 0 <= i < aliens@.len() ==> wf_alien(#[trigger] aliens@[i]),
            forall|i: int|
                lo <= i < j ==> !(-100_000 < #[trigger] aliens@[i].pos_x - x < 100_000),
        decreases n - j,
    {
        assert(wf_alien(aliens@[j as int]));
        let ax = aliens[j].pos_x;
        let diff: i32 = ax - x as i32;
        if -100_000 < diff && diff < 100_000 {
            return true;
        }
        j = j + 1;
    }
    false
}

/// Draws a horizontal spawn position in `[0.05, 0.95)` of the playfield,
/// redrawing until it clears the three most recently placed aliens.
fn place_x(rng: &mut rand::rngs::ThreadRng, aliens: &Vec<Alien>) -> (x: u32)
    requires
        forall|i: int| 0 <= i < aliens@.len() ==> wf_alien(#[trigger] aliens@[i]),
    ensures
        50_000 <= x < 950_000,
        !too_close_spec(aliens@, x as int),
{
    // Redraw until the column clears the three most recent aliens.  The
    // attempt bound only forces termination; the deterministic sweep below
    // always finds a clear column, because three aliens can block at most
    // three of five columns a fifth of the field apart.
    let mut attempts: u32 = 0;
    while attempts < 10_000
        invariant
            forall|i: int| 0 <= i < aliens@.len() ==> wf_alien(#[trigger] aliens@[i]),
        decreases 10_000 - attempts,
    {
        let x = rand_range(rng, 50_000, 950_000);
        if !too_close(aliens, x) {
            return x;
        }
        attempts = attempts + 1;
    }
    let mut ci: usize = 0;
    while ci < 5
        invariant
            ci <= 5,
            forall|i: int| 0 <= i < aliens@.len() ==> wf_alien(#[trigger] aliens@[i]),
            forall|c: int|
                0 <= c < ci ==> #[trigger] too_close_spec(aliens@, 50_000 + c * 200_000int),
        decreases 5 - ci,
    {
        let x: u32 = 50_000 + (ci as u32) * 200_000;
        if !too_close(aliens, x) {
            return x;
        }
        ci = ci + 1;
    }
    proof {
        // Four blocked columns but only three possible blockers: two
        // columns would share one, yet no alien is within a tenth of two
        // columns two tenths apart.
        let s = aliens@;
        let n = s.len() as int;
        assert(too_close_spec(s, 50_000 + 0 * 200_000int));
        assert(too_close_spec(s, 50_000 + 1 * 200_000int));
        assert(too_close_spec(s, 50_000 + 2 * 200_000int));
        assert(too_close_spec(s, 50_000 + 3 * 200_000int));
        let j0 = choose|j: int|
            n - 3 <= j < n && 0 <= j && -100_000 < (#[trigger] s[j].pos_x) - (50_000 + 0
                * 200_000) < 100_000;
        let j1 = choose|j: int|
            n - 3 <= j < n && 0 <= j && -100_000 < (#[trigger] s[j].pos_x) - (50_000 + 1
                * 200_000) < 100_000;
        let j2 = choose|j: int|
            n - 3 <= j < n && 0 <= j && -100_000 < (#[trigger] s[j].pos_x) - (50_000 + 2
                * 200_000) < 100_000;
        let j3 = choose|j: int|
            n - 3 <= j < n && 0 <= j && -100_000 < (#[trigger] s[j].pos_x) - (50_000 + 3
                * 200_000) < 100_000;
        assert(j0 != j1 && j0 != j2 && j0 != j3 && j1 != j2 && j1 != j3 && j2 != j3);
        assert(false);
    }
    // Never reached: some column above is always clear.
    50_000
}

/// Aliens in ascending x order: the left-to-right cycling order.
pub open spec fn sorted_by_x(s: Seq<Alien>) -> bool {
    forall|i: int, j: int| 0 <= i < j < s.len() ==> #[trigger] s[i].pos_x <= #[trigger] s[j].pos_x
}

/// Sorts the collection by ascending x (insertion sort), keeping exactly
/// the same aliens.
pub fn sort_aliens(aliens: &mut Vec<Alien>)
    ensures
        sorted_by_x(final(aliens)@),
        final(aliens)@.to_multiset() == old(aliens)@.to_multiset(),
        final(aliens)@.len() == old(aliens)@.len(),
{
    broadcast use vstd::seq_lib::to_multiset_insert;
    broadcast use vstd::seq_lib::to_multiset_remove;
    broadcast use vstd::seq_lib::group_to_multiset_ensures;
    broadcast use vstd::multiset::group_multiset_axioms;

    if aliens.len() <= 1 {
        return ;
    }
    let mut i: usize = 1;
    while i < aliens.len()
        invariant
            1 <= i <= aliens@.len(),
            aliens@.len() == old(aliens)@.len(),
            aliens@.to_multiset() == old(aliens)@.to_multiset(),
            sorted_by_x(aliens@.take(i as int)),
        decreases aliens@.len() - i,
    {
        let key = aliens[i].pos_x;
        let mut p: usize = i;
        while p > 0 && aliens[p - 1].pos_x > key
            invariant
                0 <= p <= i < aliens@.len(),
                key == aliens@[i as int].pos_x,
                sorted_by_x(aliens@.take(i as int)),
                forall|q: int| p <= q < i ==> #[trigger] aliens@[q].pos_x > key,
            decreases p,
        {
            p = p - 1;
        }
        assert forall|q: int| 0 <= q < p implies #[trigger] aliens@[q].pos_x <= key by {
            assert(aliens@.take(i as int)[q] == aliens@[q]);
            assert(aliens@.take(i as int)[p - 1] == aliens@[p - 1]);
            if q < p - 1 {
                assert(aliens@.take(i as int)[q].pos_x <= aliens@.take(i as int)[p - 1].pos_x);
            }
            assert(aliens@[p - 1].pos_x <= key);
        }
        let ghost pre = aliens@;
        let item = aliens.remove(i);
        let ghost mid = aliens@;
        aliens.insert(p, item);
        proof {
            assert(mid == pre.remove(i as int));
            vstd::seq_lib::to_multiset_remove::<Alien>(pre, i as int);
            assert(mid.to_multiset() == pre.to_multiset().remove(pre[i as int]));
            assert(aliens@ == mid.insert(p as int, item));
            vstd::seq_lib::to_multiset_insert::<Alien>(mid, p as int, item);
            assert(aliens@.to_multiset() == mid.to_multiset().insert(item));
            assert(pre.contains(pre[i as int]));
            proof_multiset_contains(pre, i as int);
            assert(aliens@.to_multiset() =~= pre.to_multiset());
            // The new prefix of length i + 1 is sorted.
            assert forall|q1: int, q2: int| 0 <= q1 < q2 < i + 1 implies #[trigger] aliens@.take(
                i + 1,
            )[q1].pos_x <= #[trigger] aliens@.take(i + 1)[q2].pos_x by {
                let s = aliens@;
                assert(forall|q: int| 0 <= q < p ==> #[trigger] s[q] == pre[q]);
                assert(s[p as int] == item);
                assert(forall|q: int| p < q <= i ==> #[trigger] s[q] == pre[q - 1]);
                assert(forall|q: int|
                    0 <= q < i ==> #[trigger] pre.take(i as int)[q] == pre[q]);
            }
        }
        i = i + 1;
    }
    proof {
        if aliens@.len() >= 1 {
            assert(aliens@.take(aliens@.len() as int) =~= aliens@);
        }
    }
}

/// The number of ships a wave yields at a difficulty: each group's count
/// scaled by the tier's percentage.
pub open spec fn spec_total_ships(groups: Seq<WaveGroup>, difficulty: int) -> nat
    decreases groups.len(),
{
    if groups.len() == 0 {
        0
    } else {
        spec_total_ships(groups.drop_last(), difficulty) + (spec_scaled(
            groups.last().num_ships as int,
            spec_number_mul_pct(difficulty),
        ) as nat)
    }
}

/// The facts that hold of every alien a generator run produces.
pub open spec fn generated_alien_ok(al: Alien, difficulty: int) -> bool {
    &&& wf_alien(al)
    &&& al.state is Alive
    &&& alien_arith_ok(al, difficulty)
    &&& al.explosion.elapsed == 0
    &&& !al.explosion.sound_played
    &&& al.explosion.duration == 500
}

/// An alien carries exactly one group's scaled parameters: its operation,
/// its speed scaled by the tier, and operands drawn from the group's scaled
/// half-open range (with division's floor of one).
pub open spec fn alien_matches_group(al: Alien, g: WaveGroup, difficulty: int) -> bool {
    &&& al.operation == g.operation
    &&& al.speed_milli == spec_scaled(g.speed_milli as int, spec_speed_mul_pct(difficulty))
    &&& operands_ok(
        g.operation,
        difficulty,
        spec_scaled(g.min_number as int, spec_number_mul_pct(difficulty)),
        spec_scaled(g.max_number as int, spec_number_mul_pct(difficulty)),
        al.num1 as int,
        al.num2 as int,
        al.answer as int,
    )
}

/// Every generated alien comes from one of the wave's groups and spawns at
/// a staggered nonpositive depth (three tenths of the field per ship within
/// its group).
pub open spec fn generated_from(al: Alien, w: Wave, difficulty: int) -> bool {
    &&& generated_alien_ok(al, difficulty)
    &&& (exists|gi: int|
        0 <= gi < w.groups@.len() && alien_matches_group(al, #[trigger] w.groups@[gi], difficulty))
    &&& al.pos_y <= 0
    &&& (exists|si: int| 0 <= si && al.pos_y == #[trigger] (-300_000 * si))
}

/// Generates the alien collection for one wave at one difficulty: scales
/// each group's range, speed and ship count, samples valid operands for
/// each ship, spaces the spawn columns, staggers the spawn depths, and
/// finally sorts everything by ascending x.
pub fn gen_aliens(wave: &Wave, difficulty: usize) -> (r: Vec<Alien>)
    requires
        wf_wave(*wave),
        difficulty < 4,
    ensures
        sorted_by_x(r@),
        r@.len() == spec_total_ships(wave.groups@, difficulty as int),
        forall|i: int| 0 <= i < r@.len() ==> generated_alien_ok(#[trigger] r@[i], difficulty as int),
        forall|i: int| 0 <= i < r@.len() ==> generated_from(#[trigger] r@[i], *wave, difficulty as int),
        exists|pre: Seq<Alien>|
            #[trigger] pre.to_multiset() == r@.to_multiset() && spaced3(pre) && pre.len()
                == r@.len(),
{
    let mut aliens: Vec<Alien> = Vec::new();
    let mut rng = new_rng();
    let mut gi: usize = 0;
    let ngroups = wave.groups.len();
    while gi < ngroups
        invariant
            gi <= ngroups,
            ngroups == wave.groups@.len(),
            wf_wave(*wave),
            difficulty < 4,
            aliens@.len() == spec_total_ships(wave.groups@.take(gi as int), difficulty as int),
            forall|i: int|
                0 <= i < aliens@.len() ==> generated_from(
                    #[trigger] aliens@[i],
                    *wave,
                    difficulty as int,
                ),
            spaced3(aliens@),
        decreases ngroups - gi,
    {
        assert(wf_group(wave.groups@[gi as int]));
        let op = wave.groups[gi].operation;
        let group_speed = wave.groups[gi].speed_milli;
        let group_ships = wave.groups[gi].num_ships;
        let group_min = wave.groups[gi].min_number;
        let group_max = wave.groups[gi].max_number;
        let pct_n = number_mul_pct(difficulty);
        let pct_s = speed_mul_pct(difficulty);
        let min_s = scaled(group_min, pct_n);
        let max_s = scaled(group_max, pct_n);
        let speed_s = scaled(group_speed, pct_s);
        let ships = scaled(group_ships, pct_n);
        proof {
            lemma_scaled_strict(group_min as int, group_max as int, pct_n as int);
            lemma_scaled_ge(group_max as int, pct_n as int);
            lemma_scaled_upper(group_max as int, pct_n as int, 10_000);
            lemma_scaled_upper(group_ships as int, pct_n as int, 1_000);
            lemma_scaled_upper(group_speed as int, pct_s as int, 100_000);
        }
        let mut si: usize = 0;
        while si < ships as usize
            invariant
                si <= ships,
                ships == spec_scaled(group_ships as int, spec_number_mul_pct(difficulty as int)),
                gi < ngroups,
                ngroups == wave.groups@.len(),
                wf_wave(*wave),
                difficulty < 4,
                op == wave.groups@[gi as int].operation,
                min_s < max_s,
                max_s <= 30_000,
                op is Divide ==> max_s >= 2,
                min_s == spec_scaled(
                    wave.groups@[gi as int].min_number as int,
                    spec_number_mul_pct(difficulty as int),
                ),
                max_s == spec_scaled(
                    wave.groups@[gi as int].max_number as int,
                    spec_number_mul_pct(difficulty as int),
                ),
                speed_s == spec_scaled(
                    wave.groups@[gi as int].speed_milli as int,
                    spec_speed_mul_pct(difficulty as int),
                ),
                speed_s <= 300_000,
                ships <= 3_000,
                aliens@.len() == spec_total_ships(wave.groups@.take(gi as int), difficulty as int)
                    + si,
                forall|i: int|
                    0 <= i < aliens@.len() ==> generated_from(
                        #[trigger] aliens@[i],
                        *wave,
                        difficulty as int,
                    ),
                spaced3(aliens@),
            decreases ships - si,
        {
            let (num1, num2, answer) = sample_operands(&mut rng, op, difficulty, min_s, max_s);
            let text = make_expression(op, num1, num2);
            let x = place_x(&mut rng, &aliens);
            let y: i32 = -((si as i32) * 300_000);
            let alien = Alien {
                operation: op,
                speed_milli: speed_s,
                pos_x: x as i32,
                pos_y: y,
                num1,
                num2,
                answer,
                text,
                explosion: Explosion::new(0, 0, 0),
                state: AlienState::Alive,
            };
            let ghost prev = aliens@;
            aliens.push(alien);
            proof {
                assert(generated_alien_ok(alien, difficulty as int));
                assert(alien_matches_group(alien, wave.groups@[gi as int], difficulty as int));
                assert(alien.pos_y == -300_000 * (si as int));
                assert(generated_from(alien, *wave, difficulty as int));
                assert forall|i: int, j: int|
                    0 <= j < i < aliens@.len() && i - j <= 3 implies (aliens@[i].pos_x
                    - aliens@[j].pos_x >= 100_000 || #[trigger] aliens@[j].pos_x
                    - #[trigger] aliens@[i].pos_x >= 100_000) by {
                    if i < prev.len() {
                        assert(aliens@[i] == prev[i] && aliens@[j] == prev[j]);
                    } else {
                        assert(aliens@[i] == alien);
                        assert(aliens@[j] == prev[j]);
                        assert(!(prev.len() - 3 <= j < prev.len() && 0 <= j && -100_000 < prev[j].pos_x
                            - x < 100_000));
                    }
                }
            }
            si = si + 1;
        }
        proof {
            let t = wave.groups@.take(gi + 1);
            assert(t.drop_last() =~= wave.groups@.take(gi as int));
            assert(t.last() == wave.groups@[gi as int]);
        }
        gi = gi + 1;
    }
    proof {
        assert(wave.groups@.take(ngroups as int) =~= wave.groups@);
    }
    let ghost pre_sort = aliens@;
    sort_aliens(&mut aliens);
    proof {
        lemma_perm_preserves_generated(pre_sort, aliens@, *wave, difficulty as int);
        assert(forall|i: int|
            0 <= i < aliens@.len() ==> generated_alien_ok(
                #[trigger] aliens@[i],
                difficulty as int,
            ));
    }
    aliens
}

/// An element of a sequence has positive count in its multiset.
proof fn proof_multiset_contains(s: Seq<Alien>, i: int)
    requires
        0 <= i < s.len(),
    ensures
        s.to_multiset().count(s[i]) > 0,
{
    s.to_multiset_ensures();
    assert(s.contains(s[i]));
}

/// A permutation of a generated collection is still made of generated
/// aliens.
proof fn lemma_perm_preserves_generated(a: Seq<Alien>, b: Seq<Alien>, w: Wave, difficulty: int)
    requires
        a.to_multiset() == b.to_multiset(),
        forall|i: int| 0 <= i < a.len() ==> generated_from(#[trigger] a[i], w, difficulty),
    ensures
        forall|i: int| 0 <= i < b.len() ==> generated_from(#[trigger] b[i], w, difficulty),
{
    broadcast use vstd::seq_lib::group_to_multiset_ensures;

    assert forall|i: int| 0 <= i < b.len() implies generated_from(
        #[trigger] b[i],
        w,
        difficulty,
    ) by {
        assert(b.contains(b[i]));
        assert(b.to_multiset().count(b[i]) > 0);
        assert(a.to_multiset().count(b[i]) > 0);
        assert(a.contains(b[i]));
        let j = choose|j: int| 0 <= j < a.len() && a[j] == b[i];
        assert(generated_from(a[j], w, difficulty));
    }
}

} // verus!
