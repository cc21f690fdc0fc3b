//! The wave generator: operand validity, spacing, ordering, and counts.

use math_defense::alien::AlienState;
use math_defense::level::{Operation, Wave, WaveGroup};
use math_defense::persistence::default_catalog;
use math_defense::wavegen::gen_aliens;

#[test]
fn addition_wave_counts_and_orders() {
    let c = default_catalog();
    // Difficulty 0, level 0, wave 0: one group, five ships.
    let aliens = gen_aliens(&c.levels[0].waves[0], 0);
    assert_eq!(aliens.len(), 5);
    for a in &aliens {
        assert_eq!(a.state, AlienState::Alive);
        assert_eq!(a.operation, Operation::Add);
        assert!(a.num1 < 5 && a.num2 < 5);
        assert_eq!(a.answer, (a.num1 + a.num2) as i32);
        assert_eq!(a.text, format!("{}+{}", a.num1, a.num2));
        assert!(50_000 <= a.pos_x && a.pos_x < 950_000);
        assert!(a.pos_y <= 0);
    }
    // Sorted by ascending x.
    for w in aliens.windows(2) {
        assert!(w[0].pos_x <= w[1].pos_x);
    }
}

#[test]
fn division_operands_are_valid() {
    let c = default_catalog();
    // Difficulty 3 scales the division level's range to [0, 18), clamped
    // to one for the divisor.
    for wave in &c.levels[3].waves {
        let aliens = gen_aliens(wave, 3);
        for a in &aliens {
            assert_eq!(a.operation, Operation::Divide);
            assert!(a.num2 >= 1, "divisor must be nonzero");
            assert!(a.num2 <= a.num1, "divisor must not exceed the dividend");
            assert_eq!(a.num1 % a.num2, 0, "division must be exact");
            assert_eq!(a.answer, (a.num1 / a.num2) as i32);
            assert!(a.num1 < 18);
        }
    }
}

#[test]
fn subtraction_never_negative_at_low_difficulty() {
    let c = default_catalog();
    for difficulty in 0..2 {
        for wave in &c.levels[1].waves {
            for a in gen_aliens(wave, difficulty) {
                assert_eq!(a.operation, Operation::Subtract);
                assert!(a.answer >= 0);
                assert_eq!(a.answer, a.num1 as i32 - a.num2 as i32);
            }
        }
    }
}

#[test]
fn multiplication_answers_match() {
    let c = default_catalog();
    for a in gen_aliens(&c.levels[2].waves[2], 3) {
        assert_eq!(a.operation, Operation::Multiply);
        assert_eq!(a.answer, (a.num1 * a.num2) as i32);
        assert_eq!(a.text, format!("{}×{}", a.num1, a.num2));
    }
}

#[test]
fn scaled_ship_counts() {
    let c = default_catalog();
    // The mixed final wave at difficulty 2 doubles every group.
    let aliens = gen_aliens(&c.levels[4].waves[2], 2);
    assert_eq!(aliens.len(), 4 * 6);
}

#[test]
fn zero_ship_wave_is_empty() {
    let wave = Wave {
        groups: vec![WaveGroup {
            operation: Operation::Add,
            speed_milli: 2_500,
            num_ships: 0,
            min_number: 0,
            max_number: 5,
        }],
    };
    let aliens = gen_aliens(&wave, 0);
    assert_eq!(aliens.len(), 0);
}

#[test]
fn spawn_columns_spread_out() {
    let wave = Wave {
        groups: vec![WaveGroup {
            operation: Operation::Add,
            speed_milli: 2_500,
            num_ships: 4,
            min_number: 0,
            max_number: 5,
        }],
    };
    // The spawn order staggers depths; consecutive spawns keep a tenth of
    // the field apart.  After sorting, depths identify the spawn order.
    let aliens = gen_aliens(&wave, 0);
    assert_eq!(aliens.len(), 4);
    let mut by_spawn: Vec<_> = aliens.iter().collect();
    by_spawn.sort_by_key(|a| -a.pos_y);
    for i in 1..by_spawn.len() {
        for j in i.saturating_sub(3)..i {
            let d = (by_spawn[i].pos_x - by_spawn[j].pos_x).abs();
            assert!(d >= 100_000, "spawn columns {} and {} too close", j, i);
        }
    }
}
