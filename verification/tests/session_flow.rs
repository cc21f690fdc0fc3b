//! End-to-end runs of the mode machine and the round loop.

use math_defense::alien::AlienState;
use math_defense::persistence::{default_catalog, load_catalog, save_catalog};
use math_defense::session::{Effect, GameState, Key, Session, Sound};
use math_defense::turret::TurretState;

fn press(session: &mut Session, key: Key) -> Vec<Effect> {
    let mut effects = Vec::new();
    session.key_up_event(key, &mut effects);
    let mut more = session.update(16);
    effects.append(&mut more);
    effects
}

fn type_text(session: &mut Session, text: &str) {
    for ch in text.chars() {
        session.text_input_event(ch);
    }
}

/// A fresh session taken through the menus into play on level 0.
fn start_playing(difficulty: usize) -> Session {
    let mut session = Session::new(default_catalog());
    assert_eq!(session.state, GameState::DifficultySelect);
    for _ in 0..difficulty {
        press(&mut session, Key::Down);
    }
    assert_eq!(session.difficulty_selection, difficulty);
    press(&mut session, Key::Enter);
    assert_eq!(session.state, GameState::LevelSelect);
    press(&mut session, Key::Enter);
    assert_eq!(session.state, GameState::Playing);
    session
}

#[test]
fn menus_wrap_and_escape_backs_out() {
    let mut session = Session::new(default_catalog());
    press(&mut session, Key::Up);
    assert_eq!(session.difficulty_selection, 3);
    press(&mut session, Key::Down);
    assert_eq!(session.difficulty_selection, 0);
    press(&mut session, Key::Enter);
    assert_eq!(session.state, GameState::LevelSelect);
    // Only one level is unlocked, so cycling stays put.
    press(&mut session, Key::Down);
    assert_eq!(session.level_selection, 0);
    let mut effects = Vec::new();
    session.key_up_event(Key::Escape, &mut effects);
    assert_eq!(session.state, GameState::DifficultySelect);
    session.key_up_event(Key::Escape, &mut effects);
    assert!(effects.contains(&Effect::Quit));
}

#[test]
fn straight_shots_clear_the_wave() {
    // Difficulty 0, level 0, wave 0: five addition ships.  Typing each
    // successive target's answer clears the wave and loads the next.
    let mut session = start_playing(0);
    assert_eq!(session.lives, 2);
    assert_eq!(session.aliens.len(), 5);
    assert_eq!(session.current_wave, 0);
    let mut frames = 0;
    while session.current_wave == 0 && frames < 2_000 {
        if let Some(t) = session.target {
            if session.aliens[t].state == AlienState::Alive {
                let answer = session.aliens[t].answer;
                type_text(&mut session, &answer.to_string());
                let effects = press(&mut session, Key::Enter);
                assert!(effects.contains(&Effect::PlaySound(Sound::Explosion)));
                assert_eq!(session.turret.state, TurretState::Firing);
            } else {
                session.update(50);
            }
        } else {
            session.update(50);
        }
        frames += 1;
        assert_eq!(session.state, GameState::Playing);
        assert_eq!(session.lives, 2);
        // The re-elected target never points at a dead alien.
        if let Some(t) = session.target {
            assert!(session.aliens[t].state != AlienState::Dead);
        }
    }
    assert_eq!(session.current_wave, 1, "the second wave should have loaded");
    assert_eq!(session.current_level, 0);
    assert_eq!(session.aliens.len(), 8);
    // The wave banners queued behind whatever is still showing.
    let n = session.messages.len();
    assert!(n >= 2);
    assert_eq!(session.messages[n - 2].text, "Wave Eliminated!");
    assert_eq!(session.messages[n - 1].text, "Wave 2");
}

#[test]
fn wrong_answer_changes_nothing_but_the_buffer() {
    let mut session = start_playing(0);
    let target_before = session.target;
    let t = target_before.expect("a fresh wave elects a target");
    assert_ne!(session.aliens[t].answer, 999);
    let states: Vec<AlienState> = session.aliens.iter().map(|a| a.state).collect();
    type_text(&mut session, "999");
    let effects = press(&mut session, Key::Enter);
    assert!(effects.contains(&Effect::PlaySound(Sound::Fail)));
    assert!(!effects.contains(&Effect::PlaySound(Sound::Explosion)));
    let states_after: Vec<AlienState> = session.aliens.iter().map(|a| a.state).collect();
    assert_eq!(states, states_after);
    assert_eq!(session.target, target_before);
    assert!(session.turret.raw_text.is_empty());
    assert_eq!(session.turret.state, TurretState::Resting);
}

#[test]
fn backspace_on_empty_buffer_is_a_no_op() {
    let mut session = start_playing(0);
    type_text(&mut session, "12");
    press(&mut session, Key::Back);
    assert_eq!(session.turret.raw_text, vec!['1']);
    press(&mut session, Key::Back);
    assert!(session.turret.raw_text.is_empty());
    press(&mut session, Key::Back);
    assert!(session.turret.raw_text.is_empty());
    assert_eq!(session.state, GameState::Playing);
}

#[test]
fn enter_on_empty_buffer_fails_quietly() {
    let mut session = start_playing(0);
    let effects = press(&mut session, Key::Enter);
    assert!(effects.contains(&Effect::PlaySound(Sound::Fail)));
    assert_eq!(session.state, GameState::Playing);
}

#[test]
fn typed_characters_filter() {
    let mut session = start_playing(0);
    type_text(&mut session, "1a- 2x9");
    let buffer: String = session.turret.raw_text.iter().collect();
    assert_eq!(buffer, "1-29");
}

#[test]
fn cycling_without_visible_aliens_keeps_the_target() {
    let mut session = start_playing(0);
    for a in &mut session.aliens {
        a.pos_y = -300_000;
    }
    let before = session.target;
    assert!(before.is_some());
    press(&mut session, Key::Left);
    assert_eq!(session.target, before);
    press(&mut session, Key::Right);
    assert_eq!(session.target, before);
}

#[test]
fn life_loss_restarts_the_wave_and_then_ends() {
    let mut session = start_playing(0);
    for expected_lives in [1usize, 0usize] {
        session.aliens[0].pos_y = 910_000;
        session.update(16);
        assert_eq!(session.state, GameState::Dying);
        let mut frames = 0;
        while session.state == GameState::Dying && frames < 100 {
            session.update(100);
            frames += 1;
        }
        assert_eq!(session.state, GameState::Playing);
        assert_eq!(session.lives, expected_lives);
        assert_eq!(session.current_wave, 0, "the wave restarts");
        assert!(session.aliens.iter().all(|a| a.state == AlienState::Alive));
    }
    // With no lives left, the next breach ends the session.
    session.aliens[0].pos_y = 910_000;
    session.update(16);
    assert_eq!(session.state, GameState::Dying);
    let mut frames = 0;
    while session.state == GameState::Dying && frames < 100 {
        session.update(100);
        frames += 1;
    }
    assert_eq!(session.state, GameState::Dead);
    assert_eq!(session.lives, 0);
    // Enter returns to the level menu.
    press(&mut session, Key::Enter);
    assert_eq!(session.state, GameState::LevelSelect);
}

#[test]
fn clearing_a_level_unlocks_and_persists() {
    // Difficulty 1: clear level 0 by emptying each of its three waves.
    let mut session = start_playing(1);
    assert_eq!(session.difficulty_selection, 1);
    for wave in 0..3 {
        assert_eq!(session.current_wave, wave);
        for a in &mut session.aliens {
            a.state = AlienState::Dead;
        }
        let effects = session.update(16);
        if wave == 2 {
            assert_eq!(session.state, GameState::LevelComplete);
            assert!(effects.contains(&Effect::SaveCatalog));
            assert!(effects.contains(&Effect::PlaySound(Sound::Clap)));
        } else {
            assert_eq!(session.state, GameState::Playing);
        }
    }
    assert_eq!(session.current_level, 1);
    assert!(session.catalog.levels[1].unlocked[1]);
    assert!(!session.catalog.levels[1].unlocked[0]);
    // The persisted document keeps the flag across a fresh load.
    let text = save_catalog(&session.catalog);
    let (reloaded, used_default) = load_catalog(&text.chars().collect());
    assert!(!used_default);
    assert!(reloaded.levels[1].unlocked[1]);
    // The first level stays unlocked everywhere.
    assert!(reloaded.levels[0].unlocked.iter().all(|b| *b));
}

#[test]
fn level_complete_warps_into_the_next_level() {
    let mut session = start_playing(0);
    for _ in 0..3 {
        for a in &mut session.aliens {
            a.state = AlienState::Dead;
        }
        session.update(16);
    }
    assert_eq!(session.state, GameState::LevelComplete);
    let effects = press(&mut session, Key::Enter);
    assert!(effects.contains(&Effect::PlaySound(Sound::Launch)));
    assert!(matches!(session.state, GameState::LevelTransition(_)));
    // The warp runs its course and play resumes.
    let mut frames = 0;
    while !matches!(session.state, GameState::Playing) && frames < 300 {
        session.update(100);
        frames += 1;
    }
    assert_eq!(session.state, GameState::Playing);
    assert_eq!(session.current_level, 1);
    assert_eq!(session.current_wave, 0);
}

#[test]
fn winning_the_last_level() {
    let mut session = start_playing(0);
    session.current_level = 4;
    session.current_wave = 2;
    for a in &mut session.aliens {
        a.state = AlienState::Dead;
    }
    let effects = session.update(16);
    assert_eq!(session.state, GameState::Won);
    assert!(effects.contains(&Effect::PlaySound(Sound::Clap)));
    press(&mut session, Key::Enter);
    assert_eq!(session.state, GameState::LevelSelect);
}

#[test]
fn only_the_head_banner_ages() {
    let mut session = start_playing(0);
    assert_eq!(session.messages.len(), 2);
    assert_eq!(session.messages[0].text, "Addition Attack!");
    assert_eq!(session.messages[1].text, "Wave 1");
    assert_eq!(session.messages[0].elapsed, 0);
    session.update(500);
    assert_eq!(session.messages[0].elapsed, 500);
    assert_eq!(session.messages[1].elapsed, 0, "only the head ages");
    session.update(1_600);
    // The head has served its duration and leaves; the next banner starts
    // fresh.
    assert_eq!(session.messages.len(), 1);
    assert_eq!(session.messages[0].elapsed, 0);
    session.update(2_100);
    assert_eq!(session.messages.len(), 0);
}

#[test]
fn lives_never_rise_in_play() {
    let mut session = start_playing(0);
    let mut last = session.lives;
    for _ in 0..200 {
        session.update(50);
        if session.state == GameState::Playing || session.state == GameState::Dying {
            assert!(session.lives <= last);
            last = session.lives;
        }
        assert!(session.catalog.levels[0].unlocked[0]);
    }
}
