//! The game session: the top-level mode machine and the per-frame round
//! loop.  The session consumes plain events (a frame delta, at most one
//! released key, typed characters) and returns the effects the embedding
//! shell must carry out (play a sound, persist the catalog, swap a
//! background, quit).

use std::collections::VecDeque;

use vstd::prelude::*;

use crate::alien::{wf_alien, Alien, AlienState};
use crate::explosion::max_frame_ms;
use crate::level::{
    difficulty_count, spec_unlocked_count, unlock_level, unlock_monotone, unlocked_count,
    wf_catalog, wf_level, Catalog,
};
use crate::level::lemma_unlocked_count_at_least;
use crate::message::{update_messages, wf_messages, Message};
use crate::targeting::{all_dead, get_lowest_living_alien, spec_breach};
use crate::turret::{wf_turret, Turret, TurretState};
use crate::wavegen::{gen_aliens, generated_alien_ok, sorted_by_x, spec_total_ships};

verus! {

/// The top-level mode.  `LevelTransition` carries the milliseconds spent in
/// the warp so far.
#[derive(Clone, Copy, PartialEq, Eq, Structural, Debug)]
pub enum GameState {
    DifficultySelect,
    LevelSelect,
    LevelComplete,
    LevelTransition(u32),
    Playing,
    Dying,
    Dead,
    Won,
}

/// A released key the session reacts to.
#[derive(Clone, Copy, PartialEq, Eq, Structural, Debug)]
pub enum Key {
    Enter,
    Back,
    Left,
    Right,
    Up,
    Down,
    Escape,
}

/// A one-shot sound cue.
#[derive(Clone, Copy, PartialEq, Eq, Structural, Debug)]
pub enum Sound {
    Explosion,
    Clap,
    Launch,
    Fail,
}

/// Something the embedding shell must do on the session's behalf.
#[derive(Clone, Copy, PartialEq, Eq, Structural, Debug)]
pub enum Effect {
    PlaySound(Sound),
    SaveCatalog,
    LoadBackground(usize),
    Quit,
}

/// The whole game state the logic owns.
#[derive(Debug)]
pub struct Session {
    pub catalog: Catalog,
    pub state: GameState,
    pub current_level: usize,
    pub current_wave: usize,
    pub lives: usize,
    pub aliens: Vec<Alien>,
    pub target: Option<usize>,
    pub turret: Turret,
    pub messages: VecDeque<Message>,
    pub level_selection: usize,
    pub difficulty_selection: usize,
    pub up_key: Option<Key>,
}

/// In `Playing` mode the target, when present, points at a living alien.
pub open spec fn target_live(s: Session) -> bool {
    s.target matches Some(i) ==> !((#[trigger] s.aliens@[i as int].state) is Dead)
}

/// Whether pressing Enter now destroys the target: the entry buffer parses
/// as a 32-bit integer and a target exists whose answer is that value.
pub open spec fn spec_enter_hits(s: Session) -> bool {
    &&& crate::numbers::is_int_literal(s.turret.raw_text@)
    &&& i32::MIN <= crate::numbers::int_literal_val(s.turret.raw_text@) <= i32::MAX
    &&& s.target is Some
    &&& s.aliens@[s.target->0 as int].answer == crate::numbers::int_literal_val(
        s.turret.raw_text@,
    )
}

/// How long a banner message shows, in milliseconds.
pub open spec fn banner_ms() -> int {
    2_000
}

/// The milliseconds a level transition takes.
pub open spec fn transition_ms() -> int {
    3_000
}

/// Session well-formedness: every reachable state satisfies this.
pub open spec fn wf_session(s: Session) -> bool {
    &&& wf_catalog(s.catalog)
    &&& s.difficulty_selection < 4
    &&& s.level_selection < spec_unlocked_count(s.catalog.levels@, s.difficulty_selection as int)
    &&& s.current_level < s.catalog.levels@.len()
    &&& s.current_wave < s.catalog.levels@[s.current_level as int].waves@.len()
    &&& s.lives <= 2
    &&& wf_turret(s.turret)
    &&& wf_messages(s.messages@)
    &&& forall|i: int| 0 <= i < s.aliens@.len() ==> wf_alien(#[trigger] s.aliens@[i])
    &&& (s.target matches Some(i) ==> (i as int) < s.aliens@.len())
    &&& ((s.state is Playing || s.state is LevelComplete || s.state matches
        GameState::LevelTransition(_)) ==> target_live(s))
    &&& (s.state matches GameState::LevelTransition(t) ==> t <= transition_ms() + max_frame_ms())
}

/// Everything of the session that only gameplay progress may change; menu
/// fields, the turret and the banners move freely.
pub open spec fn same_progress(a: Session, b: Session) -> bool {
    &&& b.catalog == a.catalog
    &&& b.current_level == a.current_level
    &&& b.current_wave == a.current_wave
    &&& b.lives == a.lives
    &&& b.aliens@ == a.aliens@
    &&& b.target == a.target
}

/// A freshly queued banner: its text, the standard duration, not yet aged.
pub open spec fn is_banner(m: Message, text: Seq<char>) -> bool {
    &&& m.text@ == text
    &&& m.duration == banner_ms()
    &&& m.elapsed == 0
}

/// `n` explosion sound effects.
pub open spec fn explosion_sounds(n: nat) -> Seq<Effect> {
    Seq::new(n as nat, |j: int| Effect::PlaySound(Sound::Explosion))
}

/// The elected target over a collection: none exactly when every alien is
/// dead; otherwise the first deepest non-dead alien.
pub open spec fn elected_target(target: Option<usize>, aliens: Seq<Alien>) -> bool {
    match target {
        None => all_dead(aliens),
        Some(i) => {
            &&& (i as int) < aliens.len()
            &&& !(aliens[i as int].state is Dead)
            &&& (forall|j: int|
                0 <= j < aliens.len() && !((#[trigger] aliens[j].state) is Dead) ==> aliens[j].pos_y
                    <= aliens[i as int].pos_y)
            &&& (forall|j: int|
                0 <= j < i && !((#[trigger] aliens[j].state) is Dead) ==> aliens[j].pos_y
                    < aliens[i as int].pos_y)
        },
    }
}

/// A freshly regenerated wave: exactly what the generator produces for the
/// given level and wave, with its target elected.
pub open spec fn regenerated_wave(
    s: Session,
    catalog: Catalog,
    level: int,
    wave: int,
    difficulty: int,
) -> bool {
    &&& sorted_by_x(s.aliens@)
    &&& s.aliens@.len() == spec_total_ships(
        catalog.levels@[level].waves@[wave].groups@,
        difficulty,
    )
    &&& (forall|i: int|
        0 <= i < s.aliens@.len() ==> crate::wavegen::generated_from(
            #[trigger] s.aliens@[i],
            catalog.levels@[level].waves@[wave],
            difficulty,
        ))
    &&& elected_target(s.target, s.aliens@)
}

/// Where manual cycling lands: without a target or a living on-screen
/// alien nothing moves; otherwise the nearest candidate in the chosen
/// direction (wrapping).
pub open spec fn cycled(
    aliens: Seq<Alien>,
    from: Option<usize>,
    to: Option<usize>,
    leftward: bool,
) -> bool {
    if from is Some && (exists|j: int| crate::targeting::cycle_candidate(aliens, j)) {
        let idx = from->0 as int;
        to matches Some(r) && crate::targeting::cycle_candidate(aliens, r as int) && (forall|j: int|
            crate::targeting::cycle_candidate(aliens, j) ==> (if leftward {
                crate::targeting::left_dist(idx, r as int, aliens.len() as int)
                    <= crate::targeting::left_dist(idx, j, aliens.len() as int)
            } else {
                crate::targeting::right_dist(idx, r as int, aliens.len() as int)
                    <= crate::targeting::right_dist(idx, j, aliens.len() as int)
            }))
    } else {
        to == from
    }
}

/// The key phase of a playing frame: how the one pending released key (if
/// any) changes the session before anything moves, and which sound it
/// queues.  Only Enter, Backspace, Left and Right act here.
pub open spec fn spec_key_step(s: Session, s2: Session, fx: Seq<Effect>) -> bool {
    &&& s2.catalog == s.catalog
    &&& s2.state == s.state
    &&& s2.current_level == s.current_level
    &&& s2.current_wave == s.current_wave
    &&& s2.lives == s.lives
    &&& s2.messages == s.messages
    &&& s2.level_selection == s.level_selection
    &&& s2.difficulty_selection == s.difficulty_selection
    &&& s2.up_key == s.up_key
    &&& s2.turret.explosions == s.turret.explosions
    &&& match s.up_key {
        Some(Key::Enter) => {
            &&& s2.turret.raw_text@.len() == 0
            &&& s2.target == s.target
            &&& if spec_enter_hits(s) {
                &&& s2.aliens@ == s.aliens@.update(
                    s.target->0 as int,
                    Alien { state: AlienState::Exploding, ..s.aliens@[s.target->0 as int] },
                )
                &&& s2.turret.state is Firing
                &&& fx == seq![Effect::PlaySound(Sound::Explosion)]
            } else {
                &&& s2.aliens@ == s.aliens@
                &&& s2.turret.state == s.turret.state
                &&& fx == seq![Effect::PlaySound(Sound::Fail)]
            }
        },
        Some(Key::Back) => {
            &&& s2.aliens@ == s.aliens@
            &&& s2.target == s.target
            &&& s2.turret.state == s.turret.state
            &&& s2.turret.raw_text@ == (if s.turret.raw_text@.len() == 0 {
                s.turret.raw_text@
            } else {
                s.turret.raw_text@.drop_last()
            })
            &&& fx == Seq::<Effect>::empty()
        },
        Some(Key::Left) => {
            &&& s2.aliens@ == s.aliens@
            &&& s2.turret == s.turret
            &&& cycled(s.aliens@, s.target, s2.target, true)
            &&& fx == Seq::<Effect>::empty()
        },
        Some(Key::Right) => {
            &&& s2.aliens@ == s.aliens@
            &&& s2.turret == s.turret
            &&& cycled(s.aliens@, s.target, s2.target, false)
            &&& fx == Seq::<Effect>::empty()
        },
        _ => {
            &&& s2.aliens@ == s.aliens@
            &&& s2.target == s.target
            &&& s2.turret == s.turret
            &&& fx == Seq::<Effect>::empty()
        },
    }
}

/// One whole frame of play, in the round loop's order: the pending key
/// resolves; every alien advances one step; the banner head ages; the
/// target is re-elected if gone or dead; a breach of the turret line forces
/// Dying unless this same frame emptied the wave; and an emptied wave
/// advances to the next wave, the next level (unlocking and persisting it),
/// or the win.
pub open spec fn playing_frame(
    pre: Session,
    post: Session,
    pre_fx: Seq<Effect>,
    post_fx: Seq<Effect>,
    dt: int,
) -> bool {
    exists|mid: Session, kfx: Seq<Effect>| #[trigger] playing_frame_with(
        pre,
        post,
        pre_fx,
        post_fx,
        dt,
        mid,
        kfx,
    )
}

/// `playing_frame`, with the key phase's outcome named: `mid` is the
/// session after the pending key resolved and `kfx` the sound it queued.
pub open spec fn playing_frame_with(
    pre: Session,
    post: Session,
    pre_fx: Seq<Effect>,
    post_fx: Seq<Effect>,
    dt: int,
    mid: Session,
    kfx: Seq<Effect>,
) -> bool {
    {
        {
            &&& spec_key_step(pre, mid, kfx)
            &&& {
                let a2 = crate::alien::stepped_aliens(mid.aliens@, dt);
                let msgs2 = crate::message::spec_messages_step(pre.messages@, dt);
                let fires = explosion_sounds(crate::alien::spec_count_fires(mid.aliens@, dt));
                let waves_len = pre.catalog.levels@[pre.current_level as int].waves@.len();
                let levels_len = pre.catalog.levels@.len();
                &&& post.lives == pre.lives
                &&& post.level_selection == pre.level_selection
                &&& post.difficulty_selection == pre.difficulty_selection
                &&& if !all_dead(a2) {
                    &&& post.aliens@ == a2
                    &&& post.current_level == pre.current_level
                    &&& post.current_wave == pre.current_wave
                    &&& post.catalog == pre.catalog
                    &&& post.messages@ == msgs2
                    &&& post_fx == pre_fx + kfx + fires
                    &&& post.state == (if spec_breach(a2) {
                        GameState::Dying
                    } else {
                        GameState::Playing
                    })
                    &&& post.turret.raw_text == mid.turret.raw_text
                    &&& post.turret.explosions == mid.turret.explosions
                    &&& post.turret.state == (if (exists|i: int|
                        0 <= i < mid.aliens@.len() && crate::alien::spec_alien_finishes(
                            #[trigger] mid.aliens@[i],
                            dt,
                        )) {
                        TurretState::Resting
                    } else {
                        mid.turret.state
                    })
                    &&& (if mid.target matches Some(t) && !(a2[t as int].state is Dead) {
                        post.target == mid.target
                    } else {
                        elected_target(post.target, a2)
                    })
                } else if pre.current_wave + 1 < waves_len {
                    &&& post.state is Playing
                    &&& post.current_level == pre.current_level
                    &&& post.current_wave == pre.current_wave + 1
                    &&& post.catalog == pre.catalog
                    &&& regenerated_wave(
                        post,
                        pre.catalog,
                        pre.current_level as int,
                        pre.current_wave + 1,
                        pre.difficulty_selection as int,
                    )
                    &&& post.messages@.len() == msgs2.len() + 2
                    &&& post.messages@.take(msgs2.len() as int) == msgs2
                    &&& is_banner(post.messages@[msgs2.len() as int], "Wave Eliminated!"@)
                    &&& is_banner(
                        post.messages@[msgs2.len() as int + 1],
                        "Wave "@ + crate::numbers::dec_digits((pre.current_wave + 2) as nat),
                    )
                    &&& post_fx == pre_fx + kfx + fires
                } else if pre.current_level + 1 < levels_len {
                    &&& post.state is LevelComplete
                    &&& post.current_level == pre.current_level + 1
                    &&& post.current_wave == 0
                    &&& post.catalog.levels@[pre.current_level
                        + 1].unlocked@[pre.difficulty_selection as int] == true
                    &&& unlock_monotone(pre.catalog, post.catalog)
                    &&& regenerated_wave(
                        post,
                        post.catalog,
                        pre.current_level + 1,
                        0,
                        pre.difficulty_selection as int,
                    )
                    &&& post.messages@ == msgs2
                    &&& post_fx == pre_fx + kfx + fires + seq![
                        Effect::SaveCatalog,
                        Effect::PlaySound(Sound::Clap),
                    ]
                } else {
                    &&& post.state is Won
                    &&& post.current_level == pre.current_level
                    &&& post.current_wave == pre.current_wave
                    &&& post.catalog == pre.catalog
                    &&& post.aliens@ == a2
                    &&& post.target is None
                    &&& post.messages@ == msgs2
                    &&& post_fx == pre_fx + kfx + fires + seq![Effect::PlaySound(Sound::Clap)]
                }
            }
        }
    }
}

/// One whole frame of the dying animation: aliens and the turret's
/// destruction explosions advance; once the last explosion has completed
/// the mode must leave Dying — to play again on the same wave with one life
/// fewer and a fresh turret, or to Dead with no lives left.
pub open spec fn dying_frame(
    pre: Session,
    post: Session,
    pre_fx: Seq<Effect>,
    post_fx: Seq<Effect>,
    dt: int,
) -> bool {
    let a2 = crate::alien::stepped_aliens(pre.aliens@, dt);
    let stepped_t = crate::explosion::stepped_explosions(pre.turret.explosions@, dt);
    let done2 = forall|i: int|
        0 <= i < stepped_t.len() ==> crate::explosion::spec_explosion_done(#[trigger] stepped_t[i]);
    &&& post.catalog == pre.catalog
    &&& post.difficulty_selection == pre.difficulty_selection
    &&& post.level_selection == pre.level_selection
    &&& post.current_level == pre.current_level
    &&& post.current_wave == pre.current_wave
    &&& post_fx == pre_fx + explosion_sounds(
        (crate::alien::spec_count_fires(pre.aliens@, dt)
            + crate::explosion::spec_count_explosion_fires(pre.turret.explosions@, dt)) as nat,
    )
    &&& if !done2 {
        &&& post.state is Dying
        &&& post.lives == pre.lives
        &&& post.aliens@ == a2
        &&& post.turret.explosions@ == stepped_t
        &&& post.turret.raw_text == pre.turret.raw_text
        &&& post.messages@ == pre.messages@
    } else if pre.lives > 0 {
        &&& post.state is Playing
        &&& post.lives == pre.lives - 1
        &&& regenerated_wave(
            post,
            pre.catalog,
            pre.current_level as int,
            pre.current_wave as int,
            pre.difficulty_selection as int,
        )
        &&& post.turret.raw_text@.len() == 0
        &&& post.turret.state is Resting
        &&& (forall|i: int|
            0 <= i < post.turret.explosions@.len() ==> (#[trigger] post.turret.explosions@[i]).elapsed
                == 0 && !post.turret.explosions@[i].sound_played)
        &&& post.messages@.len() == pre.messages@.len() + 2
        &&& post.messages@.take(pre.messages@.len() as int) == pre.messages@
        &&& is_banner(post.messages@[pre.messages@.len() as int], if post.lives > 0 {
            crate::numbers::dec_digits(post.lives as nat) + " Gun Left"@
        } else {
            "Final Gun! Good Luck!"@
        })
        &&& is_banner(
            post.messages@[pre.messages@.len() as int + 1],
            "Restarting Wave "@ + crate::numbers::dec_digits((pre.current_wave + 1) as nat),
        )
    } else {
        &&& post.state is Dead
        &&& post.lives == 0
        &&& post.aliens@ == a2
        &&& post.messages@ == pre.messages@
    }
}

/// One frame of the difficulty menu: Enter confirms, Up and Down cycle the
/// four tiers with wraparound and reset the level highlight; anything else
/// changes nothing.
pub open spec fn difficulty_frame(pre: Session, post: Session) -> bool {
    &&& same_progress(pre, post)
    &&& post.messages == pre.messages
    &&& post.turret == pre.turret
    &&& match pre.up_key {
        Some(Key::Enter) => post.state is LevelSelect && post.difficulty_selection
            == pre.difficulty_selection && post.level_selection == pre.level_selection,
        Some(Key::Down) => post.state == pre.state && post.difficulty_selection == (
        pre.difficulty_selection + 1) % 4 && post.level_selection == 0,
        Some(Key::Up) => post.state == pre.state && post.difficulty_selection == (if
        pre.difficulty_selection == 0 {
            3int
        } else {
            pre.difficulty_selection - 1
        }) && post.level_selection == 0,
        _ => post.state == pre.state && post.difficulty_selection == pre.difficulty_selection
            && post.level_selection == pre.level_selection,
    }
}

/// One frame of the level menu: Enter loads the highlighted level and
/// starts play with fresh lives, a fresh turret, the level's background and
/// its two banners; Up and Down cycle over exactly the unlocked entries.
pub open spec fn level_select_frame(
    pre: Session,
    post: Session,
    pre_fx: Seq<Effect>,
    post_fx: Seq<Effect>,
) -> bool {
    let count = spec_unlocked_count(pre.catalog.levels@, pre.difficulty_selection as int);
    &&& post.catalog == pre.catalog
    &&& post.difficulty_selection == pre.difficulty_selection
    &&& match pre.up_key {
        Some(Key::Enter) => {
            &&& post.state is Playing
            &&& post.lives == 2
            &&& post.current_level == pre.level_selection
            &&& post.current_wave == 0
            &&& post.turret.raw_text@.len() == 0
            &&& post.turret.state is Resting
            &&& regenerated_wave(
                post,
                pre.catalog,
                pre.level_selection as int,
                0,
                pre.difficulty_selection as int,
            )
            &&& post.messages@.len() == pre.messages@.len() + 2
            &&& post.messages@.take(pre.messages@.len() as int) == pre.messages@
            &&& is_banner(
                post.messages@[pre.messages@.len() as int],
                pre.catalog.levels@[pre.level_selection as int].title@,
            )
            &&& is_banner(post.messages@[pre.messages@.len() as int + 1], "Wave 1"@)
            &&& post_fx == pre_fx.push(Effect::LoadBackground(pre.level_selection))
        },
        Some(Key::Down) => {
            &&& post.state == pre.state
            &&& same_progress(pre, post)
            &&& post.messages == pre.messages
            &&& post.level_selection == (pre.level_selection + 1) % (count as int)
            &&& post_fx == pre_fx
        },
        Some(Key::Up) => {
            &&& post.state == pre.state
            &&& same_progress(pre, post)
            &&& post.messages == pre.messages
            &&& post.level_selection == (if pre.level_selection == 0 {
                count - 1
            } else {
                pre.level_selection - 1
            })
            &&& post_fx == pre_fx
        },
        _ => {
            &&& post.state == pre.state
            &&& same_progress(pre, post)
            &&& post.messages == pre.messages
            &&& post.level_selection == pre.level_selection
            &&& post_fx == pre_fx
        },
    }
}

/// An end screen (victory or death): Enter returns to the level menu;
/// nothing else changes.
pub open spec fn end_screen_frame(pre: Session, post: Session) -> bool {
    &&& same_progress(pre, post)
    &&& post.messages == pre.messages
    &&& post.turret == pre.turret
    &&& post.level_selection == pre.level_selection
    &&& post.difficulty_selection == pre.difficulty_selection
    &&& post.state == (if pre.up_key == Some(Key::Enter) {
        GameState::LevelSelect
    } else {
        pre.state
    })
}

/// The level-complete screen: Enter launches into warp with the new
/// level's title and the warp banner; anything else changes nothing.
pub open spec fn level_complete_frame(
    pre: Session,
    post: Session,
    pre_fx: Seq<Effect>,
    post_fx: Seq<Effect>,
) -> bool {
    &&& same_progress(pre, post)
    &&& post.turret == pre.turret
    &&& post.level_selection == pre.level_selection
    &&& post.difficulty_selection == pre.difficulty_selection
    &&& if pre.up_key == Some(Key::Enter) {
        &&& post.state == GameState::LevelTransition(0u32)
        &&& post_fx == pre_fx.push(Effect::PlaySound(Sound::Launch))
        &&& post.messages@.len() == pre.messages@.len() + 2
        &&& post.messages@.take(pre.messages@.len() as int) == pre.messages@
        &&& is_banner(
            post.messages@[pre.messages@.len() as int],
            pre.catalog.levels@[pre.current_level as int].title@,
        )
        &&& is_banner(post.messages@[pre.messages@.len() as int + 1], "WARP SPEED"@)
    } else {
        &&& post.state == pre.state
        &&& post_fx == pre_fx
        &&& post.messages == pre.messages
    }
}

/// One frame of the warp: the counter advances; on completion the session
/// returns to play with the new level's background and banners.
pub open spec fn transition_frame(
    pre: Session,
    post: Session,
    pre_fx: Seq<Effect>,
    post_fx: Seq<Effect>,
    dt: int,
) -> bool {
    let elapsed = pre.state->0;
    &&& same_progress(pre, post)
    &&& post.level_selection == pre.level_selection
    &&& post.difficulty_selection == pre.difficulty_selection
    &&& if elapsed >= transition_ms() {
        &&& post.state is Playing
        &&& post.messages@.len() == pre.messages@.len() + 2
        &&& post.messages@.take(pre.messages@.len() as int) == pre.messages@
        &&& is_banner(
            post.messages@[pre.messages@.len() as int],
            pre.catalog.levels@[pre.current_level as int].title@,
        )
        &&& is_banner(post.messages@[pre.messages@.len() as int + 1], "Wave 1"@)
        &&& post_fx == pre_fx.push(Effect::LoadBackground(pre.current_level))
    } else {
        &&& post.state == GameState::LevelTransition((elapsed + dt) as u32)
        &&& post.messages == pre.messages
        &&& post_fx == pre_fx
    }
}

impl Session {
    /// A fresh session over a loaded catalog, sitting at the difficulty
    /// menu.
    pub fn new(catalog: Catalog) -> (s: Session)
        requires
            wf_catalog(catalog),
        ensures
            wf_session(s),
            s.catalog == catalog,
            s.state is DifficultySelect,
            s.current_level == 0,
            s.current_wave == 0,
            s.lives == 2,
            s.aliens@.len() == 0,
            s.target is None,
            s.messages@.len() == 0,
            s.level_selection == 0,
            s.difficulty_selection == 0,
            s.up_key is None,
    {
        proof {
            lemma_unlocked_count_at_least(catalog.levels@, 0, 0);
        }
        Session {
            catalog,
            state: GameState::DifficultySelect,
            current_level: 0,
            current_wave: 0,
            lives: 2,
            aliens: Vec::new(),
            target: None,
            turret: Turret::new(),
            messages: VecDeque::new(),
            level_selection: 0,
            difficulty_selection: 0,
            up_key: None,
        }
    }

    /// Loads a level and wave: regenerates the alien collection for the
    /// current difficulty and elects the initial target.
    pub fn load_level_wave(&mut self, level: usize, wave: usize)
        requires
            wf_session(*old(self)),
            level < old(self).catalog.levels@.len(),
            wave < old(self).catalog.levels@[level as int].waves@.len(),
        ensures
            wf_session(*final(self)),
            final(self).current_level == level,
            final(self).current_wave == wave,
            final(self).catalog == old(self).catalog,
            final(self).state == old(self).state,
            final(self).lives == old(self).lives,
            final(self).turret == old(self).turret,
            final(self).messages == old(self).messages,
            final(self).level_selection == old(self).level_selection,
            final(self).difficulty_selection == old(self).difficulty_selection,
            final(self).up_key == old(self).up_key,
            sorted_by_x(final(self).aliens@),
            final(self).aliens@.len() == spec_total_ships(
                old(self).catalog.levels@[level as int].waves@[wave as int].groups@,
                old(self).difficulty_selection as int,
            ),
            forall|i: int|
                0 <= i < final(self).aliens@.len() ==> generated_alien_ok(
                    #[trigger] final(self).aliens@[i],
                    old(self).difficulty_selection as int,
                ),
            target_live(*final(self)),
            final(self).target matches Some(i) ==> (i as int) < final(self).aliens@.len(),
            final(self).target is None ==> all_dead(final(self).aliens@),
            regenerated_wave(
                *final(self),
                old(self).catalog,
                level as int,
                wave as int,
                old(self).difficulty_selection as int,
            ),
    {
        self.current_level = level;
        self.current_wave = wave;
        self.target = None;
        assert(wf_level(self.catalog.levels@[level as int]));
        let wave_ref = &self.catalog.levels[level].waves[wave];
        let aliens = gen_aliens(wave_ref, self.difficulty_selection);
        self.aliens = aliens;
        self.target = get_lowest_living_alien(&self.aliens);
        proof {
            assert forall|i: int| 0 <= i < self.aliens@.len() implies wf_alien(
                #[trigger] self.aliens@[i],
            ) by {
                assert(generated_alien_ok(self.aliens@[i], self.difficulty_selection as int));
            }
        }
    }

    /// Loads a level and wave, first marking the crossing into a new level:
    /// entering a higher level switches the mode to `LevelComplete` with
    /// applause.
    pub fn set_level_wave(&mut self, level: usize, wave: usize, effects: &mut Vec<Effect>)
        requires
            wf_session(*old(self)),
            level < old(self).catalog.levels@.len(),
            wave < old(self).catalog.levels@[level as int].waves@.len(),
        ensures
            wf_session(*final(self)),
            final(self).current_level == level,
            final(self).current_wave == wave,
            final(self).catalog == old(self).catalog,
            final(self).lives == old(self).lives,
            final(self).messages == old(self).messages,
            final(self).level_selection == old(self).level_selection,
            final(self).difficulty_selection == old(self).difficulty_selection,
            final(self).state == if level > old(self).current_level {
                GameState::LevelComplete
            } else {
                old(self).state
            },
            level > old(self).current_level ==> final(effects)@ == old(effects)@.push(
                Effect::PlaySound(Sound::Clap),
            ),
            level <= old(self).current_level ==> final(effects)@ == old(effects)@,
            final(self).turret == old(self).turret,
            final(self).up_key == old(self).up_key,
            forall|i: int|
                0 <= i < final(self).aliens@.len() ==> generated_alien_ok(
                    #[trigger] final(self).aliens@[i],
                    old(self).difficulty_selection as int,
                ),
            target_live(*final(self)),
            final(self).target is None ==> all_dead(final(self).aliens@),
            regenerated_wave(
                *final(self),
                old(self).catalog,
                level as int,
                wave as int,
                old(self).difficulty_selection as int,
            ),
    {
        let crossed = level > self.current_level;
        self.load_level_wave(level, wave);
        if crossed {
            self.state = GameState::LevelComplete;
            effects.push(Effect::PlaySound(Sound::Clap));
        }
    }

    /// Advances past a cleared wave: the next wave of the level, or the next
    /// level (unlocking and persisting it), or the whole game won.
    pub fn increment_level_wave(&mut self, effects: &mut Vec<Effect>)
        requires
            wf_session(*old(self)),
            target_live(*old(self)),
        ensures
            wf_session(*final(self)),
            unlock_monotone(old(self).catalog, final(self).catalog),
            final(self).lives == old(self).lives,
            final(self).difficulty_selection == old(self).difficulty_selection,
            final(self).level_selection == old(self).level_selection,
            final(self).up_key == old(self).up_key,
            ({
                let waves_len =
                    old(self).catalog.levels@[old(self).current_level as int].waves@.len();
                let levels_len = old(self).catalog.levels@.len();
                if old(self).current_wave + 1 < waves_len {
                    // More waves remain: stay in the same mode, advance the
                    // wave, and queue the two wave banners.
                    &&& final(self).state == old(self).state
                    &&& final(self).current_level == old(self).current_level
                    &&& final(self).current_wave == old(self).current_wave + 1
                    &&& final(self).catalog == old(self).catalog
                    &&& regenerated_wave(
                        *final(self),
                        old(self).catalog,
                        old(self).current_level as int,
                        old(self).current_wave + 1,
                        old(self).difficulty_selection as int,
                    )
                    &&& final(self).messages@.len() == old(self).messages@.len() + 2
                    &&& final(self).messages@.take(old(self).messages@.len() as int) == old(
                        self,
                    ).messages@
                    &&& is_banner(
                        final(self).messages@[old(self).messages@.len() as int],
                        "Wave Eliminated!"@,
                    )
                    &&& is_banner(
                        final(self).messages@[old(self).messages@.len() as int + 1],
                        "Wave "@ + crate::numbers::dec_digits((old(self).current_wave + 2) as nat),
                    )
                    &&& final(effects)@ == old(effects)@
                } else if old(self).current_level + 1 < levels_len {
                    // Last wave of the level: unlock the next level at this
                    // difficulty, persist, applaud.
                    &&& final(self).state is LevelComplete
                    &&& final(self).current_level == old(self).current_level + 1
                    &&& final(self).current_wave == 0
                    &&& final(self).catalog.levels@[old(self).current_level
                        + 1].unlocked@[old(self).difficulty_selection as int] == true
                    &&& regenerated_wave(
                        *final(self),
                        final(self).catalog,
                        old(self).current_level + 1,
                        0,
                        old(self).difficulty_selection as int,
                    )
                    &&& final(effects)@ == old(effects)@.push(Effect::SaveCatalog).push(
                        Effect::PlaySound(Sound::Clap),
                    )
                    &&& final(self).messages@ == old(self).messages@
                } else {
                    // Last wave of the last level: the game is won.
                    &&& final(self).state is Won
                    &&& final(self).current_level == old(self).current_level
                    &&& final(self).current_wave == old(self).current_wave
                    &&& final(self).catalog == old(self).catalog
                    &&& final(self).aliens@ == old(self).aliens@
                    &&& final(self).target == old(self).target
                    &&& final(effects)@ == old(effects)@.push(Effect::PlaySound(Sound::Clap))
                    &&& final(self).messages@ == old(self).messages@
                }
            }),
            final(self).target matches Some(i) ==> (i as int) < final(self).aliens@.len() && !(
            final(self).aliens@[i as int].state is Dead),
            old(self).target is None && all_dead(old(self).aliens@) ==> (final(self).target
                is None ==> all_dead(final(self).aliens@)),
    {
        assert(wf_level(self.catalog.levels@[self.current_level as int]));
        let levels_len = self.catalog.levels.len();
        let waves_len = self.catalog.levels[self.current_level].waves.len();
        if self.current_wave + 1 >= waves_len {
            if self.current_level + 1 >= levels_len {
                self.state = GameState::Won;
                effects.push(Effect::PlaySound(Sound::Clap));
            } else {
                let next = self.current_level + 1;
                unlock_level(&mut self.catalog, next, self.difficulty_selection);
                effects.push(Effect::SaveCatalog);
                proof {
                    crate::level::lemma_unlocked_count_monotone(
                        old(self).catalog.levels@,
                        self.catalog.levels@,
                        self.difficulty_selection as int,
                    );
                }
                assert(wf_level(self.catalog.levels@[next as int]));
                self.set_level_wave(next, 0, effects);
            }
        } else {
            let next_wave = self.current_wave + 1;
            self.set_level_wave(self.current_level, next_wave, effects);
            self.messages.push_back(
                Message::new(String::from_str("Wave Eliminated!"), 2_000),
            );
            let banner = String::from_str("Wave ").concat(
                crate::numbers::u32_to_string((next_wave + 1) as u32).as_str(),
            );
            self.messages.push_back(Message::new(banner, 2_000));
            proof {
                assert(self.messages@.take(old(self).messages@.len() as int) =~= old(
                    self,
                ).messages@);
            }
        }
    }

    /// One frame of the difficulty menu: Up and Down cycle the four tiers
    /// (resetting the level highlight), Enter confirms into the level menu.
    pub fn update_difficulty_select(&mut self)
        requires
            wf_session(*old(self)),
        ensures
            wf_session(*final(self)),
            difficulty_frame(*old(self), *final(self)),
    {
        if let Some(key) = self.up_key {
            if matches!(key, Key::Enter) {
                self.state = GameState::LevelSelect;
            } else if matches!(key, Key::Down) {
                self.difficulty_selection = (self.difficulty_selection + 1) % difficulty_count();
                self.level_selection = 0;
                proof {
                    lemma_unlocked_count_at_least(
                        self.catalog.levels@,
                        self.difficulty_selection as int,
                        0,
                    );
                }
            } else if matches!(key, Key::Up) {
                self.difficulty_selection = if self.difficulty_selection == 0 {
                    difficulty_count() - 1
                } else {
                    self.difficulty_selection - 1
                };
                self.level_selection = 0;
                proof {
                    lemma_unlocked_count_at_least(
                        self.catalog.levels@,
                        self.difficulty_selection as int,
                        0,
                    );
                }
            }
        }
    }

    /// One frame of the level menu: Up and Down cycle over the unlocked
    /// levels, Enter loads the highlighted level and starts play with fresh
    /// lives, a fresh turret, and the level's banners.
    pub fn update_level_select(&mut self, effects: &mut Vec<Effect>)
        requires
            wf_session(*old(self)),
        ensures
            wf_session(*final(self)),
            level_select_frame(*old(self), *final(self), old(effects)@, final(effects)@),
    {
        proof {
            lemma_unlocked_count_at_least(
                self.catalog.levels@,
                self.difficulty_selection as int,
                0,
            );
        }
        let count = unlocked_count(&self.catalog, self.difficulty_selection);
        if let Some(key) = self.up_key {
            if matches!(key, Key::Enter) {
                let chosen = self.level_selection;
                proof {
                    crate::level::lemma_unlocked_count_le_len(
                        self.catalog.levels@,
                        self.difficulty_selection as int,
                    );
                    assert(wf_level(self.catalog.levels@[chosen as int]));
                }
                self.load_level_wave(chosen, 0);
                effects.push(Effect::LoadBackground(chosen));
                let title = self.catalog.levels[chosen].title.clone();
                self.messages.push_back(Message::new(title, 2_000));
                self.messages.push_back(Message::new(String::from_str("Wave 1"), 2_000));
                self.lives = 2;
                self.turret = Turret::new();
                self.state = GameState::Playing;
                proof {
                    assert(self.messages@.take(old(self).messages@.len() as int) =~= old(
                        self,
                    ).messages@);
                }
            } else if matches!(key, Key::Down) {
                self.level_selection = (self.level_selection + 1) % count;
            } else if matches!(key, Key::Up) {
                self.level_selection = if self.level_selection == 0 {
                    count - 1
                } else {
                    self.level_selection - 1
                };
            }
        }
    }

    /// The victory screen: Enter returns to the level menu.
    pub fn update_won(&mut self)
        requires
            wf_session(*old(self)),
        ensures
            wf_session(*final(self)),
            end_screen_frame(*old(self), *final(self)),
    {
        if let Some(key) = self.up_key {
            if matches!(key, Key::Enter) {
                self.state = GameState::LevelSelect;
            }
        }
    }

    /// The death screen: Enter returns to the level menu.
    pub fn update_dead(&mut self)
        requires
            wf_session(*old(self)),
        ensures
            wf_session(*final(self)),
            end_screen_frame(*old(self), *final(self)),
    {
        if let Some(key) = self.up_key {
            if matches!(key, Key::Enter) {
                self.state = GameState::LevelSelect;
            }
        }
    }

    /// The level-complete screen: Enter launches into warp, queues the new
    /// level's title and the warp banner.
    pub fn update_level_complete(&mut self, effects: &mut Vec<Effect>)
        requires
            wf_session(*old(self)),
            old(self).state is LevelComplete,
        ensures
            wf_session(*final(self)),
            level_complete_frame(*old(self), *final(self), old(effects)@, final(effects)@),
    {
        if let Some(key) = self.up_key {
            if matches!(key, Key::Enter) {
                effects.push(Effect::PlaySound(Sound::Launch));
                self.state = GameState::LevelTransition(0);
                assert(wf_level(self.catalog.levels@[self.current_level as int]));
                let title = self.catalog.levels[self.current_level].title.clone();
                self.messages.push_back(Message::new(title, 2_000));
                self.messages.push_back(Message::new(String::from_str("WARP SPEED"), 2_000));
                proof {
                    assert(self.messages@.take(old(self).messages@.len() as int) =~= old(
                        self,
                    ).messages@);
                }
            }
        }
    }

    /// One frame of the warp: the counter advances; once it has run the
    /// full transition the session returns to play on the new level with
    /// its background and banners.
    pub fn update_level_transition(&mut self, elapsed: u32, dt: u32, effects: &mut Vec<Effect>)
        requires
            wf_session(*old(self)),
            old(self).state == GameState::LevelTransition(elapsed),
            dt <= max_frame_ms(),
        ensures
            wf_session(*final(self)),
            transition_frame(*old(self), *final(self), old(effects)@, final(effects)@, dt as int),
    {
        self.state = GameState::LevelTransition(elapsed + dt);
        if elapsed >= 3_000 {
            self.state = GameState::Playing;
            assert(wf_level(self.catalog.levels@[self.current_level as int]));
            let title = self.catalog.levels[self.current_level].title.clone();
            self.messages.push_back(Message::new(title, 2_000));
            self.messages.push_back(Message::new(String::from_str("Wave 1"), 2_000));
            effects.push(Effect::LoadBackground(self.current_level));
            proof {
                assert(self.messages@.take(old(self).messages@.len() as int) =~= old(
                    self,
                ).messages@);
            }
        }
    }

    /// A released key arrives.  Escape acts immediately: it backs out of a
    /// menu, quits from the difficulty menu, and abandons play otherwise.
    /// Any other key is held for the coming frame.
    pub fn key_up_event(&mut self, key: Key, effects: &mut Vec<Effect>)
        requires
            wf_session(*old(self)),
        ensures
            wf_session(*final(self)),
            same_progress(*old(self), *final(self)),
            key is Escape ==> final(self).up_key == old(self).up_key && (match old(self).state {
                GameState::LevelSelect => final(self).state is DifficultySelect
                    && final(effects)@ == old(effects)@,
                GameState::DifficultySelect => final(self).state == old(self).state
                    && final(effects)@ == old(effects)@.push(Effect::Quit),
                _ => final(self).state is LevelSelect && final(effects)@ == old(effects)@,
            }),
            !(key is Escape) ==> final(self).up_key == Some(key) && final(self).state == old(
                self,
            ).state && final(effects)@ == old(effects)@,
    {
        if matches!(key, Key::Escape) {
            match self.state {
                GameState::LevelSelect => {
                    self.state = GameState::DifficultySelect;
                },
                GameState::DifficultySelect => {
                    effects.push(Effect::Quit);
                },
                _ => {
                    self.state = GameState::LevelSelect;
                },
            }
        } else {
            self.up_key = Some(key);
        }
    }

    /// Resolves Enter: parses the entry buffer and compares it with the
    /// target's answer.  A correct answer sets the target exploding and the
    /// turret firing; anything else (no target, unparsable buffer, wrong
    /// number) is the fail path.  The buffer clears either way.
    pub fn handle_enter(&mut self, effects: &mut Vec<Effect>)
        requires
            wf_session(*old(self)),
            old(self).state is Playing,
        ensures
            wf_session(*final(self)),
            final(self).state == old(self).state,
            final(self).catalog == old(self).catalog,
            final(self).lives == old(self).lives,
            final(self).current_level == old(self).current_level,
            final(self).current_wave == old(self).current_wave,
            final(self).messages == old(self).messages,
            final(self).target == old(self).target,
            final(self).up_key == old(self).up_key,
            final(self).difficulty_selection == old(self).difficulty_selection,
            final(self).level_selection == old(self).level_selection,
            final(self).turret.raw_text@.len() == 0,
            final(self).turret.explosions == old(self).turret.explosions,
            (if spec_enter_hits(*old(self)) {
                let i = old(self).target->0 as int;
                &&& final(self).aliens@ == old(self).aliens@.update(
                    i,
                    Alien { state: AlienState::Exploding, ..old(self).aliens@[i] },
                )
                &&& final(self).turret.state is Firing
                &&& final(effects)@ == old(effects)@.push(Effect::PlaySound(Sound::Explosion))
            } else {
                &&& final(self).aliens@ == old(self).aliens@
                &&& final(self).turret.state == old(self).turret.state
                &&& final(effects)@ == old(effects)@.push(Effect::PlaySound(Sound::Fail))
            }),
    {
        let parsed = crate::numbers::parse_i32(&self.turret.raw_text);
        match parsed {
            Some(n) => {
                let hit: bool = match self.target {
                    Some(alien_index) => self.aliens[alien_index].answer == n,
                    None => false,
                };
                if hit {
                    let alien_index = self.target.unwrap();
                    self.aliens[alien_index].state = AlienState::Exploding;
                    effects.push(Effect::PlaySound(Sound::Explosion));
                    self.turret.state = TurretState::Firing;
                } else {
                    effects.push(Effect::PlaySound(Sound::Fail));
                }
            },
            None => {
                effects.push(Effect::PlaySound(Sound::Fail));
            },
        }
        self.turret.raw_text = Vec::new();
        proof {
            if spec_enter_hits(*old(self)) {
                let i = old(self).target->0 as int;
                assert(self.aliens@ =~= old(self).aliens@.update(
                    i,
                    Alien { state: AlienState::Exploding, ..old(self).aliens@[i] },
                ));
            }
        }
    }

    /// Removes the last typed character; typing nothing yet makes this a
    /// no-op.
    pub fn handle_backspace(&mut self)
        requires
            wf_session(*old(self)),
        ensures
            wf_session(*final(self)),
            same_progress(*old(self), *final(self)),
            final(self).state == old(self).state,
            final(self).difficulty_selection == old(self).difficulty_selection,
            final(self).level_selection == old(self).level_selection,
            final(self).up_key == old(self).up_key,
            final(self).messages == old(self).messages,
            final(self).turret.state == old(self).turret.state,
            final(self).turret.explosions == old(self).turret.explosions,
            final(self).turret.raw_text@ == if old(self).turret.raw_text@.len() == 0 {
                old(self).turret.raw_text@
            } else {
                old(self).turret.raw_text@.drop_last()
            },
    {
        let _ = self.turret.raw_text.pop();
    }

    /// Cycles the target one alien to the left (wrapping), skipping dead
    /// and still off-screen aliens.  Without a target, or without any
    /// living on-screen alien, the target stays put.
    pub fn handle_left(&mut self)
        requires
            wf_session(*old(self)),
            old(self).state is Playing,
        ensures
            wf_session(*final(self)),
            final(self).state == old(self).state,
            final(self).catalog == old(self).catalog,
            final(self).lives == old(self).lives,
            final(self).aliens@ == old(self).aliens@,
            final(self).turret == old(self).turret,
            final(self).messages == old(self).messages,
            final(self).difficulty_selection == old(self).difficulty_selection,
            final(self).level_selection == old(self).level_selection,
            final(self).current_level == old(self).current_level,
            final(self).current_wave == old(self).current_wave,
            final(self).up_key == old(self).up_key,
            ({
                let aliens = old(self).aliens@;
                let idx = old(self).target->0 as int;
                if old(self).target is Some && (exists|j: int|
                    crate::targeting::cycle_candidate(aliens, j)) {
                    final(self).target matches Some(r) && crate::targeting::cycle_candidate(
                        aliens,
                        r as int,
                    ) && (forall|j: int|
                        crate::targeting::cycle_candidate(aliens, j)
                            ==> crate::targeting::left_dist(
                            idx,
                            r as int,
                            aliens.len() as int,
                        ) <= crate::targeting::left_dist(idx, j, aliens.len() as int))
                } else {
                    final(self).target == old(self).target
                }
            }),
    {
        if let Some(index) = self.target {
            if crate::targeting::any_cycle_candidate(&self.aliens) {
                let r = crate::targeting::prev_target(&self.aliens, index);
                self.target = Some(r);
            }
        }
    }

    /// Cycles the target one alien to the right (wrapping), skipping dead
    /// and still off-screen aliens.  Without a target, or without any
    /// living on-screen alien, the target stays put.
    pub fn handle_right(&mut self)
        requires
            wf_session(*old(self)),
            old(self).state is Playing,
        ensures
            wf_session(*final(self)),
            final(self).state == old(self).state,
            final(self).catalog == old(self).catalog,
            final(self).lives == old(self).lives,
            final(self).aliens@ == old(self).aliens@,
            final(self).turret == old(self).turret,
            final(self).messages == old(self).messages,
            final(self).difficulty_selection == old(self).difficulty_selection,
            final(self).level_selection == old(self).level_selection,
            final(self).current_level == old(self).current_level,
            final(self).current_wave == old(self).current_wave,
            final(self).up_key == old(self).up_key,
            ({
                let aliens = old(self).aliens@;
                let idx = old(self).target->0 as int;
                if old(self).target is Some && (exists|j: int|
                    crate::targeting::cycle_candidate(aliens, j)) {
                    final(self).target matches Some(r) && crate::targeting::cycle_candidate(
                        aliens,
                        r as int,
                    ) && (forall|j: int|
                        crate::targeting::cycle_candidate(aliens, j)
                            ==> crate::targeting::right_dist(
                            idx,
                            r as int,
                            aliens.len() as int,
                        ) <= crate::targeting::right_dist(idx, j, aliens.len() as int))
                } else {
                    final(self).target == old(self).target
                }
            }),
    {
        if let Some(index) = self.target {
            if crate::targeting::any_cycle_candidate(&self.aliens) {
                let r = crate::targeting::next_target(&self.aliens, index);
                self.target = Some(r);
            }
        }
    }

    /// A typed character arrives: digits and a minus sign append to the
    /// entry buffer, and only while playing.
    pub fn text_input_event(&mut self, ch: char)
        requires
            wf_session(*old(self)),
        ensures
            wf_session(*final(self)),
            same_progress(*old(self), *final(self)),
            final(self).state == old(self).state,
            final(self).turret.raw_text@ == if old(self).state is Playing && (('0' <= ch && ch
                <= '9') || ch == '-') {
                old(self).turret.raw_text@.push(ch)
            } else {
                old(self).turret.raw_text@
            },
    {
        if matches!(self.state, GameState::Playing) {
            if ('0' <= ch && ch <= '9') || ch == '-' {
                self.turret.raw_text.push(ch);
            }
        }
    }

    /// One frame of the dying animation: aliens keep falling, the turret's
    /// destruction explosions run, and once the last one finishes the
    /// session either restarts the wave with one life fewer or ends.
    pub fn update_dying(&mut self, dt: u32, effects: &mut Vec<Effect>)
        requires
            wf_session(*old(self)),
            old(self).state is Dying,
            dt <= max_frame_ms(),
        ensures
            wf_session(*final(self)),
            final(self).catalog == old(self).catalog,
            final(self).difficulty_selection == old(self).difficulty_selection,
            final(self).lives <= old(self).lives,
            final(self).state is Dying || final(self).state is Playing || final(self).state
                is Dead,
            final(self).state is Playing ==> old(self).lives > 0
                && final(self).lives == (old(self).lives - 1) as usize
                && final(self).current_level == old(self).current_level
                && final(self).current_wave == old(self).current_wave,
            final(self).state is Dead ==> old(self).lives == 0 && final(self).lives == 0,
            final(self).state is Dying ==> final(self).lives == old(self).lives,
            dying_frame(*old(self), *final(self), old(effects)@, final(effects)@, dt as int),
    {
        advance_aliens(&mut self.aliens, &mut self.turret, dt, effects);
        let ghost fx1 = effects@;
        let boom = self.turret.update_explosions(dt);
        let mut b: usize = 0;
        while b < boom
            invariant
                b <= boom,
                effects@ == fx1 + explosion_sounds(b as nat),
            decreases boom - b,
        {
            effects.push(Effect::PlaySound(Sound::Explosion));
            proof {
                assert(explosion_sounds((b + 1) as nat) =~= explosion_sounds(b as nat).push(
                    Effect::PlaySound(Sound::Explosion),
                ));
                assert(effects@ =~= fx1 + explosion_sounds((b + 1) as nat));
            }
            b = b + 1;
        }
        proof {
            let n1 = crate::alien::spec_count_fires(old(self).aliens@, dt as int);
            let n2 = crate::explosion::spec_count_explosion_fires(
                old(self).turret.explosions@,
                dt as int,
            );
            assert(effects@ =~= old(effects)@ + explosion_sounds((n1 + n2) as nat));
        }
        if self.turret.explosions_done() {
            if self.lives > 0 {
                self.lives = self.lives - 1;
                self.turret = Turret::new();
                self.set_level_wave(self.current_level, self.current_wave, effects);
                self.state = GameState::Playing;
                if self.lives > 0 {
                    let banner = crate::numbers::u32_to_string(self.lives as u32).concat(
                        " Gun Left",
                    );
                    proof {
                        reveal_strlit(" Gun Left");
                    }
                    self.messages.push_back(Message::new(banner, 2_000));
                } else {
                    self.messages.push_back(
                        Message::new(String::from_str("Final Gun! Good Luck!"), 2_000),
                    );
                }
                let restart = String::from_str("Restarting Wave ").concat(
                    crate::numbers::u32_to_string((self.current_wave + 1) as u32).as_str(),
                );
                self.messages.push_back(Message::new(restart, 2_000));
                proof {
                    assert(self.messages@.take(old(self).messages@.len() as int) =~= old(
                        self,
                    ).messages@);
                }
            } else {
                self.state = GameState::Dead;
            }
        }
    }

    /// One frame of play, in the round loop's order: resolve the pending
    /// key, advance every alien and the banner queue, re-elect the target
    /// if it is gone or dead, go dying on a breach of the turret line, and
    /// advance the wave once every alien is dead.
    pub fn update_playing(&mut self, dt: u32, effects: &mut Vec<Effect>)
        requires
            wf_session(*old(self)),
            old(self).state is Playing,
            dt <= max_frame_ms(),
        ensures
            wf_session(*final(self)),
            unlock_monotone(old(self).catalog, final(self).catalog),
            final(self).lives == old(self).lives,
            final(self).difficulty_selection == old(self).difficulty_selection,
            final(self).state is Playing || final(self).state is Dying || final(self).state
                is LevelComplete || final(self).state is Won,
            final(self).target matches Some(i) ==> (i as int) < final(self).aliens@.len() && !(
            final(self).aliens@[i as int].state is Dead),
            final(self).target is None ==> all_dead(final(self).aliens@),
            final(self).state is Dying ==> spec_breach(final(self).aliens@),
            playing_frame(*old(self), *final(self), old(effects)@, final(effects)@, dt as int),
    {
        if let Some(key) = self.up_key {
            match key {
                Key::Enter => self.handle_enter(effects),
                Key::Back => self.handle_backspace(),
                Key::Left => self.handle_left(),
                Key::Right => self.handle_right(),
                _ => (),
            }
        }
        let ghost mid = *self;
        let ghost kfx = effects@.skip(old(effects)@.len() as int);
        proof {
            assert(effects@.take(old(effects)@.len() as int) =~= old(effects)@);
            assert(effects@ =~= old(effects)@ + kfx);
            match old(self).up_key {
                Some(Key::Enter) => {
                    if spec_enter_hits(*old(self)) {
                        assert(kfx =~= seq![Effect::PlaySound(Sound::Explosion)]);
                    } else {
                        assert(kfx =~= seq![Effect::PlaySound(Sound::Fail)]);
                    }
                },
                _ => {
                    assert(kfx =~= Seq::<Effect>::empty());
                },
            }
            assert(spec_key_step(*old(self), mid, kfx));
        }
        advance_aliens(&mut self.aliens, &mut self.turret, dt, effects);
        update_messages(&mut self.messages, dt);
        let needs_election: bool = match self.target {
            Some(t) => matches!(self.aliens[t].state, AlienState::Dead),
            None => true,
        };
        if needs_election {
            self.target = get_lowest_living_alien(&self.aliens);
        }
        if crate::targeting::any_breach(&self.aliens) {
            self.state = GameState::Dying;
        }
        if crate::targeting::all_aliens_dead(&self.aliens) {
            self.state = GameState::Playing;
            self.increment_level_wave(effects);
        }
        proof {
            let a2 = crate::alien::stepped_aliens(mid.aliens@, dt as int);
            let fires = explosion_sounds(crate::alien::spec_count_fires(mid.aliens@, dt as int));
            if all_dead(a2) {
                let waves_len = old(self).catalog.levels@[old(self).current_level as int].waves@.len();
                let levels_len = old(self).catalog.levels@.len();
                if old(self).current_wave + 1 < waves_len {
                } else if old(self).current_level + 1 < levels_len {
                    assert(effects@ =~= old(effects)@ + kfx + fires + seq![
                        Effect::SaveCatalog,
                        Effect::PlaySound(Sound::Clap),
                    ]);
                } else {
                    assert(effects@ =~= old(effects)@ + kfx + fires + seq![
                        Effect::PlaySound(Sound::Clap),
                    ]);
                }
            }
            assert(playing_frame_with(
                *old(self),
                *self,
                old(effects)@,
                effects@,
                dt as int,
                mid,
                kfx,
            ));
        }
    }

    /// One frame: dispatches on the mode, then consumes the pending key.
    /// Returns the effects the shell must carry out this frame.  What the
    /// frame did is said by the old mode's frame predicate; beyond that, the
    /// pending key is consumed, unlocks only ever grow, and lives never rise
    /// outside the level menu.
    pub fn update(&mut self, dt: u32) -> (effects: Vec<Effect>)
        requires
            wf_session(*old(self)),
            dt <= max_frame_ms(),
        ensures
            wf_session(*final(self)),
            final(self).up_key is None,
            unlock_monotone(old(self).catalog, final(self).catalog),
            !(old(self).state is LevelSelect) ==> final(self).lives <= old(self).lives,
            old(self).state is Playing ==> final(self).lives == old(self).lives,
            old(self).state is Playing ==> (final(self).target matches Some(i) ==> (i as int)
                < final(self).aliens@.len() && !(final(self).aliens@[i as int].state is Dead)),
            match old(self).state {
                GameState::DifficultySelect => difficulty_frame(*old(self), *final(self)),
                GameState::LevelSelect => level_select_frame(
                    *old(self),
                    *final(self),
                    Seq::<Effect>::empty(),
                    effects@,
                ),
                GameState::LevelComplete => level_complete_frame(
                    *old(self),
                    *final(self),
                    Seq::<Effect>::empty(),
                    effects@,
                ),
                GameState::LevelTransition(_) => transition_frame(
                    *old(self),
                    *final(self),
                    Seq::<Effect>::empty(),
                    effects@,
                    dt as int,
                ),
                GameState::Playing => playing_frame(
                    *old(self),
                    *final(self),
                    Seq::<Effect>::empty(),
                    effects@,
                    dt as int,
                ),
                GameState::Dying => dying_frame(
                    *old(self),
                    *final(self),
                    Seq::<Effect>::empty(),
                    effects@,
                    dt as int,
                ),
                GameState::Dead => end_screen_frame(*old(self), *final(self)),
                GameState::Won => end_screen_frame(*old(self), *final(self)),
            },
    {
        let mut effects: Vec<Effect> = Vec::new();
        match self.state {
            GameState::DifficultySelect => self.update_difficulty_select(),
            GameState::LevelSelect => self.update_level_select(&mut effects),
            GameState::LevelTransition(elapsed) => {
                self.update_level_transition(elapsed, dt, &mut effects);
            },
            GameState::Playing => self.update_playing(dt, &mut effects),
            GameState::Dying => self.update_dying(dt, &mut effects),
            GameState::Dead => self.update_dead(),
            GameState::Won => self.update_won(),
            GameState::LevelComplete => self.update_level_complete(&mut effects),
        }
        let ghost before_clear = *self;
        self.up_key = None;
        proof {
            if old(self).state is Playing {
                let (mid, kfx): (Session, Seq<Effect>) = choose|mid: Session, kfx: Seq<Effect>|
                    #[trigger] playing_frame_with(
                        *old(self),
                        before_clear,
                        Seq::<Effect>::empty(),
                        effects@,
                        dt as int,
                        mid,
                        kfx,
                    );
                assert(playing_frame_with(
                    *old(self),
                    *self,
                    Seq::<Effect>::empty(),
                    effects@,
                    dt as int,
                    mid,
                    kfx,
                ));
            }
        }
        effects
    }
}

/// Advances every alien by one frame.  The turret's laser rests exactly
/// when some alien's explosion finishes this frame, and one explosion sound
/// effect is queued per alien whose cue fires.
pub fn advance_aliens(
    aliens: &mut Vec<Alien>,
    turret: &mut Turret,
    dt: u32,
    effects: &mut Vec<Effect>,
)
    requires
        forall|i: int| 0 <= i < old(aliens)@.len() ==> wf_alien(#[trigger] old(aliens)@[i]),
        wf_turret(*old(turret)),
        dt <= max_frame_ms(),
    ensures
        final(aliens)@ == crate::alien::stepped_aliens(old(aliens)@, dt as int),
        forall|i: int| 0 <= i < final(aliens)@.len() ==> wf_alien(#[trigger] final(aliens)@[i]),
        wf_turret(*final(turret)),
        final(turret).raw_text == old(turret).raw_text,
        final(turret).explosions == old(turret).explosions,
        final(turret).state == (if (exists|i: int|
            0 <= i < old(aliens)@.len() && crate::alien::spec_alien_finishes(
                #[trigger] old(aliens)@[i],
                dt as int,
            )) {
            TurretState::Resting
        } else {
            old(turret).state
        }),
        final(effects)@ == old(effects)@ + explosion_sounds(
            crate::alien::spec_count_fires(old(aliens)@, dt as int),
        ),
        forall|i: int|
            0 <= i < final(aliens)@.len() ==> ((#[trigger] final(aliens)@[i].state) is Dead
                ==> old(aliens)@[i].state is Dead || crate::alien::spec_alien_finishes(
                old(aliens)@[i],
                dt as int,
            )),
{
    let n = aliens.len();
    let mut k: usize = 0;
    while k < n
        invariant
            k <= n,
            n == old(aliens)@.len(),
            aliens@.len() == n,
            dt <= max_frame_ms(),
            forall|i: int| 0 <= i < n ==> wf_alien(#[trigger] old(aliens)@[i]),
            forall|i: int| k <= i < n ==> #[trigger] aliens@[i] == old(aliens)@[i],
            forall|i: int|
                0 <= i < k ==> #[trigger] aliens@[i] == crate::alien::spec_alien_step(
                    old(aliens)@[i],
                    dt as int,
                ),
            forall|i: int| 0 <= i < k ==> wf_alien(#[trigger] aliens@[i]),
            wf_turret(*turret),
            turret.raw_text == old(turret).raw_text,
            turret.explosions == old(turret).explosions,
            turret.state == (if (exists|i: int|
                0 <= i < k && crate::alien::spec_alien_finishes(
                    #[trigger] old(aliens)@[i],
                    dt as int,
                )) {
                TurretState::Resting
            } else {
                old(turret).state
            }),
            effects@ == old(effects)@ + explosion_sounds(
                crate::alien::spec_count_fires(old(aliens)@.take(k as int), dt as int),
            ),
        decreases n - k,
    {
        assert(wf_alien(aliens@[k as int]));
        let a = &mut aliens[k];
        let signals = a.update(dt);
        if signals.finished {
            turret.state = TurretState::Resting;
            proof {
                assert(crate::alien::spec_alien_finishes(old(aliens)@[k as int], dt as int));
            }
        }
        if signals.fired {
            effects.push(Effect::PlaySound(Sound::Explosion));
        }
        proof {
            let pre = old(aliens)@.take(k as int);
            let cur = old(aliens)@.take(k + 1);
            assert(cur.drop_last() =~= pre);
            assert(cur.last() == old(aliens)@[k as int]);
            let c0 = crate::alien::spec_count_fires(pre, dt as int);
            let c1 = crate::alien::spec_count_fires(cur, dt as int);
            if signals.fired {
                assert(c1 == c0 + 1);
                assert(explosion_sounds(c1) =~= explosion_sounds(c0).push(
                    Effect::PlaySound(Sound::Explosion),
                ));
                assert(effects@ =~= old(effects)@ + explosion_sounds(c1));
            } else {
                assert(c1 == c0);
            }
        }
        k = k + 1;
    }
    proof {
        assert(old(aliens)@.take(n as int) =~= old(aliens)@);
        assert(aliens@ =~= crate::alien::stepped_aliens(old(aliens)@, dt as int));
    }
}

} // verus!