//! The level catalog: levels, waves, wave-groups, the difficulty table, and
//! the built-in default campaign.
//!
//! Coordinates and times elsewhere in the crate are integers: positions are
//! millionths of the playfield (so `1_000_000` is the full width or height),
//! speeds are thousandths of the unit the designer writes in the catalog, and
//! times are milliseconds.

use vstd::prelude::*;

verus! {

/// The arithmetic operation a wave-group drills.
#[derive(Clone, Copy, PartialEq, Eq, Structural, Debug)]
pub enum Operation {
    Add,
    Subtract,
    Multiply,
    Divide,
}

/// A homogeneous sub-batch of a wave: one operation, speed, ship count and
/// operand range.  `speed_milli` holds the designer's speed times 1000.
#[derive(Clone, Debug)]
pub struct WaveGroup {
    pub operation: Operation,
    pub speed_milli: u32,
    pub num_ships: u32,
    pub max_number: u32,
    pub min_number: u32,
}

/// One bundle of enemies spawned together.
#[derive(Clone, Debug)]
pub struct Wave {
    pub groups: Vec<WaveGroup>,
}

/// A campaign level: an ordered list of waves plus menu metadata and the
/// per-difficulty unlock flags (always four of them).
#[derive(Clone, Debug)]
pub struct Level {
    pub waves: Vec<Wave>,
    pub background_file: String,
    pub title: String,
    pub unlocked: Vec<bool>,
}

/// The ordered, nonempty list of levels.  This is what gets persisted.
#[derive(Clone, Debug)]
pub struct Catalog {
    pub levels: Vec<Level>,
}

/// The number of difficulty tiers.
pub open spec fn spec_difficulty_count() -> nat {
    4
}

pub fn difficulty_count() -> (n: usize)
    ensures
        n == spec_difficulty_count(),
{
    4
}

/// Speed multiplier of a difficulty tier, in hundredths.
pub open spec fn spec_speed_mul_pct(d: int) -> int {
    if d == 0 {
        100
    } else if d == 1 {
        110
    } else if d == 2 {
        125
    } else {
        150
    }
}

/// Operand-range and ship-count multiplier of a difficulty tier, in
/// hundredths.  The designer's table uses the same curve for the minimum
/// number, the maximum number and the ship count.
pub open spec fn spec_number_mul_pct(d: int) -> int {
    if d == 0 {
        100
    } else if d == 1 {
        125
    } else if d == 2 {
        200
    } else {
        300
    }
}

pub fn speed_mul_pct(d: usize) -> (r: u32)
    requires
        d < 4,
    ensures
        r == spec_speed_mul_pct(d as int),
{
    if d == 0 {
        100
    } else if d == 1 {
        110
    } else if d == 2 {
        125
    } else {
        150
    }
}

pub fn number_mul_pct(d: usize) -> (r: u32)
    requires
        d < 4,
    ensures
        r == spec_number_mul_pct(d as int),
{
    if d == 0 {
        100
    } else if d == 1 {
        125
    } else if d == 2 {
        200
    } else {
        300
    }
}

/// A value scaled by a percentage, rounded down.
pub open spec fn spec_scaled(v: int, pct: int) -> int {
    v * pct / 100
}

/// Scales an operand bound or ship count by a difficulty percentage.
pub fn scaled(v: u32, pct: u32) -> (r: u32)
    requires
        v <= 100_000,
        pct <= 300,
    ensures
        r == spec_scaled(v as int, pct as int),
        r <= 300_000,
{
    proof {
        assert(v * pct <= 100_000 * 300) by (nonlinear_arith)
            requires
                v <= 100_000 && pct <= 300,
        ;
        assert(v * pct >= 0) by (nonlinear_arith)
            requires
                v >= 0 && pct >= 0,
        ;
    }
    (v * pct) / 100
}

/// A character that may appear in a persisted title or resource key:
/// printable ASCII, excluding the two characters that would need escaping
/// inside a quoted string.
pub open spec fn plain_char(c: char) -> bool {
    32 <= c as u32 <= 126 && c != '"' && c != '\\'
}

pub open spec fn plain_text(s: Seq<char>) -> bool {
    forall|i: int| 0 <= i < s.len() ==> plain_char(#[trigger] s[i])
}

/// Well-formedness of a wave-group.  The operand range is half-open and
/// nonempty; the bounds keep every scaled product inside the machine
/// integers; a division group needs room for a nonzero divisor.
pub open spec fn wf_group(g: WaveGroup) -> bool {
    &&& g.min_number < g.max_number
    &&& g.max_number <= 10_000
    &&& g.speed_milli <= 100_000
    &&& g.num_ships <= 1_000
    &&& (g.operation is Divide ==> g.max_number >= 2)
}

pub open spec fn wf_wave(w: Wave) -> bool {
    forall|i: int| 0 <= i < w.groups@.len() ==> wf_group(#[trigger] w.groups@[i])
}

pub open spec fn wf_level(l: Level) -> bool {
    &&& 1 <= l.waves@.len() <= 1_000_000
    &&& l.unlocked@.len() == spec_difficulty_count()
    &&& plain_text(l.title@)
    &&& plain_text(l.background_file@)
    &&& forall|i: int| 0 <= i < l.waves@.len() ==> wf_wave(#[trigger] l.waves@[i])
}

/// Well-formedness of the whole catalog: nonempty, every level well formed,
/// and the first level always unlocked, so every difficulty menu has at
/// least one selectable level.
pub open spec fn wf_catalog(c: Catalog) -> bool {
    &&& c.levels@.len() >= 1
    &&& (forall|d: int| 0 <= d < 4 ==> (#[trigger] c.levels@[0].unlocked@[d]) == true)
    &&& forall|i: int| 0 <= i < c.levels@.len() ==> wf_level(#[trigger] c.levels@[i])
}

/// The unlock flags of `b` dominate those of `a`, with everything else (the
/// level shapes, titles, waves) identical.  Gameplay only ever moves the
/// catalog up this order.
pub open spec fn unlock_monotone(a: Catalog, b: Catalog) -> bool {
    &&& a.levels@.len() == b.levels@.len()
    &&& forall|i: int|
        0 <= i < a.levels@.len() ==> {
            &&& (#[trigger] b.levels@[i]).title@ == a.levels@[i].title@
            &&& b.levels@[i].background_file@ == a.levels@[i].background_file@
            &&& b.levels@[i].waves@ == a.levels@[i].waves@
            &&& b.levels@[i].unlocked@.len() == a.levels@[i].unlocked@.len()
            &&& forall|d: int|
                0 <= d < a.levels@[i].unlocked@.len() ==> (a.levels@[i].unlocked@[d]
                    ==> #[trigger] b.levels@[i].unlocked@[d])
        }
}

/// Marks level `level` as unlocked at difficulty `difficulty`.
pub fn unlock_level(catalog: &mut Catalog, level: usize, difficulty: usize)
    requires
        wf_catalog(*old(catalog)),
        level < old(catalog).levels@.len(),
        difficulty < spec_difficulty_count(),
    ensures
        wf_catalog(*final(catalog)),
        unlock_monotone(*old(catalog), *final(catalog)),
        final(catalog).levels@[level as int].unlocked@[difficulty as int] == true,
        forall|i: int, d: int|
            0 <= i < old(catalog).levels@.len() && 0 <= d < 4 && !(i == level && d == difficulty)
                ==> (#[trigger] final(catalog).levels@[i].unlocked@[d]) == old(
                catalog,
            ).levels@[i].unlocked@[d],
{
    let lvl = &mut catalog.levels[level];
    lvl.unlocked.set(difficulty, true);
    proof {
        assert(final(catalog).levels@[level as int].unlocked@ == old(
            catalog,
        ).levels@[level as int].unlocked@.update(difficulty as int, true));
        assert forall|i: int| 0 <= i < final(catalog).levels@.len() implies wf_level(
            #[trigger] final(catalog).levels@[i],
        ) by {
            assert(wf_level(old(catalog).levels@[i]));
        }
    }
}

/// How many levels are unlocked at a difficulty.  Menu cycling wraps over
/// exactly this many entries.
pub open spec fn spec_unlocked_count(levels: Seq<Level>, difficulty: int) -> nat
    decreases levels.len(),
{
    if levels.len() == 0 {
        0
    } else {
        (spec_unlocked_count(levels.drop_last(), difficulty) + if levels.last(
        ).unlocked@[difficulty] {
            1nat
        } else {
            0nat
        }) as nat
    }
}

/// Counts the levels whose unlock flag is set at `difficulty`.
pub fn unlocked_count(catalog: &Catalog, difficulty: usize) -> (n: usize)
    requires
        wf_catalog(*catalog),
        difficulty < spec_difficulty_count(),
    ensures
        n == spec_unlocked_count(catalog.levels@, difficulty as int),
        n <= catalog.levels@.len(),
{
    let mut n: usize = 0;
    let mut i: usize = 0;
    let len = catalog.levels.len();
    while i < len
        invariant
            0 <= i <= len,
            len == catalog.levels@.len(),
            wf_catalog(*catalog),
            difficulty < 4,
            n <= i,
            n == spec_unlocked_count(catalog.levels@.take(i as int), difficulty as int),
        decreases len - i,
    {
        assert(wf_level(catalog.levels@[i as int]));
        let flag = catalog.levels[i].unlocked[difficulty];
        if flag {
            n = n + 1;
        }
        proof {
            let prefix = catalog.levels@.take(i + 1);
            assert(prefix.drop_last() =~= catalog.levels@.take(i as int));
            assert(prefix.last() == catalog.levels@[i as int]);
        }
        i = i + 1;
    }
    proof {
        assert(catalog.levels@.take(len as int) =~= catalog.levels@);
    }
    n
}

/// Never more levels unlocked than levels.
pub proof fn lemma_unlocked_count_le_len(levels: Seq<Level>, difficulty: int)
    ensures
        spec_unlocked_count(levels, difficulty) <= levels.len(),
    decreases levels.len(),
{
    if levels.len() > 0 {
        lemma_unlocked_count_le_len(levels.drop_last(), difficulty);
    }
}

/// Setting unlock flags never shrinks the unlocked count.
pub proof fn lemma_unlocked_count_monotone(a: Seq<Level>, b: Seq<Level>, difficulty: int)
    requires
        a.len() == b.len(),
        forall|i: int|
            0 <= i < a.len() ==> ((#[trigger] a[i].unlocked@[difficulty])
                ==> #[trigger] b[i].unlocked@[difficulty]),
    ensures
        spec_unlocked_count(a, difficulty) <= spec_unlocked_count(b, difficulty),
    decreases a.len(),
{
    if a.len() > 0 {
        lemma_unlocked_count_monotone(a.drop_last(), b.drop_last(), difficulty);
    }
}

/// The count of unlocked levels is at least one whenever some unlocked flag
/// is set at the difficulty; in particular the first level of a well-formed
/// catalog keeps difficulty zero selectable.
pub proof fn lemma_unlocked_count_at_least(levels: Seq<Level>, difficulty: int, i: int)
    requires
        0 <= i < levels.len(),
        levels[i].unlocked@[difficulty],
    ensures
        spec_unlocked_count(levels, difficulty) >= 1,
    decreases levels.len(),
{
    if i + 1 == levels.len() {
    } else {
        lemma_unlocked_count_at_least(levels.drop_last(), difficulty, i);
    }
}

} // verus!
