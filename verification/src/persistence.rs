//! Unlock persistence: validating a read catalog, the built-in default
//! campaign, and the load path that falls back to it.  The shell only reads
//! and writes the document's characters; everything in between is here.

use vstd::prelude::*;

use crate::catalog_parse::parse_catalog;
use crate::catalog_text::encode_catalog;
use crate::json::{enc_catalog, enc_catalog_ok, p_catalog, CatalogModel};
use crate::json_proof::lemma_catalog_roundtrip;
use crate::level::{
    plain_char, plain_text, wf_catalog, wf_group, wf_level, wf_wave, Catalog, Level, Operation,
    Wave, WaveGroup,
};

verus! {

/// A well-formed catalog is within the writer's bounds.
pub proof fn lemma_wf_encodable(c: Catalog)
    requires
        wf_catalog(c),
    ensures
        enc_catalog_ok(c@),
{
    assert forall|i: int| 0 <= i < c@.levels.len() implies crate::json::enc_level_ok(
        #[trigger] c@.levels[i],
    ) by {
        assert(c@.levels[i] == c.levels@[i]@);
        assert(wf_level(c.levels@[i]));
        assert forall|w: int, g: int|
            0 <= w < c@.levels[i].waves.len() && 0 <= g
                < c@.levels[i].waves[w].groups.len() implies crate::json::enc_group_ok(
            #[trigger] (#[trigger] c@.levels[i].waves[w]).groups[g],
        ) by {
            assert(c@.levels[i].waves[w] == c.levels@[i].waves@[w]@);
            assert(c@.levels[i].waves[w].groups[g] == c.levels@[i].waves@[w].groups@[g]@);
            assert(wf_wave(c.levels@[i].waves@[w]));
            assert(wf_group(c.levels@[i].waves@[w].groups@[g]));
        }
    }
}

/// A loaded catalog that satisfies the gameplay invariants reads back
/// unchanged from what the session later writes: persistence loses no
/// unlock state and no level data.
pub proof fn lemma_persisted_reload(c: Catalog, text: Seq<char>)
    requires
        wf_catalog(c),
        p_catalog(text) == Some(c@),
    ensures
        p_catalog(enc_catalog(c@)) == Some(c@),
{
    lemma_wf_encodable(c);
    lemma_catalog_roundtrip(c@);
}

/// Whether every character of the text may appear in a persisted string.
fn is_plain_str(s: &str) -> (b: bool)
    ensures
        b == plain_text(s@),
{
    let n = s.unicode_len();
    let mut k: usize = 0;
    while k < n
        invariant
            k <= n,
            n == s@.len(),
            forall|j: int| 0 <= j < k ==> plain_char(#[trigger] s@[j]),
        decreases n - k,
    {
        let c = s.get_char(k);
        let u = c as u32;
        if !(32 <= u && u <= 126 && c != '"' && c != '\\') {
            return false;
        }
        k = k + 1;
    }
    true
}

fn check_group(g: &WaveGroup) -> (b: bool)
    ensures
        b == wf_group(*g),
{
    g.min_number < g.max_number && g.max_number <= 10_000 && g.speed_milli <= 100_000
        && g.num_ships <= 1_000 && (!matches!(g.operation, Operation::Divide) || g.max_number >= 2)
}

fn check_wave(w: &Wave) -> (b: bool)
    ensures
        b == wf_wave(*w),
{
    let n = w.groups.len();
    let mut k: usize = 0;
    while k < n
        invariant
            k <= n,
            n == w.groups@.len(),
            forall|j: int| 0 <= j < k ==> wf_group(#[trigger] w.groups@[j]),
        decreases n - k,
    {
        if !check_group(&w.groups[k]) {
            return false;
        }
        k = k + 1;
    }
    true
}

fn check_level(l: &Level) -> (b: bool)
    ensures
        b == wf_level(*l),
{
    if !(1 <= l.waves.len() && l.waves.len() <= 1_000_000) {
        return false;
    }
    if l.unlocked.len() != 4 {
        return false;
    }
    if !is_plain_str(l.title.as_str()) {
        return false;
    }
    if !is_plain_str(l.background_file.as_str()) {
        return false;
    }
    let n = l.waves.len();
    let mut k: usize = 0;
    while k < n
        invariant
            k <= n,
            n == l.waves@.len(),
            forall|j: int| 0 <= j < k ==> wf_wave(#[trigger] l.waves@[j]),
        decreases n - k,
    {
        if !check_wave(&l.waves[k]) {
            return false;
        }
        k = k + 1;
    }
    true
}

/// The strict semantic check a read catalog must pass before play: exactly
/// the gameplay well-formedness invariant.
pub fn check_catalog(c: &Catalog) -> (b: bool)
    ensures
        b == wf_catalog(*c),
{
    if c.levels.len() == 0 {
        return false;
    }
    let mut d: usize = 0;
    while d < 4
        invariant
            d <= 4,
            c.levels@.len() >= 1,
            forall|j: int| 0 <= j < d ==> (#[trigger] c.levels@[0].unlocked@[j]) == true,
        decreases 4 - d,
    {
        if c.levels[0].unlocked.len() != 4 {
            return false;
        }
        if !c.levels[0].unlocked[d] {
            return false;
        }
        d = d + 1;
    }
    let n = c.levels.len();
    let mut k: usize = 0;
    while k < n
        invariant
            k <= n,
            n == c.levels@.len(),
            forall|j: int| 0 <= j < k ==> wf_level(#[trigger] c.levels@[j]),
        decreases n - k,
    {
        if !check_level(&c.levels[k]) {
            return false;
        }
        k = k + 1;
    }
    true
}

fn unlocked_all() -> (v: Vec<bool>)
    ensures
        v@.len() == 4,
        forall|j: int| 0 <= j < 4 ==> (#[trigger] v@[j]) == true,
{
    let v = vec![true, true, true, true];
    proof {
        assert(v@ =~= seq![true, true, true, true]);
    }
    v
}

fn unlocked_none() -> (v: Vec<bool>)
    ensures
        v@ =~= seq![false, false, false, false],
{
    vec![false, false, false, false]
}

fn mk_group(op: Operation, speed_milli: u32, max_number: u32, min_number: u32, num_ships: u32) -> (g:
    WaveGroup)
    ensures
        g == (WaveGroup { operation: op, speed_milli, num_ships, max_number, min_number }),
{
    WaveGroup { operation: op, speed_milli, num_ships, max_number, min_number }
}

fn mk_wave1(g: WaveGroup) -> (w: Wave)
    ensures
        w.groups@ =~= seq![g],
{
    Wave { groups: vec![g] }
}

/// A default-campaign wave-group: the designer leaves the lower operand
/// bound at zero everywhere.
pub open spec fn dg(op: Operation, speed_milli: u32, max_number: u32, num_ships: u32) -> WaveGroup {
    WaveGroup { operation: op, speed_milli, num_ships, max_number, min_number: 0 }
}

/// One of the default campaign's four introduction levels: three
/// single-group waves of one operation, five, eight and ten ships at rising
/// speed.
pub open spec fn is_intro_level(
    l: Level,
    title: Seq<char>,
    background: Seq<char>,
    op: Operation,
    max_number: u32,
    open_everywhere: bool,
) -> bool {
    &&& l.title@ == title
    &&& l.background_file@ == background
    &&& l.unlocked@ == (if open_everywhere {
        seq![true, true, true, true]
    } else {
        seq![false, false, false, false]
    })
    &&& l.waves@.len() == 3
    &&& l.waves@[0].groups@ == seq![dg(op, 2_500, max_number, 5)]
    &&& l.waves@[1].groups@ == seq![dg(op, 3_500, max_number, 8)]
    &&& l.waves@[2].groups@ == seq![dg(op, 4_500, max_number, 10)]
}

/// The default campaign's finale: three waves that mix the operations.
pub open spec fn is_finale_level(l: Level) -> bool {
    &&& l.title@ == "The Final Assault!"@
    &&& l.background_file@ == "/spacebg5.jpg"@
    &&& l.unlocked@ == seq![false, false, false, false]
    &&& l.waves@.len() == 3
    &&& l.waves@[0].groups@ == seq![
        dg(Operation::Add, 3_500, 5, 5),
        dg(Operation::Subtract, 2_500, 5, 5),
    ]
    &&& l.waves@[1].groups@ == seq![
        dg(Operation::Add, 3_500, 5, 3),
        dg(Operation::Subtract, 2_500, 5, 3),
        dg(Operation::Multiply, 2_500, 5, 3),
    ]
    &&& l.waves@[2].groups@ == seq![
        dg(Operation::Add, 3_500, 5, 3),
        dg(Operation::Subtract, 3_500, 5, 3),
        dg(Operation::Multiply, 2_500, 5, 3),
        dg(Operation::Divide, 1_500, 6, 3),
    ]
}

/// The whole built-in campaign, written out: addition, subtraction,
/// multiplication and division introductions, then the mixed finale; only
/// the first level starts unlocked.
pub open spec fn is_default_catalog(c: Catalog) -> bool {
    &&& c.levels@.len() == 5
    &&& is_intro_level(
        c.levels@[0],
        "Addition Attack!"@,
        "/spacebg1.jpg"@,
        Operation::Add,
        5,
        true,
    )
    &&& is_intro_level(
        c.levels@[1],
        "Subtraction Subterfuge!"@,
        "/spacebg2.jpg"@,
        Operation::Subtract,
        5,
        false,
    )
    &&& is_intro_level(
        c.levels@[2],
        "Multiplication Mayhem!"@,
        "/spacebg3.jpg"@,
        Operation::Multiply,
        5,
        false,
    )
    &&& is_intro_level(
        c.levels@[3],
        "Division Disaster!"@,
        "/spacebg4.jpg"@,
        Operation::Divide,
        6,
        false,
    )
    &&& is_finale_level(c.levels@[4])
}

/// Builds one introduction level.
#[verifier::rlimit(100)]
fn intro_level(
    title: &str,
    background: &str,
    op: Operation,
    max_number: u32,
    open_everywhere: bool,
) -> (l: Level)
    requires
        plain_text(title@),
        plain_text(background@),
        2 <= max_number <= 10_000,
    ensures
        is_intro_level(l, title@, background@, op, max_number, open_everywhere),
        wf_level(l),
{
    let l = Level {
        unlocked: if open_everywhere {
            unlocked_all()
        } else {
            unlocked_none()
        },
        title: String::from_str(title),
        background_file: String::from_str(background),
        waves: vec![
            mk_wave1(mk_group(op, 2_500, max_number, 0, 5)),
            mk_wave1(mk_group(op, 3_500, max_number, 0, 8)),
            mk_wave1(mk_group(op, 4_500, max_number, 0, 10)),
        ],
    };
    proof {
        if open_everywhere {
            assert(l.unlocked@ =~= seq![true, true, true, true]);
        }
        assert(forall|i: int| 0 <= i < l.waves@.len() ==> wf_wave(#[trigger] l.waves@[i]));
    }
    l
}

/// Builds the finale level.
#[verifier::rlimit(100)]
fn finale_level() -> (l: Level)
    ensures
        is_finale_level(l),
        wf_level(l),
{
    let wave_a = Wave {
        groups: vec![
            mk_group(Operation::Add, 3_500, 5, 0, 5),
            mk_group(Operation::Subtract, 2_500, 5, 0, 5),
        ],
    };
    let wave_b = Wave {
        groups: vec![
            mk_group(Operation::Add, 3_500, 5, 0, 3),
            mk_group(Operation::Subtract, 2_500, 5, 0, 3),
            mk_group(Operation::Multiply, 2_500, 5, 0, 3),
        ],
    };
    let wave_c = Wave {
        groups: vec![
            mk_group(Operation::Add, 3_500, 5, 0, 3),
            mk_group(Operation::Subtract, 3_500, 5, 0, 3),
            mk_group(Operation::Multiply, 2_500, 5, 0, 3),
            mk_group(Operation::Divide, 1_500, 6, 0, 3),
        ],
    };
    proof {
        assert(wave_a.groups@ =~= seq![
            dg(Operation::Add, 3_500, 5, 5),
            dg(Operation::Subtract, 2_500, 5, 5),
        ]);
        assert(wave_b.groups@ =~= seq![
            dg(Operation::Add, 3_500, 5, 3),
            dg(Operation::Subtract, 2_500, 5, 3),
            dg(Operation::Multiply, 2_500, 5, 3),
        ]);
        assert(wave_c.groups@ =~= seq![
            dg(Operation::Add, 3_500, 5, 3),
            dg(Operation::Subtract, 3_500, 5, 3),
            dg(Operation::Multiply, 2_500, 5, 3),
            dg(Operation::Divide, 1_500, 6, 3),
        ]);
    }
    let l = Level {
        unlocked: unlocked_none(),
        title: String::from_str("The Final Assault!"),
        background_file: String::from_str("/spacebg5.jpg"),
        waves: vec![wave_a, wave_b, wave_c],
    };
    proof {
        proof_plain_finale_strings();
        assert(forall|i: int| 0 <= i < l.waves@.len() ==> wf_wave(#[trigger] l.waves@[i]));
    }
    l
}

/// The finale's strings contain only plain characters.
proof fn proof_plain_finale_strings()
    ensures
        plain_text("The Final Assault!"@),
        plain_text("/spacebg5.jpg"@),
{
    reveal_strlit("The Final Assault!");
    reveal_strlit("/spacebg5.jpg");
    assert(forall|i: int|
        0 <= i < "The Final Assault!"@.len() ==> plain_char(#[trigger] "The Final Assault!"@[i]));
    assert(forall|i: int|
        0 <= i < "/spacebg5.jpg"@.len() ==> plain_char(#[trigger] "/spacebg5.jpg"@[i]));
}

/// The introduction levels' strings contain only plain characters.
#[verifier::rlimit(100)]
proof fn proof_plain_intro_strings()
    ensures
        plain_text("Addition Attack!"@),
        plain_text("/spacebg1.jpg"@),
        plain_text("Subtraction Subterfuge!"@),
        plain_text("/spacebg2.jpg"@),
        plain_text("Multiplication Mayhem!"@),
        plain_text("/spacebg3.jpg"@),
        plain_text("Division Disaster!"@),
        plain_text("/spacebg4.jpg"@),
{
    reveal_strlit("Addition Attack!");
    reveal_strlit("/spacebg1.jpg");
    reveal_strlit("Subtraction Subterfuge!");
    reveal_strlit("/spacebg2.jpg");
    reveal_strlit("Multiplication Mayhem!");
    reveal_strlit("/spacebg3.jpg");
    reveal_strlit("Division Disaster!");
    reveal_strlit("/spacebg4.jpg");
    assert(forall|i: int|
        0 <= i < "Addition Attack!"@.len() ==> plain_char(#[trigger] "Addition Attack!"@[i]));
    assert(forall|i: int|
        0 <= i < "/spacebg1.jpg"@.len() ==> plain_char(#[trigger] "/spacebg1.jpg"@[i]));
    assert(forall|i: int|
        0 <= i < "Subtraction Subterfuge!"@.len() ==> plain_char(
            #[trigger] "Subtraction Subterfuge!"@[i],
        ));
    assert(forall|i: int|
        0 <= i < "/spacebg2.jpg"@.len() ==> plain_char(#[trigger] "/spacebg2.jpg"@[i]));
    assert(forall|i: int|
        0 <= i < "Multiplication Mayhem!"@.len() ==> plain_char(
            #[trigger] "Multiplication Mayhem!"@[i],
        ));
    assert(forall|i: int|
        0 <= i < "/spacebg3.jpg"@.len() ==> plain_char(#[trigger] "/spacebg3.jpg"@[i]));
    assert(forall|i: int|
        0 <= i < "Division Disaster!"@.len() ==> plain_char(#[trigger] "Division Disaster!"@[i]));
    assert(forall|i: int|
        0 <= i < "/spacebg4.jpg"@.len() ==> plain_char(#[trigger] "/spacebg4.jpg"@[i]));
}

/// The built-in default campaign: five levels that introduce the four
/// operations one by one and then mix them.  The result is pinned down to
/// its exact content, so the fallback of the load path and the scenarios
/// written against the default are all provable against this contract.
#[verifier::rlimit(100)]
pub fn default_catalog() -> (c: Catalog)
    ensures
        wf_catalog(c),
        is_default_catalog(c),
{
    proof {
        proof_plain_intro_strings();
    }
    let level1 = intro_level("Addition Attack!", "/spacebg1.jpg", Operation::Add, 5, true);
    let level2 = intro_level(
        "Subtraction Subterfuge!",
        "/spacebg2.jpg",
        Operation::Subtract,
        5,
        false,
    );
    let level3 = intro_level(
        "Multiplication Mayhem!",
        "/spacebg3.jpg",
        Operation::Multiply,
        5,
        false,
    );
    let level4 = intro_level("Division Disaster!", "/spacebg4.jpg", Operation::Divide, 6, false);
    let level5 = finale_level();
    let c = Catalog { levels: vec![level1, level2, level3, level4, level5] };
    proof {
        assert(c.levels@.len() == 5);
        assert(forall|i: int| 0 <= i < c.levels@.len() ==> wf_level(#[trigger] c.levels@[i]));
        assert(forall|d: int| 0 <= d < 4 ==> (#[trigger] c.levels@[0].unlocked@[d]) == true);
    }
    c
}

/// The gameplay well-formedness invariant, stated of a catalog model, so
/// the load path can speak about what a document's reading yields before
/// any executable value exists.
pub open spec fn wf_group_model(g: crate::json::GroupModel) -> bool {
    &&& g.min_number < g.max_number
    &&& g.max_number <= 10_000
    &&& g.speed_milli <= 100_000
    &&& g.num_ships <= 1_000
    &&& (g.operation is Divide ==> g.max_number >= 2)
}

pub open spec fn wf_wave_model(w: crate::json::WaveModel) -> bool {
    forall|i: int| 0 <= i < w.groups.len() ==> wf_group_model(#[trigger] w.groups[i])
}

pub open spec fn wf_level_model(l: crate::json::LevelModel) -> bool {
    &&& 1 <= l.waves.len() <= 1_000_000
    &&& l.unlocked.len() == 4
    &&& plain_text(l.title)
    &&& plain_text(l.background_file)
    &&& forall|i: int| 0 <= i < l.waves.len() ==> wf_wave_model(#[trigger] l.waves[i])
}

pub open spec fn wf_catalog_model(m: CatalogModel) -> bool {
    &&& m.levels.len() >= 1
    &&& (forall|d: int| 0 <= d < 4 ==> (#[trigger] m.levels[0].unlocked[d]) == true)
    &&& forall|i: int| 0 <= i < m.levels.len() ==> wf_level_model(#[trigger] m.levels[i])
}

/// A catalog is well formed exactly when its model is: the invariant reads
/// nothing but the view.
pub proof fn lemma_wf_catalog_view(c: Catalog)
    ensures
        wf_catalog(c) <==> wf_catalog_model(c@),
{
    assert(c@.levels.len() == c.levels@.len());
    if c.levels@.len() >= 1 {
        assert(c@.levels[0] == c.levels@[0]@);
    }
    if wf_catalog(c) {
        assert forall|i: int| 0 <= i < c@.levels.len() implies wf_level_model(
            #[trigger] c@.levels[i],
        ) by {
            assert(c@.levels[i] == c.levels@[i]@);
            assert(wf_level(c.levels@[i]));
            lemma_wf_level_view(c.levels@[i]);
        }
    }
    if wf_catalog_model(c@) {
        assert forall|i: int| 0 <= i < c.levels@.len() implies wf_level(
            #[trigger] c.levels@[i],
        ) by {
            assert(c@.levels[i] == c.levels@[i]@);
            assert(wf_level_model(c@.levels[i]));
            lemma_wf_level_view(c.levels@[i]);
        }
    }
}

proof fn lemma_wf_level_view(l: Level)
    ensures
        wf_level(l) <==> wf_level_model(l@),
{
    assert(l@.waves.len() == l.waves@.len());
    if wf_level(l) {
        assert forall|w: int| 0 <= w < l@.waves.len() implies wf_wave_model(
            #[trigger] l@.waves[w],
        ) by {
            assert(l@.waves[w] == l.waves@[w]@);
            assert(wf_wave(l.waves@[w]));
            lemma_wf_wave_view(l.waves@[w]);
        }
    }
    if wf_level_model(l@) {
        assert forall|w: int| 0 <= w < l.waves@.len() implies wf_wave(
            #[trigger] l.waves@[w],
        ) by {
            assert(l@.waves[w] == l.waves@[w]@);
            assert(wf_wave_model(l@.waves[w]));
            lemma_wf_wave_view(l.waves@[w]);
        }
    }
}

proof fn lemma_wf_wave_view(w: Wave)
    ensures
        wf_wave(w) <==> wf_wave_model(w@),
{
    assert(w@.groups.len() == w.groups@.len());
    if wf_wave(w) {
        assert forall|g: int| 0 <= g < w@.groups.len() implies wf_group_model(
            #[trigger] w@.groups[g],
        ) by {
            assert(w@.groups[g] == w.groups@[g]@);
            assert(wf_group(w.groups@[g]));
        }
    }
    if wf_wave_model(w@) {
        assert forall|g: int| 0 <= g < w.groups@.len() implies wf_group(
            #[trigger] w.groups@[g],
        ) by {
            assert(w@.groups[g] == w.groups@[g]@);
            assert(wf_group_model(w@.groups[g]));
        }
    }
}

/// Whether a document reads as a playable catalog: it parses, and the
/// parsed catalog passes the semantic check.
pub open spec fn spec_loads(text: Seq<char>) -> bool {
    match p_catalog(text) {
        Some(m) => wf_catalog_model(m),
        None => false,
    }
}

/// Loads a catalog from the persisted document's characters.  A document
/// that reads and passes the semantic check is returned as read; on any
/// failure (unreadable or semantically invalid) the built-in default is
/// returned instead, and exactly then the flag is set — the caller then
/// rewrites the document.
pub fn load_catalog(text: &Vec<char>) -> (r: (Catalog, bool))
    ensures
        wf_catalog(r.0),
        r.1 <==> !spec_loads(text@),
        !r.1 ==> p_catalog(text@) == Some(r.0@),
        r.1 ==> is_default_catalog(r.0),
{
    match parse_catalog(text) {
        Some(c) => {
            proof {
                lemma_wf_catalog_view(c);
            }
            if check_catalog(&c) {
                (c, false)
            } else {
                (default_catalog(), true)
            }
        },
        None => (default_catalog(), true),
    }
}

/// Writes the catalog back to its persisted text form.
pub fn save_catalog(catalog: &Catalog) -> (out: String)
    ensures
        out@ == enc_catalog(catalog@),
        wf_catalog(*catalog) ==> p_catalog(out@) == Some(catalog@),
{
    proof {
        if wf_catalog(*catalog) {
            lemma_wf_encodable(*catalog);
            lemma_catalog_roundtrip(catalog@);
        }
    }
    encode_catalog(catalog)
}

} // verus!
