//! The catalog's persistent text form: a pretty-printed document of nested
//! arrays and objects with quoted strings, decimal numbers and booleans.
//!
//! This module holds the mathematical model of that form: ghost mirrors of
//! the catalog types, the exact character sequence the writer produces, and
//! a character-level recursive-descent reader.  The reader is strict in the
//! sense the format demands: unknown fields, duplicate fields, missing
//! fields, escapes, and trailing text are all rejected, while field order
//! and whitespace are free.  The executable writer and reader live in
//! `catalog_text`; the round-trip law is proved here.

use vstd::prelude::*;

use crate::level::Operation;
use crate::numbers::{dec_digits, digit_val, digits_val, is_digit};

verus! {

// ---------------------------------------------------------------------------
// Ghost mirrors of the catalog types.
// ---------------------------------------------------------------------------

pub ghost struct GroupModel {
    pub operation: Operation,
    pub speed_milli: nat,
    pub num_ships: nat,
    pub max_number: nat,
    pub min_number: nat,
}

pub ghost struct WaveModel {
    pub groups: Seq<GroupModel>,
}

pub ghost struct LevelModel {
    pub waves: Seq<WaveModel>,
    pub background_file: Seq<char>,
    pub title: Seq<char>,
    pub unlocked: Seq<bool>,
}

pub ghost struct CatalogModel {
    pub levels: Seq<LevelModel>,
}

/// The bounds under which a model can be written and read back: every
/// number fits the machine words the reader accumulates into, every string
/// is made of plain characters, and every unlock array has four entries.
pub open spec fn enc_group_ok(g: GroupModel) -> bool {
    &&& g.speed_milli <= 0xffff_ffff
    &&& g.num_ships <= 0xffff_ffff
    &&& g.max_number <= 0xffff_ffff
    &&& g.min_number <= 0xffff_ffff
}

pub open spec fn enc_level_ok(l: LevelModel) -> bool {
    &&& crate::level::plain_text(l.title)
    &&& crate::level::plain_text(l.background_file)
    &&& l.unlocked.len() == 4
    &&& forall|w: int|
        0 <= w < l.waves.len() ==> (forall|g: int|
            0 <= g < l.waves[w].groups.len() ==> enc_group_ok(
                #[trigger] (#[trigger] l.waves[w]).groups[g],
            ))
}

pub open spec fn enc_catalog_ok(m: CatalogModel) -> bool {
    forall|i: int| 0 <= i < m.levels.len() ==> enc_level_ok(#[trigger] m.levels[i])
}

// ---------------------------------------------------------------------------
// The writer's exact output.
// ---------------------------------------------------------------------------

pub open spec fn spaces(n: nat) -> Seq<char>
    decreases n,
{
    if n == 0 {
        Seq::empty()
    } else {
        spaces((n - 1) as nat).push(' ')
    }
}

/// A newline followed by two spaces per depth level.
pub open spec fn nl_indent(depth: nat) -> Seq<char> {
    seq!['\n'] + spaces(2 * depth)
}

pub open spec fn enc_quoted(s: Seq<char>) -> Seq<char> {
    seq!['"'] + s + seq!['"']
}

/// `"key": ` — a quoted field name, colon, space.
pub open spec fn enc_key(k: Seq<char>) -> Seq<char> {
    enc_quoted(k) + seq![':', ' ']
}

pub open spec fn op_name(op: Operation) -> Seq<char> {
    match op {
        Operation::Add => seq!['A', 'd', 'd'],
        Operation::Subtract => seq!['S', 'u', 'b', 't', 'r', 'a', 'c', 't'],
        Operation::Multiply => seq!['M', 'u', 'l', 't', 'i', 'p', 'l', 'y'],
        Operation::Divide => seq!['D', 'i', 'v', 'i', 'd', 'e'],
    }
}

pub open spec fn enc_bool(b: bool) -> Seq<char> {
    if b {
        seq!['t', 'r', 'u', 'e']
    } else {
        seq!['f', 'a', 'l', 's', 'e']
    }
}

/// The decimal form of a speed in thousandths: the integer part, then a
/// fractional part with trailing zeros dropped, or none when it is whole.
pub open spec fn enc_speed(milli: nat) -> Seq<char> {
    let frac = milli % 1000;
    if frac == 0 {
        dec_digits(milli / 1000)
    } else if frac % 100 == 0 {
        dec_digits(milli / 1000) + seq!['.'] + dec_digits(frac / 100)
    } else if frac % 10 == 0 {
        dec_digits(milli / 1000) + seq!['.', crate::numbers::dec_digit(frac / 100)] + dec_digits(
            (frac / 10) % 10,
        )
    } else {
        dec_digits(milli / 1000) + seq!['.', crate::numbers::dec_digit(frac / 100),
            crate::numbers::dec_digit((frac / 10) % 10)] + dec_digits(frac % 10)
    }
}

/// The five field segments of a written group, one per line.
pub open spec fn group_seg1(g: GroupModel, d: nat) -> Seq<char> {
    nl_indent(d + 1) + enc_quoted(str_operation()) + seq![':', ' '] + enc_quoted(
        op_name(g.operation),
    ) + seq![',']
}

pub open spec fn group_seg2(g: GroupModel, d: nat) -> Seq<char> {
    nl_indent(d + 1) + enc_quoted(str_speed()) + seq![':', ' '] + enc_speed(g.speed_milli)
        + seq![',']
}

pub open spec fn group_seg3(g: GroupModel, d: nat) -> Seq<char> {
    nl_indent(d + 1) + enc_quoted(str_num_ships()) + seq![':', ' '] + dec_digits(g.num_ships)
        + seq![',']
}

pub open spec fn group_seg4(g: GroupModel, d: nat) -> Seq<char> {
    nl_indent(d + 1) + enc_quoted(str_max_number()) + seq![':', ' '] + dec_digits(g.max_number)
        + seq![',']
}

pub open spec fn group_seg5(g: GroupModel, d: nat) -> Seq<char> {
    nl_indent(d + 1) + enc_quoted(str_min_number()) + seq![':', ' '] + dec_digits(g.min_number)
        + nl_indent(d) + seq!['}']
}

pub open spec fn enc_group(g: GroupModel, d: nat) -> Seq<char> {
    seq!['{'] + (group_seg1(g, d) + (group_seg2(g, d) + (group_seg3(g, d) + (group_seg4(g, d)
        + group_seg5(g, d)))))
}

pub open spec fn enc_groups_items(groups: Seq<GroupModel>, d: nat) -> Seq<char>
    decreases groups.len(),
{
    if groups.len() == 0 {
        Seq::empty()
    } else {
        nl_indent(d + 1) + enc_group(groups.first(), d + 1) + (if groups.len() > 1 {
            seq![','] + enc_groups_items(groups.drop_first(), d)
        } else {
            Seq::empty()
        })
    }
}

pub open spec fn enc_groups(groups: Seq<GroupModel>, d: nat) -> Seq<char> {
    if groups.len() == 0 {
        seq!['[', ']']
    } else {
        seq!['['] + enc_groups_items(groups, d) + nl_indent(d) + seq![']']
    }
}

/// The single field segment of a written wave.
pub open spec fn wave_seg(w: WaveModel, d: nat) -> Seq<char> {
    nl_indent(d + 1) + enc_quoted(str_groups()) + seq![':', ' '] + enc_groups(w.groups, d + 1)
        + nl_indent(d) + seq!['}']
}

pub open spec fn enc_wave(w: WaveModel, d: nat) -> Seq<char> {
    seq!['{'] + wave_seg(w, d)
}

pub open spec fn enc_waves_items(waves: Seq<WaveModel>, d: nat) -> Seq<char>
    decreases waves.len(),
{
    if waves.len() == 0 {
        Seq::empty()
    } else {
        nl_indent(d + 1) + enc_wave(waves.first(), d + 1) + (if waves.len() > 1 {
            seq![','] + enc_waves_items(waves.drop_first(), d)
        } else {
            Seq::empty()
        })
    }
}

pub open spec fn enc_waves(waves: Seq<WaveModel>, d: nat) -> Seq<char> {
    if waves.len() == 0 {
        seq!['[', ']']
    } else {
        seq!['['] + enc_waves_items(waves, d) + nl_indent(d) + seq![']']
    }
}

pub open spec fn enc_bools_items(flags: Seq<bool>, d: nat) -> Seq<char>
    decreases flags.len(),
{
    if flags.len() == 0 {
        Seq::empty()
    } else {
        nl_indent(d + 1) + enc_bool(flags.first()) + (if flags.len() > 1 {
            seq![','] + enc_bools_items(flags.drop_first(), d)
        } else {
            Seq::empty()
        })
    }
}

pub open spec fn enc_bools(flags: Seq<bool>, d: nat) -> Seq<char> {
    if flags.len() == 0 {
        seq!['[', ']']
    } else {
        seq!['['] + enc_bools_items(flags, d) + nl_indent(d) + seq![']']
    }
}

/// The four field segments of a written level, one per line.
#[verifier::opaque]
pub open spec fn level_seg1(l: LevelModel, d: nat) -> Seq<char> {
    nl_indent(d + 1) + enc_quoted(str_waves()) + seq![':', ' '] + enc_waves(l.waves, d + 1)
        + seq![',']
}

#[verifier::opaque]
pub open spec fn level_seg2(l: LevelModel, d: nat) -> Seq<char> {
    nl_indent(d + 1) + enc_quoted(str_background_file()) + seq![':', ' '] + enc_quoted(
        l.background_file,
    ) + seq![',']
}

#[verifier::opaque]
pub open spec fn level_seg3(l: LevelModel, d: nat) -> Seq<char> {
    nl_indent(d + 1) + enc_quoted(str_title()) + seq![':', ' '] + enc_quoted(l.title) + seq![',']
}

#[verifier::opaque]
pub open spec fn level_seg4(l: LevelModel, d: nat) -> Seq<char> {
    nl_indent(d + 1) + enc_quoted(str_unlocked()) + seq![':', ' '] + enc_bools(l.unlocked, d + 1)
        + nl_indent(d) + seq!['}']
}

pub open spec fn enc_level(l: LevelModel, d: nat) -> Seq<char> {
    seq!['{'] + (level_seg1(l, d) + (level_seg2(l, d) + (level_seg3(l, d) + level_seg4(l, d))))
}

pub open spec fn enc_levels_items(levels: Seq<LevelModel>, d: nat) -> Seq<char>
    decreases levels.len(),
{
    if levels.len() == 0 {
        Seq::empty()
    } else {
        nl_indent(d + 1) + enc_level(levels.first(), d + 1) + (if levels.len() > 1 {
            seq![','] + enc_levels_items(levels.drop_first(), d)
        } else {
            Seq::empty()
        })
    }
}

/// The whole persisted document for a catalog model.
pub open spec fn enc_catalog(m: CatalogModel) -> Seq<char> {
    if m.levels.len() == 0 {
        seq!['[', ']']
    } else {
        seq!['['] + enc_levels_items(m.levels, 0) + nl_indent(0) + seq![']']
    }
}

// Field-name strings.
pub open spec fn str_operation() -> Seq<char> {
    seq!['o', 'p', 'e', 'r', 'a', 't', 'i', 'o', 'n']
}

pub open spec fn str_speed() -> Seq<char> {
    seq!['s', 'p', 'e', 'e', 'd']
}

pub open spec fn str_num_ships() -> Seq<char> {
    seq!['n', 'u', 'm', '_', 's', 'h', 'i', 'p', 's']
}

pub open spec fn str_max_number() -> Seq<char> {
    seq!['m', 'a', 'x', '_', 'n', 'u', 'm', 'b', 'e', 'r']
}

pub open spec fn str_min_number() -> Seq<char> {
    seq!['m', 'i', 'n', '_', 'n', 'u', 'm', 'b', 'e', 'r']
}

pub open spec fn str_groups() -> Seq<char> {
    seq!['g', 'r', 'o', 'u', 'p', 's']
}

pub open spec fn str_waves() -> Seq<char> {
    seq!['w', 'a', 'v', 'e', 's']
}

pub open spec fn str_background_file() -> Seq<char> {
    seq!['b', 'a', 'c', 'k', 'g', 'r', 'o', 'u', 'n', 'd', '_', 'f', 'i', 'l', 'e']
}

pub open spec fn str_title() -> Seq<char> {
    seq!['t', 'i', 't', 'l', 'e']
}

pub open spec fn str_unlocked() -> Seq<char> {
    seq!['u', 'n', 'l', 'o', 'c', 'k', 'e', 'd']
}

// ---------------------------------------------------------------------------
// The reader.  Each parser takes a position and yields the parsed value and
// the number of characters consumed (leading whitespace included), or
// nothing when the text does not match.
// ---------------------------------------------------------------------------

pub open spec fn is_ws(c: char) -> bool {
    c == ' ' || c == '\n' || c == '\t' || c == '\r'
}

/// How many whitespace characters stand at position `i`.
pub open spec fn ws_len(s: Seq<char>, i: int) -> nat
    decreases s.len() - i,
{
    if 0 <= i < s.len() && is_ws(s[i]) {
        1 + ws_len(s, i + 1)
    } else {
        0
    }
}

/// How many decimal digits stand at position `i`.
pub open spec fn digits_len(s: Seq<char>, i: int) -> nat
    decreases s.len() - i,
{
    if 0 <= i < s.len() && is_digit(s[i]) {
        1 + digits_len(s, i + 1)
    } else {
        0
    }
}

/// How many plain string-content characters stand at position `i`; a quote
/// or any character that would need escaping ends the content.
pub open spec fn content_len(s: Seq<char>, i: int) -> nat
    decreases s.len() - i,
{
    if 0 <= i < s.len() && crate::level::plain_char(s[i]) {
        1 + content_len(s, i + 1)
    } else {
        0
    }
}

/// The literal `t` stands at position `i`.
pub open spec fn lit_at(s: Seq<char>, i: int, t: Seq<char>) -> bool {
    0 <= i && i + t.len() <= s.len() && s.subrange(i, i + t.len()) == t
}

/// One punctuation character after whitespace.
pub open spec fn p_punct(s: Seq<char>, i: int, c: char) -> Option<nat> {
    let k = ws_len(s, i);
    if 0 <= i && i + k < s.len() && s[i + k] == c {
        Some((k + 1) as nat)
    } else {
        None
    }
}

/// A quoted string of plain characters after whitespace; escapes are not
/// accepted.
pub open spec fn p_string(s: Seq<char>, i: int) -> Option<(Seq<char>, nat)> {
    let k = ws_len(s, i);
    let q = i + k;
    if 0 <= i && q < s.len() && s[q] == '"' {
        let m = content_len(s, q + 1);
        if q + 1 + m < s.len() && s[q + 1 + m] == '"' {
            Some((s.subrange(q + 1, q + 1 + m), (k + m + 2) as nat))
        } else {
            None
        }
    } else {
        None
    }
}

/// An unsigned decimal number after whitespace, within the 32-bit range.
pub open spec fn p_nat(s: Seq<char>, i: int) -> Option<(nat, nat)> {
    let k = ws_len(s, i);
    let j = i + k;
    let m = digits_len(s, j);
    if 0 <= i && m >= 1 {
        let v = digits_val(s.subrange(j, j + m));
        if v <= 0xffff_ffff {
            Some((v, (k + m) as nat))
        } else {
            None
        }
    } else {
        None
    }
}

/// A speed in thousandths: an integer part and at most three fractional
/// digits directly after a point.
pub open spec fn p_speed(s: Seq<char>, i: int) -> Option<(nat, nat)> {
    match p_nat(s, i) {
        Some((ip, k1)) => {
            if i + k1 < s.len() && s[i + k1] == '.' {
                let j = i + k1 + 1;
                let fm = digits_len(s, j);
                if 1 <= fm <= 3 {
                    let frac = digits_val(s.subrange(j, j + fm));
                    let frac3 = if fm == 1 {
                        frac * 100
                    } else if fm == 2 {
                        frac * 10
                    } else {
                        frac
                    };
                    let milli = ip * 1000 + frac3;
                    if milli <= 0xffff_ffff {
                        Some((milli, (k1 + 1 + fm) as nat))
                    } else {
                        None
                    }
                } else {
                    None
                }
            } else {
                if ip * 1000 <= 0xffff_ffff {
                    Some((ip * 1000, k1))
                } else {
                    None
                }
            }
        },
        None => None,
    }
}

/// `true` or `false` after whitespace.
pub open spec fn p_bool(s: Seq<char>, i: int) -> Option<(bool, nat)> {
    let k = ws_len(s, i);
    if 0 <= i && lit_at(s, i + k, enc_bool(true)) {
        Some((true, (k + 4) as nat))
    } else if 0 <= i && lit_at(s, i + k, enc_bool(false)) {
        Some((false, (k + 5) as nat))
    } else {
        None
    }
}

/// A quoted operation name.
pub open spec fn p_op(s: Seq<char>, i: int) -> Option<(Operation, nat)> {
    match p_string(s, i) {
        Some((name, k)) => {
            if name == op_name(Operation::Add) {
                Some((Operation::Add, k))
            } else if name == op_name(Operation::Subtract) {
                Some((Operation::Subtract, k))
            } else if name == op_name(Operation::Multiply) {
                Some((Operation::Multiply, k))
            } else if name == op_name(Operation::Divide) {
                Some((Operation::Divide, k))
            } else {
                None
            }
        },
        None => None,
    }
}

/// The unlock array: exactly four booleans.
pub open spec fn p_unlocked(s: Seq<char>, i: int) -> Option<(Seq<bool>, nat)> {
    match p_punct(s, i, '[') {
        Some(k0) => match p_bool(s, i + k0) {
            Some((b0, k1)) => match p_punct(s, i + k0 + k1, ',') {
                Some(k2) => match p_bool(s, i + k0 + k1 + k2) {
                    Some((b1, k3)) => match p_punct(s, i + k0 + k1 + k2 + k3, ',') {
                        Some(k4) => match p_bool(s, i + k0 + k1 + k2 + k3 + k4) {
                            Some((b2, k5)) => match p_punct(s, i + k0 + k1 + k2 + k3 + k4 + k5, ',') {
                                Some(k6) => match p_bool(s, i + k0 + k1 + k2 + k3 + k4 + k5 + k6) {
                                    Some((b3, k7)) => match p_punct(
                                        s,
                                        i + k0 + k1 + k2 + k3 + k4 + k5 + k6 + k7,
                                        ']',
                                    ) {
                                        Some(k8) => Some(
                                            (
                                                seq![b0, b1, b2, b3],
                                                (k0 + k1 + k2 + k3 + k4 + k5 + k6 + k7 + k8) as nat,
                                            ),
                                        ),
                                        None => None,
                                    },
                                    None => None,
                                },
                                None => None,
                            },
                            None => None,
                        },
                        None => None,
                    },
                    None => None,
                },
                None => None,
            },
            None => None,
        },
        None => None,
    }
}

/// The partially gathered fields of a group object.
pub ghost struct GroupAcc {
    pub operation: Option<Operation>,
    pub speed_milli: Option<nat>,
    pub num_ships: Option<nat>,
    pub max_number: Option<nat>,
    pub min_number: Option<nat>,
}

pub open spec fn group_acc_empty() -> GroupAcc {
    GroupAcc {
        operation: None,
        speed_milli: None,
        num_ships: None,
        max_number: None,
        min_number: None,
    }
}

/// One `"key": value` pair of a group object: the value parsed by the
/// key's type, rejected when the key is unknown or already set.
pub open spec fn p_group_entry(s: Seq<char>, i: int, acc: GroupAcc) -> Option<(GroupAcc, nat)> {
    match p_string(s, i) {
        Some((key, k1)) => match p_punct(s, i + k1, ':') {
            Some(k2) => {
                let j = i + k1 + k2;
                if key == str_operation() && acc.operation is None {
                    match p_op(s, j) {
                        Some((v, k3)) => Some(
                            (GroupAcc { operation: Some(v), ..acc }, (k1 + k2 + k3) as nat),
                        ),
                        None => None,
                    }
                } else if key == str_speed() && acc.speed_milli is None {
                    match p_speed(s, j) {
                        Some((v, k3)) => Some(
                            (GroupAcc { speed_milli: Some(v), ..acc }, (k1 + k2 + k3) as nat),
                        ),
                        None => None,
                    }
                } else if key == str_num_ships() && acc.num_ships is None {
                    match p_nat(s, j) {
                        Some((v, k3)) => Some(
                            (GroupAcc { num_ships: Some(v), ..acc }, (k1 + k2 + k3) as nat),
                        ),
                        None => None,
                    }
                } else if key == str_max_number() && acc.max_number is None {
                    match p_nat(s, j) {
                        Some((v, k3)) => Some(
                            (GroupAcc { max_number: Some(v), ..acc }, (k1 + k2 + k3) as nat),
                        ),
                        None => None,
                    }
                } else if key == str_min_number() && acc.min_number is None {
                    match p_nat(s, j) {
                        Some((v, k3)) => Some(
                            (GroupAcc { min_number: Some(v), ..acc }, (k1 + k2 + k3) as nat),
                        ),
                        None => None,
                    }
                } else {
                    None
                }
            },
            None => None,
        },
        None => None,
    }
}

/// The fields of a group object, in any order, each exactly once.
pub open spec fn p_group_fields(s: Seq<char>, i: int, acc: GroupAcc) -> Option<(GroupModel, nat)>
    decreases s.len() - i,
{
    match p_group_entry(s, i, acc) {
        Some((acc2, k1)) => match p_punct(s, i + k1, ',') {
            Some(k2) => {
                if k1 + k2 < 1 || i + k1 + k2 > s.len() {
                    None
                } else {
                    match p_group_fields(s, i + k1 + k2, acc2) {
                        Some((g, k3)) => Some((g, (k1 + k2 + k3) as nat)),
                        None => None,
                    }
                }
            },
            None => match p_punct(s, i + k1, '}') {
                Some(k2) => {
                    if acc2.operation is Some && acc2.speed_milli is Some && acc2.num_ships is Some
                        && acc2.max_number is Some && acc2.min_number is Some {
                        Some(
                            (
                                GroupModel {
                                    operation: acc2.operation->0,
                                    speed_milli: acc2.speed_milli->0,
                                    num_ships: acc2.num_ships->0,
                                    max_number: acc2.max_number->0,
                                    min_number: acc2.min_number->0,
                                },
                                (k1 + k2) as nat,
                            ),
                        )
                    } else {
                        None
                    }
                },
                None => None,
            },
        },
        None => None,
    }
}

pub open spec fn p_group(s: Seq<char>, i: int) -> Option<(GroupModel, nat)> {
    match p_punct(s, i, '{') {
        Some(k0) => match p_group_fields(s, i + k0, group_acc_empty()) {
            Some((g, k1)) => Some((g, (k0 + k1) as nat)),
            None => None,
        },
        None => None,
    }
}

pub open spec fn p_groups_items(s: Seq<char>, i: int) -> Option<(Seq<GroupModel>, nat)>
    decreases s.len() - i,
{
    match p_group(s, i) {
        Some((g, k1)) => match p_punct(s, i + k1, ',') {
            Some(k2) => {
                if k1 + k2 < 1 || i + k1 + k2 > s.len() {
                    None
                } else {
                    match p_groups_items(s, i + k1 + k2, ) {
                        Some((gs, k3)) => Some((seq![g] + gs, (k1 + k2 + k3) as nat)),
                        None => None,
                    }
                }
            },
            None => Some((seq![g], k1)),
        },
        None => None,
    }
}

pub open spec fn p_groups(s: Seq<char>, i: int) -> Option<(Seq<GroupModel>, nat)> {
    match p_punct(s, i, '[') {
        Some(k0) => match p_punct(s, i + k0, ']') {
            Some(k1) => Some((Seq::empty(), (k0 + k1) as nat)),
            None => match p_groups_items(s, i + k0) {
                Some((gs, k1)) => match p_punct(s, i + k0 + k1, ']') {
                    Some(k2) => Some((gs, (k0 + k1 + k2) as nat)),
                    None => None,
                },
                None => None,
            },
        },
        None => None,
    }
}

/// The single field of a wave object.
pub open spec fn p_wave_fields(s: Seq<char>, i: int) -> Option<(WaveModel, nat)> {
    match p_string(s, i) {
        Some((key, k1)) => match p_punct(s, i + k1, ':') {
            Some(k2) => {
                if key == str_groups() {
                    match p_groups(s, i + k1 + k2) {
                        Some((gs, k3)) => match p_punct(s, i + k1 + k2 + k3, '}') {
                            Some(k4) => Some(
                                (WaveModel { groups: gs }, (k1 + k2 + k3 + k4) as nat),
                            ),
                            None => None,
                        },
                        None => None,
                    }
                } else {
                    None
                }
            },
            None => None,
        },
        None => None,
    }
}

pub open spec fn p_wave(s: Seq<char>, i: int) -> Option<(WaveModel, nat)> {
    match p_punct(s, i, '{') {
        Some(k0) => match p_wave_fields(s, i + k0) {
            Some((w, k1)) => Some((w, (k0 + k1) as nat)),
            None => None,
        },
        None => None,
    }
}

pub open spec fn p_waves_items(s: Seq<char>, i: int) -> Option<(Seq<WaveModel>, nat)>
    decreases s.len() - i,
{
    match p_wave(s, i) {
        Some((w, k1)) => match p_punct(s, i + k1, ',') {
            Some(k2) => {
                if k1 + k2 < 1 || i + k1 + k2 > s.len() {
                    None
                } else {
                    match p_waves_items(s, i + k1 + k2) {
                        Some((ws, k3)) => Some((seq![w] + ws, (k1 + k2 + k3) as nat)),
                        None => None,
                    }
                }
            },
            None => Some((seq![w], k1)),
        },
        None => None,
    }
}

pub open spec fn p_waves(s: Seq<char>, i: int) -> Option<(Seq<WaveModel>, nat)> {
    match p_punct(s, i, '[') {
        Some(k0) => match p_punct(s, i + k0, ']') {
            Some(k1) => Some((Seq::empty(), (k0 + k1) as nat)),
            None => match p_waves_items(s, i + k0) {
                Some((ws, k1)) => match p_punct(s, i + k0 + k1, ']') {
                    Some(k2) => Some((ws, (k0 + k1 + k2) as nat)),
                    None => None,
                },
                None => None,
            },
        },
        None => None,
    }
}

/// The partially gathered fields of a level object.
pub ghost struct LevelAcc {
    pub waves: Option<Seq<WaveModel>>,
    pub background_file: Option<Seq<char>>,
    pub title: Option<Seq<char>>,
    pub unlocked: Option<Seq<bool>>,
}

pub open spec fn level_acc_empty() -> LevelAcc {
    LevelAcc { waves: None, background_file: None, title: None, unlocked: None }
}

/// One `"key": value` pair of a level object.
pub open spec fn p_level_entry(s: Seq<char>, i: int, acc: LevelAcc) -> Option<(LevelAcc, nat)> {
    match p_string(s, i) {
        Some((key, k1)) => match p_punct(s, i + k1, ':') {
            Some(k2) => {
                let j = i + k1 + k2;
                if key == str_waves() && acc.waves is None {
                    match p_waves(s, j) {
                        Some((v, k3)) => Some(
                            (LevelAcc { waves: Some(v), ..acc }, (k1 + k2 + k3) as nat),
                        ),
                        None => None,
                    }
                } else if key == str_background_file() && acc.background_file is None {
                    match p_string(s, j) {
                        Some((v, k3)) => Some(
                            (LevelAcc { background_file: Some(v), ..acc }, (k1 + k2 + k3) as nat),
                        ),
                        None => None,
                    }
                } else if key == str_title() && acc.title is None {
                    match p_string(s, j) {
                        Some((v, k3)) => Some(
                            (LevelAcc { title: Some(v), ..acc }, (k1 + k2 + k3) as nat),
                        ),
                        None => None,
                    }
                } else if key == str_unlocked() && acc.unlocked is None {
                    match p_unlocked(s, j) {
                        Some((v, k3)) => Some(
                            (LevelAcc { unlocked: Some(v), ..acc }, (k1 + k2 + k3) as nat),
                        ),
                        None => None,
                    }
                } else {
                    None
                }
            },
            None => None,
        },
        None => None,
    }
}

/// The fields of a level object, in any order, each exactly once.
pub open spec fn p_level_fields(s: Seq<char>, i: int, acc: LevelAcc) -> Option<(LevelModel, nat)>
    decreases s.len() - i,
{
    match p_level_entry(s, i, acc) {
        Some((acc2, k1)) => match p_punct(s, i + k1, ',') {
            Some(k2) => {
                if k1 + k2 < 1 || i + k1 + k2 > s.len() {
                    None
                } else {
                    match p_level_fields(s, i + k1 + k2, acc2) {
                        Some((l, k3)) => Some((l, (k1 + k2 + k3) as nat)),
                        None => None,
                    }
                }
            },
            None => match p_punct(s, i + k1, '}') {
                Some(k2) => {
                    if acc2.waves is Some && acc2.background_file is Some && acc2.title is Some
                        && acc2.unlocked is Some {
                        Some(
                            (
                                LevelModel {
                                    waves: acc2.waves->0,
                                    background_file: acc2.background_file->0,
                                    title: acc2.title->0,
                                    unlocked: acc2.unlocked->0,
                                },
                                (k1 + k2) as nat,
                            ),
                        )
                    } else {
                        None
                    }
                },
                None => None,
            },
        },
        None => None,
    }
}

pub open spec fn p_level(s: Seq<char>, i: int) -> Option<(LevelModel, nat)> {
    match p_punct(s, i, '{') {
        Some(k0) => match p_level_fields(s, i + k0, level_acc_empty()) {
            Some((l, k1)) => Some((l, (k0 + k1) as nat)),
            None => None,
        },
        None => None,
    }
}

pub open spec fn p_levels_items(s: Seq<char>, i: int) -> Option<(Seq<LevelModel>, nat)>
    decreases s.len() - i,
{
    match p_level(s, i) {
        Some((l, k1)) => match p_punct(s, i + k1, ',') {
            Some(k2) => {
                if k1 + k2 < 1 || i + k1 + k2 > s.len() {
                    None
                } else {
                    match p_levels_items(s, i + k1 + k2) {
                        Some((ls, k3)) => Some((seq![l] + ls, (k1 + k2 + k3) as nat)),
                        None => None,
                    }
                }
            },
            None => Some((seq![l], k1)),
        },
        None => None,
    }
}

/// The whole document: one array of levels and nothing after it but
/// whitespace.
pub open spec fn p_catalog(s: Seq<char>) -> Option<CatalogModel> {
    match p_punct(s, 0, '[') {
        Some(k0) => match p_punct(s, k0 as int, ']') {
            Some(k1) => {
                let end = k0 + k1;
                if end + ws_len(s, end as int) == s.len() {
                    Some(CatalogModel { levels: Seq::empty() })
                } else {
                    None
                }
            },
            None => match p_levels_items(s, k0 as int) {
                Some((ls, k1)) => match p_punct(s, k0 + k1 as int, ']') {
                    Some(k2) => {
                        let end = k0 + k1 + k2;
                        if end + ws_len(s, end as int) == s.len() {
                            Some(CatalogModel { levels: ls })
                        } else {
                            None
                        }
                    },
                    None => None,
                },
                None => None,
            },
        },
        None => None,
    }
}

} // verus!
