//! The executable writer and reader for the persisted catalog document,
//! each proved to produce exactly what the mathematical writer and reader
//! of `json` describe.

use vstd::prelude::*;

use crate::json::{
    enc_bool, enc_bools, enc_bools_items, enc_catalog, enc_group, enc_groups, enc_groups_items,
    enc_key, enc_level, enc_levels_items, enc_quoted, enc_speed, enc_wave, enc_waves,
    enc_waves_items, nl_indent, op_name, spaces, str_background_file, str_groups, str_max_number,
    str_min_number, str_num_ships, str_operation, str_speed, str_title, str_unlocked, str_waves,
    CatalogModel, GroupModel, LevelModel, WaveModel,
};
use crate::level::{plain_text, Catalog, Level, Operation, Wave, WaveGroup};
use crate::numbers::{dec_digits, u32_to_string};

verus! {

impl View for WaveGroup {
    type V = GroupModel;

    open spec fn view(&self) -> GroupModel {
        GroupModel {
            operation: self.operation,
            speed_milli: self.speed_milli as nat,
            num_ships: self.num_ships as nat,
            max_number: self.max_number as nat,
            min_number: self.min_number as nat,
        }
    }
}

impl View for Wave {
    type V = WaveModel;

    open spec fn view(&self) -> WaveModel {
        WaveModel { groups: self.groups@.map_values(|g: WaveGroup| g@) }
    }
}

impl View for Level {
    type V = LevelModel;

    open spec fn view(&self) -> LevelModel {
        LevelModel {
            waves: self.waves@.map_values(|w: Wave| w@),
            background_file: self.background_file@,
            title: self.title@,
            unlocked: self.unlocked@,
        }
    }
}

impl View for Catalog {
    type V = CatalogModel;

    open spec fn view(&self) -> CatalogModel {
        CatalogModel { levels: self.levels@.map_values(|l: Level| l@) }
    }
}

/// Two spaces of indentation per depth level.
fn push_nl_indent(out: &mut String, d: usize)
    requires
        d <= 8,
    ensures
        final(out)@ == old(out)@ + nl_indent(d as nat),
{
    proof {
        reveal_strlit("\n");
        reveal_strlit("  ");
        assert("\n"@ =~= seq!['\n']);
        assert("  "@ =~= seq![' ', ' ']);
    }
    out.append("\n");
    let mut k: usize = 0;
    while k < d
        invariant
            k <= d,
            out@ == old(out)@ + seq!['\n'] + spaces(2 * k as nat),
        decreases d - k,
    {
        out.append("  ");
        proof {
            reveal_strlit("  ");
            assert("  "@ =~= seq![' ', ' ']);
            let n = 2 * k as nat;
            assert(spaces((n + 1) as nat) =~= spaces(n).push(' '));
            assert(spaces((n + 2) as nat) =~= spaces((n + 1) as nat).push(' '));
            assert(out@ =~= old(out)@ + seq!['\n'] + spaces((n + 2) as nat));
        }
        k = k + 1;
    }
    proof {
        assert(out@ =~= old(out)@ + nl_indent(d as nat));
    }
}

/// `"key": ` for a field name already known to match its model string.
fn push_key(out: &mut String, key: &str)
    ensures
        final(out)@ == old(out)@ + enc_key(key@),
{
    proof {
        reveal_strlit("\"");
        reveal_strlit(": ");
        assert("\""@ =~= seq!['"']);
        assert(": "@ =~= seq![':', ' ']);
    }
    out.append("\"");
    out.append(key);
    out.append("\"");
    out.append(": ");
    proof {
        assert(out@ =~= old(out)@ + enc_key(key@));
    }
}

fn push_quoted(out: &mut String, text: &str)
    ensures
        final(out)@ == old(out)@ + enc_quoted(text@),
{
    proof {
        reveal_strlit("\"");
        assert("\""@ =~= seq!['"']);
    }
    out.append("\"");
    out.append(text);
    out.append("\"");
    proof {
        assert(out@ =~= old(out)@ + enc_quoted(text@));
    }
}

fn push_bool(out: &mut String, b: bool)
    ensures
        final(out)@ == old(out)@ + enc_bool(b),
{
    proof {
        reveal_strlit("true");
        reveal_strlit("false");
        assert("true"@ =~= seq!['t', 'r', 'u', 'e']);
        assert("false"@ =~= seq!['f', 'a', 'l', 's', 'e']);
    }
    if b {
        out.append("true");
    } else {
        out.append("false");
    }
}

/// The decimal rendering of a speed in thousandths.
fn push_speed(out: &mut String, milli: u32)
    ensures
        final(out)@ == old(out)@ + enc_speed(milli as nat),
{
    proof {
        reveal_strlit(".");
        assert("."@ =~= seq!['.']);
    }
    let ip = milli / 1000;
    let frac = milli % 1000;
    let s = u32_to_string(ip);
    out.append(s.as_str());
    if frac == 0 {
    } else if frac % 100 == 0 {
        out.append(".");
        let f = u32_to_string(frac / 100);
        out.append(f.as_str());
        proof {
            assert(dec_digits((frac / 100) as nat).len() == 1) by {
                assert(frac / 100 < 10);
            }
            assert(out@ =~= old(out)@ + enc_speed(milli as nat));
        }
    } else if frac % 10 == 0 {
        out.append(".");
        let d1 = u32_to_string(frac / 100);
        out.append(d1.as_str());
        let d2 = u32_to_string((frac / 10) % 10);
        out.append(d2.as_str());
        proof {
            assert(dec_digits((frac / 100) as nat) =~= seq![
                crate::numbers::dec_digit((frac / 100) as nat),
            ]);
            assert(out@ =~= old(out)@ + enc_speed(milli as nat));
        }
    } else {
        out.append(".");
        let d1 = u32_to_string(frac / 100);
        out.append(d1.as_str());
        let d2 = u32_to_string((frac / 10) % 10);
        out.append(d2.as_str());
        let d3 = u32_to_string(frac % 10);
        out.append(d3.as_str());
        proof {
            assert(dec_digits((frac / 100) as nat) =~= seq![
                crate::numbers::dec_digit((frac / 100) as nat),
            ]);
            assert(dec_digits(((frac / 10) % 10) as nat) =~= seq![
                crate::numbers::dec_digit(((frac / 10) % 10) as nat),
            ]);
            assert(out@ =~= old(out)@ + enc_speed(milli as nat));
        }
    }
}

fn push_op_name(out: &mut String, op: Operation)
    ensures
        final(out)@ == old(out)@ + enc_quoted(op_name(op)),
{
    proof {
        reveal_strlit("Add");
        reveal_strlit("Subtract");
        reveal_strlit("Multiply");
        reveal_strlit("Divide");
        assert("Add"@ =~= op_name(Operation::Add));
        assert("Subtract"@ =~= op_name(Operation::Subtract));
        assert("Multiply"@ =~= op_name(Operation::Multiply));
        assert("Divide"@ =~= op_name(Operation::Divide));
    }
    match op {
        Operation::Add => push_quoted(out, "Add"),
        Operation::Subtract => push_quoted(out, "Subtract"),
        Operation::Multiply => push_quoted(out, "Multiply"),
        Operation::Divide => push_quoted(out, "Divide"),
    }
}

#[verifier::rlimit(100)]
fn push_group(out: &mut String, g: &WaveGroup, d: usize)
    requires
        d <= 6,
    ensures
        final(out)@ == old(out)@ + enc_group(g@, d as nat),
{
    proof {
        reveal_strlit("{");
        reveal_strlit("}");
        reveal_strlit(",");
        reveal_strlit("operation");
        reveal_strlit("speed");
        reveal_strlit("num_ships");
        reveal_strlit("max_number");
        reveal_strlit("min_number");
        assert("{"@ =~= seq!['{']);
        assert("}"@ =~= seq!['}']);
        assert(","@ =~= seq![',']);
        assert("operation"@ =~= str_operation());
        assert("speed"@ =~= str_speed());
        assert("num_ships"@ =~= str_num_ships());
        assert("max_number"@ =~= str_max_number());
        assert("min_number"@ =~= str_min_number());
    }
    out.append("{");
    push_nl_indent(out, d + 1);
    push_key(out, "operation");
    push_op_name(out, g.operation);
    out.append(",");
    proof {
        assert(out@ =~= old(out)@ + seq!['{'] + crate::json::group_seg1(g@, d as nat));
    }
    push_nl_indent(out, d + 1);
    push_key(out, "speed");
    push_speed(out, g.speed_milli);
    out.append(",");
    proof {
        assert(out@ =~= old(out)@ + seq!['{'] + crate::json::group_seg1(g@, d as nat)
            + crate::json::group_seg2(g@, d as nat));
    }
    push_nl_indent(out, d + 1);
    push_key(out, "num_ships");
    let ships = u32_to_string(g.num_ships);
    out.append(ships.as_str());
    out.append(",");
    proof {
        assert(out@ =~= old(out)@ + seq!['{'] + crate::json::group_seg1(g@, d as nat)
            + crate::json::group_seg2(g@, d as nat) + crate::json::group_seg3(g@, d as nat));
    }
    push_nl_indent(out, d + 1);
    push_key(out, "max_number");
    let maxn = u32_to_string(g.max_number);
    out.append(maxn.as_str());
    out.append(",");
    proof {
        assert(out@ =~= old(out)@ + seq!['{'] + crate::json::group_seg1(g@, d as nat)
            + crate::json::group_seg2(g@, d as nat) + crate::json::group_seg3(g@, d as nat)
            + crate::json::group_seg4(g@, d as nat));
    }
    push_nl_indent(out, d + 1);
    push_key(out, "min_number");
    let minn = u32_to_string(g.min_number);
    out.append(minn.as_str());
    push_nl_indent(out, d);
    out.append("}");
    proof {
        assert(out@ =~= old(out)@ + seq!['{'] + crate::json::group_seg1(g@, d as nat)
            + crate::json::group_seg2(g@, d as nat) + crate::json::group_seg3(g@, d as nat)
            + crate::json::group_seg4(g@, d as nat) + crate::json::group_seg5(g@, d as nat));
        assert(out@ =~= old(out)@ + enc_group(g@, d as nat));
    }
}

fn push_groups(out: &mut String, groups: &Vec<WaveGroup>, d: usize)
    requires
        d <= 5,
    ensures
        final(out)@ == old(out)@ + enc_groups(groups@.map_values(|g: WaveGroup| g@), d as nat),
{
    proof {
        reveal_strlit("[");
        reveal_strlit("]");
        reveal_strlit("[]");
        reveal_strlit(",");
        assert("["@ =~= seq!['[']);
        assert("]"@ =~= seq![']']);
        assert("[]"@ =~= seq!['[', ']']);
        assert(","@ =~= seq![',']);
    }
    let n = groups.len();
    if n == 0 {
        out.append("[]");
        proof {
            assert(groups@.map_values(|g: WaveGroup| g@).len() == 0);
            assert(out@ =~= old(out)@ + enc_groups(groups@.map_values(|g: WaveGroup| g@), d as nat));
        }
        return ;
    }
    out.append("[");
    push_groups_items(out, groups, 0, d);
    push_nl_indent(out, d);
    out.append("]");
    proof {
        assert(groups@.map_values(|g: WaveGroup| g@).skip(0) =~= groups@.map_values(
            |g: WaveGroup| g@,
        ));
        assert(out@ =~= old(out)@ + enc_groups(groups@.map_values(|g: WaveGroup| g@), d as nat));
    }
}

#[verifier::rlimit(100)]
fn push_groups_items(out: &mut String, groups: &Vec<WaveGroup>, j: usize, d: usize)
    requires
        j < groups@.len(),
        d <= 5,
    ensures
        final(out)@ == old(out)@ + enc_groups_items(
            groups@.map_values(|g: WaveGroup| g@).skip(j as int),
            d as nat,
        ),
    decreases groups@.len() - j,
{
    proof {
        reveal_strlit(",");
        assert(","@ =~= seq![',']);
    }
    let n = groups.len();
    push_nl_indent(out, d + 1);
    push_group(out, &groups[j], d + 1);
    let ghost ms = groups@.map_values(|g: WaveGroup| g@).skip(j as int);
    proof {
        assert(ms.first() == groups@[j as int]@);
    }
    if j + 1 < n {
        out.append(",");
        push_groups_items(out, groups, j + 1, d);
        proof {
            assert(ms.drop_first() =~= groups@.map_values(|g: WaveGroup| g@).skip(j + 1));
            assert(out@ =~= old(out)@ + enc_groups_items(ms, d as nat));
        }
    } else {
        proof {
            assert(ms.len() == 1);
            assert(out@ =~= old(out)@ + enc_groups_items(ms, d as nat));
        }
    }
}

#[verifier::rlimit(100)]
fn push_wave(out: &mut String, w: &Wave, d: usize)
    requires
        d <= 4,
    ensures
        final(out)@ == old(out)@ + enc_wave(w@, d as nat),
{
    proof {
        reveal_strlit("{");
        reveal_strlit("}");
        reveal_strlit("groups");
        assert("{"@ =~= seq!['{']);
        assert("}"@ =~= seq!['}']);
        assert("groups"@ =~= str_groups());
    }
    out.append("{");
    push_nl_indent(out, d + 1);
    push_key(out, "groups");
    push_groups(out, &w.groups, d + 1);
    push_nl_indent(out, d);
    out.append("}");
    proof {
        assert(out@ =~= old(out)@ + enc_wave(w@, d as nat));
    }
}

#[verifier::rlimit(100)]
fn push_waves_items(out: &mut String, waves: &Vec<Wave>, j: usize, d: usize)
    requires
        j < waves@.len(),
        d <= 3,
    ensures
        final(out)@ == old(out)@ + enc_waves_items(
            waves@.map_values(|w: Wave| w@).skip(j as int),
            d as nat,
        ),
    decreases waves@.len() - j,
{
    proof {
        reveal_strlit(",");
        assert(","@ =~= seq![',']);
    }
    let n = waves.len();
    push_nl_indent(out, d + 1);
    push_wave(out, &waves[j], d + 1);
    let ghost ms = waves@.map_values(|w: Wave| w@).skip(j as int);
    proof {
        assert(ms.first() == waves@[j as int]@);
    }
    if j + 1 < n {
        out.append(",");
        push_waves_items(out, waves, j + 1, d);
        proof {
            assert(ms.drop_first() =~= waves@.map_values(|w: Wave| w@).skip(j + 1));
            assert(out@ =~= old(out)@ + enc_waves_items(ms, d as nat));
        }
    } else {
        proof {
            assert(ms.len() == 1);
            assert(out@ =~= old(out)@ + enc_waves_items(ms, d as nat));
        }
    }
}

#[verifier::rlimit(100)]
fn push_waves(out: &mut String, waves: &Vec<Wave>, d: usize)
    requires
        d <= 3,
    ensures
        final(out)@ == old(out)@ + enc_waves(waves@.map_values(|w: Wave| w@), d as nat),
{
    proof {
        reveal_strlit("[");
        reveal_strlit("]");
        reveal_strlit("[]");
        assert("["@ =~= seq!['[']);
        assert("]"@ =~= seq![']']);
        assert("[]"@ =~= seq!['[', ']']);
    }
    let n = waves.len();
    if n == 0 {
        out.append("[]");
        proof {
            assert(waves@.map_values(|w: Wave| w@).len() == 0);
            assert(out@ =~= old(out)@ + enc_waves(waves@.map_values(|w: Wave| w@), d as nat));
        }
        return ;
    }
    out.append("[");
    push_waves_items(out, waves, 0, d);
    push_nl_indent(out, d);
    out.append("]");
    proof {
        assert(waves@.map_values(|w: Wave| w@).skip(0) =~= waves@.map_values(|w: Wave| w@));
        assert(out@ =~= old(out)@ + enc_waves(waves@.map_values(|w: Wave| w@), d as nat));
    }
}

#[verifier::rlimit(100)]
fn push_bools_items(out: &mut String, flags: &Vec<bool>, j: usize, d: usize)
    requires
        j < flags@.len(),
        d <= 4,
    ensures
        final(out)@ == old(out)@ + enc_bools_items(flags@.skip(j as int), d as nat),
    decreases flags@.len() - j,
{
    proof {
        reveal_strlit(",");
        assert(","@ =~= seq![',']);
    }
    let n = flags.len();
    push_nl_indent(out, d + 1);
    push_bool(out, flags[j]);
    let ghost ms = flags@.skip(j as int);
    if j + 1 < n {
        out.append(",");
        push_bools_items(out, flags, j + 1, d);
        proof {
            assert(ms.drop_first() =~= flags@.skip(j + 1));
            assert(out@ =~= old(out)@ + enc_bools_items(ms, d as nat));
        }
    } else {
        proof {
            assert(ms.len() == 1);
            assert(out@ =~= old(out)@ + enc_bools_items(ms, d as nat));
        }
    }
}

#[verifier::rlimit(100)]
fn push_bools(out: &mut String, flags: &Vec<bool>, d: usize)
    requires
        d <= 4,
    ensures
        final(out)@ == old(out)@ + enc_bools(flags@, d as nat),
{
    proof {
        reveal_strlit("[");
        reveal_strlit("]");
        reveal_strlit("[]");
        assert("["@ =~= seq!['[']);
        assert("]"@ =~= seq![']']);
        assert("[]"@ =~= seq!['[', ']']);
    }
    let n = flags.len();
    if n == 0 {
        out.append("[]");
        proof {
            assert(out@ =~= old(out)@ + enc_bools(flags@, d as nat));
        }
        return ;
    }
    out.append("[");
    push_bools_items(out, flags, 0, d);
    push_nl_indent(out, d);
    out.append("]");
    proof {
        assert(flags@.skip(0) =~= flags@);
        assert(out@ =~= old(out)@ + enc_bools(flags@, d as nat));
    }
}

#[verifier::rlimit(100)]
fn push_level(out: &mut String, l: &Level, d: usize)
    requires
        d <= 2,
    ensures
        final(out)@ == old(out)@ + enc_level(l@, d as nat),
{
    proof {
        reveal_strlit("{");
        reveal_strlit("}");
        reveal_strlit(",");
        reveal_strlit("waves");
        reveal_strlit("background_file");
        reveal_strlit("title");
        reveal_strlit("unlocked");
        assert("{"@ =~= seq!['{']);
        assert("}"@ =~= seq!['}']);
        assert(","@ =~= seq![',']);
        assert("waves"@ =~= str_waves());
        assert("background_file"@ =~= str_background_file());
        assert("title"@ =~= str_title());
        assert("unlocked"@ =~= str_unlocked());
    }
    out.append("{");
    push_nl_indent(out, d + 1);
    push_key(out, "waves");
    push_waves(out, &l.waves, d + 1);
    out.append(",");
    proof {
        reveal(crate::json::level_seg1);
        assert(out@ =~= old(out)@ + seq!['{'] + crate::json::level_seg1(l@, d as nat));
    }
    push_nl_indent(out, d + 1);
    push_key(out, "background_file");
    push_quoted(out, l.background_file.as_str());
    out.append(",");
    proof {
        reveal(crate::json::level_seg2);
        assert(out@ =~= old(out)@ + seq!['{'] + crate::json::level_seg1(l@, d as nat)
            + crate::json::level_seg2(l@, d as nat));
    }
    push_nl_indent(out, d + 1);
    push_key(out, "title");
    push_quoted(out, l.title.as_str());
    out.append(",");
    proof {
        reveal(crate::json::level_seg3);
        assert(out@ =~= old(out)@ + seq!['{'] + crate::json::level_seg1(l@, d as nat)
            + crate::json::level_seg2(l@, d as nat) + crate::json::level_seg3(l@, d as nat));
    }
    push_nl_indent(out, d + 1);
    push_key(out, "unlocked");
    push_bools(out, &l.unlocked, d + 1);
    push_nl_indent(out, d);
    out.append("}");
    proof {
        reveal(crate::json::level_seg4);
        assert(out@ =~= old(out)@ + seq!['{'] + crate::json::level_seg1(l@, d as nat)
            + crate::json::level_seg2(l@, d as nat) + crate::json::level_seg3(l@, d as nat)
            + crate::json::level_seg4(l@, d as nat));
        assert(out@ =~= old(out)@ + enc_level(l@, d as nat));
    }
}

#[verifier::rlimit(100)]
fn push_levels_items(out: &mut String, levels: &Vec<Level>, j: usize)
    requires
        j < levels@.len(),
    ensures
        final(out)@ == old(out)@ + enc_levels_items(
            levels@.map_values(|l: Level| l@).skip(j as int),
            0,
        ),
    decreases levels@.len() - j,
{
    proof {
        reveal_strlit(",");
        assert(","@ =~= seq![',']);
    }
    let n = levels.len();
    push_nl_indent(out, 1);
    push_level(out, &levels[j], 1);
    let ghost ms = levels@.map_values(|l: Level| l@).skip(j as int);
    proof {
        assert(ms.first() == levels@[j as int]@);
    }
    if j + 1 < n {
        out.append(",");
        push_levels_items(out, levels, j + 1);
        proof {
            assert(ms.drop_first() =~= levels@.map_values(|l: Level| l@).skip(j + 1));
            assert(out@ =~= old(out)@ + enc_levels_items(ms, 0));
        }
    } else {
        proof {
            assert(ms.len() == 1);
            assert(out@ =~= old(out)@ + enc_levels_items(ms, 0));
        }
    }
}

/// Writes the whole catalog as its persisted text document.
#[verifier::rlimit(100)]
pub fn encode_catalog(catalog: &Catalog) -> (out: String)
    ensures
        out@ == enc_catalog(catalog@),
{
    proof {
        reveal_strlit("[");
        reveal_strlit("]");
        reveal_strlit("[]");
        assert("["@ =~= seq!['[']);
        assert("]"@ =~= seq![']']);
        assert("[]"@ =~= seq!['[', ']']);
    }
    let mut out = String::new();
    let n = catalog.levels.len();
    if n == 0 {
        out.append("[]");
        proof {
            assert(catalog@.levels.len() == 0);
            assert(out@ =~= enc_catalog(catalog@));
        }
        return out;
    }
    out.append("[");
    push_levels_items(&mut out, &catalog.levels, 0);
    push_nl_indent(&mut out, 0);
    out.append("]");
    proof {
        assert(catalog@.levels.skip(0) =~= catalog@.levels);
        assert(out@ =~= enc_catalog(catalog@));
    }
    out
}

} // verus!
