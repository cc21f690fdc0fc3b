//! The round-trip law for the persisted catalog document: reading back what
//! the writer produced yields the same catalog model.

use vstd::prelude::*;

use crate::json::{
    content_len, digits_len, enc_bool, enc_bools, enc_bools_items, enc_catalog, enc_catalog_ok,
    enc_group, enc_group_ok, enc_groups, enc_groups_items, enc_level, enc_level_ok,
    enc_levels_items, enc_quoted, enc_speed, enc_wave, enc_waves, enc_waves_items, group_acc_empty,
    group_seg1, group_seg2, group_seg3, group_seg4, group_seg5, is_ws, level_acc_empty,
    level_seg1, level_seg2, level_seg3, level_seg4, lit_at, nl_indent, op_name, p_bool, p_catalog,
    p_group, p_group_entry, p_group_fields, p_groups, p_groups_items, p_level, p_level_entry,
    p_level_fields, p_levels_items, p_nat, p_op, p_punct, p_speed, p_string, p_unlocked, p_wave,
    p_wave_fields, p_waves, p_waves_items, spaces, str_background_file, str_groups, str_max_number,
    str_min_number, str_num_ships, str_operation, str_speed, str_title, str_unlocked, str_waves,
    wave_seg, ws_len, CatalogModel, GroupAcc, GroupModel, LevelAcc, LevelModel, WaveModel,
};
use crate::level::{plain_char, plain_text, Operation};
use crate::numbers::{dec_digit, dec_digits, digits_val, is_digit, lemma_dec_digits_val};

verus! {

/// A concatenation stands at a position exactly when its parts stand there
/// in order.
proof fn lemma_lit_concat(s: Seq<char>, i: int, a: Seq<char>, b: Seq<char>)
    requires
        lit_at(s, i, a + b),
    ensures
        lit_at(s, i, a),
        lit_at(s, i + a.len(), b),
{
    let ab = a + b;
    assert forall|j: int| 0 <= j < a.len() implies s.subrange(i, i + a.len())[j] == a[j] by {
        assert(ab[j] == s.subrange(i, i + ab.len())[j]);
    }
    assert(s.subrange(i, i + a.len()) =~= a);
    assert forall|j: int|
        0 <= j < b.len() implies s.subrange(i + a.len(), i + a.len() + b.len())[j] == b[j] by {
        assert(ab[a.len() + j] == b[j]);
        assert(ab[a.len() + j] == s.subrange(i, i + ab.len())[a.len() + j]);
        assert(s.subrange(i, i + ab.len())[a.len() + j] == s[i + (a.len() + j)]);
        assert(s.subrange(i + a.len(), i + a.len() + b.len())[j] == s[i + a.len() + j]);
    }
    assert(s.subrange(i + a.len(), i + a.len() + b.len()) =~= b);
}

/// The characters of a literal standing at a position.
proof fn lemma_lit_chars(s: Seq<char>, i: int, a: Seq<char>)
    requires
        lit_at(s, i, a),
    ensures
        forall|j: int| 0 <= j < a.len() ==> s[i + j] == #[trigger] a[j],
{
    assert(forall|j: int|
        0 <= j < a.len() ==> #[trigger] a[j] == s.subrange(i, i + a.len())[j]);
}

/// One character of a literal standing at a position.
proof fn lemma_lit_char_at(s: Seq<char>, i: int, a: Seq<char>, j: int)
    requires
        lit_at(s, i, a),
        0 <= j < a.len(),
    ensures
        s[i + j] == a[j],
{
    assert(a[j] == s.subrange(i, i + a.len())[j]);
}

proof fn lemma_spaces_chars(n: nat)
    ensures
        spaces(n).len() == n,
        forall|j: int| 0 <= j < n ==> spaces(n)[j] == ' ',
    decreases n,
{
    if n > 0 {
        lemma_spaces_chars((n - 1) as nat);
    }
}

proof fn lemma_nl_indent_chars(d: nat)
    ensures
        nl_indent(d).len() == 1 + 2 * d,
        forall|j: int| 0 <= j < nl_indent(d).len() ==> is_ws(#[trigger] nl_indent(d)[j]),
{
    lemma_spaces_chars(2 * d);
    assert(nl_indent(d)[0] == '\n');
    assert(forall|j: int| 1 <= j < nl_indent(d).len() ==> nl_indent(d)[j] == spaces(2 * d)[j - 1]);
}

/// A run of `n` whitespace characters bounded by a non-whitespace character
/// (or the end) is exactly what the whitespace skipper measures.
proof fn lemma_ws_run(s: Seq<char>, i: int, n: int)
    requires
        0 <= i,
        0 <= n,
        i + n <= s.len(),
        forall|j: int| 0 <= j < n ==> is_ws(#[trigger] s[i + j]),
        i + n == s.len() || !is_ws(s[i + n]),
    ensures
        ws_len(s, i) == n,
    decreases n,
{
    if n == 0 {
    } else {
        assert(is_ws(s[i + 0]));
        assert forall|j: int| 0 <= j < n - 1 implies is_ws(#[trigger] s[i + 1 + j]) by {
            assert(is_ws(s[i + (j + 1)]));
        }
        lemma_ws_run(s, i + 1, n - 1);
    }
}

/// A whitespace skip over a standing `nl_indent`.
proof fn lemma_ws_nl_indent(s: Seq<char>, i: int, d: nat)
    requires
        lit_at(s, i, nl_indent(d)),
        i + nl_indent(d).len() == s.len() || !is_ws(s[i + nl_indent(d).len()]),
    ensures
        ws_len(s, i) == nl_indent(d).len(),
{
    lemma_nl_indent_chars(d);
    assert forall|j: int| 0 <= j < nl_indent(d).len() implies is_ws(#[trigger] s[i + j]) by {
        lemma_lit_char_at(s, i, nl_indent(d), j);
    }
    lemma_ws_run(s, i, nl_indent(d).len() as int);
}

/// Standing digits bounded by a non-digit measure their own length.
proof fn lemma_digits_run(s: Seq<char>, i: int, n: int)
    requires
        0 <= i,
        0 <= n,
        i + n <= s.len(),
        forall|j: int| 0 <= j < n ==> is_digit(#[trigger] s[i + j]),
        i + n == s.len() || !is_digit(s[i + n]),
    ensures
        digits_len(s, i) == n,
    decreases n,
{
    if n == 0 {
    } else {
        assert(is_digit(s[i + 0]));
        assert forall|j: int| 0 <= j < n - 1 implies is_digit(#[trigger] s[i + 1 + j]) by {
            assert(is_digit(s[i + (j + 1)]));
        }
        lemma_digits_run(s, i + 1, n - 1);
    }
}

/// Standing plain content bounded by a quote measures its own length.
proof fn lemma_content_run(s: Seq<char>, i: int, n: int)
    requires
        0 <= i,
        0 <= n,
        i + n <= s.len(),
        forall|j: int| 0 <= j < n ==> plain_char(#[trigger] s[i + j]),
        i + n < s.len() && s[i + n] == '"',
    ensures
        content_len(s, i) == n,
    decreases n,
{
    if n == 0 {
        assert(!plain_char('"'));
    } else {
        assert(plain_char(s[i + 0]));
        assert forall|j: int| 0 <= j < n - 1 implies plain_char(#[trigger] s[i + 1 + j]) by {
            assert(plain_char(s[i + (j + 1)]));
        }
        lemma_content_run(s, i + 1, n - 1);
    }
}








/// A punctuation token parses through a known whitespace run.
proof fn lemma_punct_ws(s: Seq<char>, i: int, w: nat, c: char)
    requires
        0 <= i,
        ws_len(s, i) == w,
        i + w < s.len(),
        s[i + w] == c,
    ensures
        p_punct(s, i, c) == Some((w + 1) as nat),
{
}

/// A punctuation probe fails on the wrong character.
proof fn lemma_punct_none(s: Seq<char>, i: int, c: char)
    requires
        0 <= i,
        i + ws_len(s, i) < s.len(),
        s[i + ws_len(s, i)] != c,
    ensures
        p_punct(s, i, c) is None,
{
}

/// A single space is a whitespace run of one.
proof fn lemma_ws_space(s: Seq<char>, i: int)
    requires
        0 <= i < s.len(),
        s[i] == ' ',
        i + 1 == s.len() || !is_ws(s[i + 1]),
    ensures
        ws_len(s, i) == 1,
{
    assert(is_ws(s[i + 0]));
    lemma_ws_run(s, i, 1);
}

/// A quoted plain string parses through a known whitespace run.
proof fn lemma_string_ws(s: Seq<char>, i: int, w: nat, content: Seq<char>)
    requires
        0 <= i,
        ws_len(s, i) == w,
        lit_at(s, i + w, enc_quoted(content)),
        plain_text(content),
    ensures
        p_string(s, i) == Some((content, (w + content.len() + 2) as nat)),
{
    let q = i + w;
    let e = enc_quoted(content);
    assert(e =~= seq!['"'] + content + seq!['"']);
    lemma_lit_concat(s, q, seq!['"'] + content, seq!['"']);
    lemma_lit_concat(s, q, seq!['"'], content);
    lemma_lit_char_at(s, q, seq!['"'], 0);
    assert(s[q] == '"');
    lemma_lit_char_at(s, q + 1 + content.len(), seq!['"'], 0);
    assert(s[q + 1 + content.len()] == '"');
    assert forall|j: int| 0 <= j < content.len() implies plain_char(#[trigger] s[q + 1 + j]) by {
        lemma_lit_char_at(s, q + 1, content, j);
        assert(plain_char(content[j]));
    }
    lemma_content_run(s, q + 1, content.len() as int);
    assert(s.subrange(q + 1, q + 1 + content.len()) =~= content);
}

/// An operation name parses through a known whitespace run.
proof fn lemma_op_ws(s: Seq<char>, i: int, w: nat, op: Operation)
    requires
        0 <= i,
        ws_len(s, i) == w,
        lit_at(s, i + w, enc_quoted(op_name(op))),
    ensures
        p_op(s, i) == Some((op, (w + op_name(op).len() + 2) as nat)),
{
    assert(plain_text(op_name(op))) by {
        assert(forall|j: int|
            0 <= j < op_name(op).len() ==> plain_char(#[trigger] op_name(op)[j]));
    }
    lemma_string_ws(s, i, w, op_name(op));
    assert(op_name(Operation::Subtract)[0] == 'S');
    assert(op_name(Operation::Multiply)[0] == 'M');
}

/// Decimal digits parse through a known whitespace run.
proof fn lemma_nat_ws(s: Seq<char>, i: int, w: nat, v: nat)
    requires
        0 <= i,
        ws_len(s, i) == w,
        lit_at(s, i + w, dec_digits(v)),
        v <= 0xffff_ffff,
        i + w + dec_digits(v).len() == s.len() || !is_digit(s[i + w + dec_digits(v).len()]),
    ensures
        p_nat(s, i) == Some((v, (w + dec_digits(v).len()) as nat)),
{
    let q = i + w;
    let digs = dec_digits(v);
    lemma_dec_digits_val(v);
    assert forall|j: int| 0 <= j < digs.len() implies is_digit(#[trigger] s[q + j]) by {
        lemma_lit_char_at(s, q, digs, j);
        assert(is_digit(digs[j]));
    }
    lemma_digits_run(s, q, digs.len() as int);
    assert(s.subrange(q, q + digs.len()) =~= digs);
}

/// A speed parses through a known whitespace run.
proof fn lemma_speed_ws(s: Seq<char>, i: int, w: nat, milli: nat)
    requires
        0 <= i,
        ws_len(s, i) == w,
        lit_at(s, i + w, enc_speed(milli)),
        milli <= 0xffff_ffff,
        i + w + enc_speed(milli).len() < s.len(),
        !is_digit(s[i + w + enc_speed(milli).len()]),
        s[i + w + enc_speed(milli).len()] != '.',
    ensures
        p_speed(s, i) == Some((milli, (w + enc_speed(milli).len()) as nat)),
{
    let q = i + w;
    let ip = milli / 1000;
    let frac = milli % 1000;
    let ipd = dec_digits(ip);
    lemma_dec_digits_val(ip);
    if frac == 0 {
        assert(enc_speed(milli) == ipd);
        lemma_nat_ws(s, i, w, ip);
        assert(ip * 1000 == milli) by {
            assert(milli == 1000 * (milli / 1000) + milli % 1000) by (nonlinear_arith);
        }
    } else {
        let fd = if frac % 100 == 0 {
            dec_digits(frac / 100)
        } else if frac % 10 == 0 {
            seq![dec_digit(frac / 100)] + dec_digits((frac / 10) % 10)
        } else {
            seq![dec_digit(frac / 100), dec_digit((frac / 10) % 10)] + dec_digits(frac % 10)
        };
        assert(enc_speed(milli) =~= ipd + seq!['.'] + fd);
        lemma_lit_concat(s, q, ipd + seq!['.'], fd);
        lemma_lit_concat(s, q, ipd, seq!['.']);
        lemma_lit_char_at(s, q + ipd.len(), seq!['.'], 0);
        assert(s[q + ipd.len()] == '.');
        assert(!is_digit('.'));
        lemma_nat_ws(s, i, w, ip);
        let j = q + ipd.len() + 1;
        assert(frac < 1000);
        if frac % 100 == 0 {
            assert(frac / 100 < 10);
            assert(fd =~= seq![dec_digit(frac / 100)]);
            lemma_lit_char_at(s, j, fd, 0);
            crate::numbers::lemma_digit_roundtrip(frac / 100);
            assert(is_digit(s[j + 0]));
            lemma_digits_run(s, j, 1);
            assert(s.subrange(j, j + 1) =~= fd);
            lemma_small_val(fd, frac / 100);
            assert((frac / 100) * 100 == frac) by (nonlinear_arith)
                requires
                    frac % 100 == 0 && frac < 1000,
            ;
            assert(ip * 1000 + frac == milli) by (nonlinear_arith)
                requires
                    ip == milli / 1000 && frac == milli % 1000,
            ;
        } else if frac % 10 == 0 {
            assert(fd =~= seq![dec_digit(frac / 100), dec_digit((frac / 10) % 10)]);
            crate::numbers::lemma_digit_roundtrip(frac / 100);
            crate::numbers::lemma_digit_roundtrip((frac / 10) % 10);
            lemma_lit_char_at(s, j, fd, 0);
            lemma_lit_char_at(s, j, fd, 1);
            assert(is_digit(s[j + 0]) && is_digit(s[j + 1]));
            lemma_digits_run(s, j, 2);
            assert(s.subrange(j, j + 2) =~= fd);
            lemma_two_val(fd, frac / 100, (frac / 10) % 10);
            assert((frac / 100 * 10 + (frac / 10) % 10) * 10 == frac) by (nonlinear_arith)
                requires
                    frac % 10 == 0 && frac < 1000,
            ;
            assert(ip * 1000 + frac == milli) by (nonlinear_arith)
                requires
                    ip == milli / 1000 && frac == milli % 1000,
            ;
        } else {
            assert(fd =~= seq![dec_digit(frac / 100), dec_digit((frac / 10) % 10), dec_digit(
                frac % 10,
            )]);
            crate::numbers::lemma_digit_roundtrip(frac / 100);
            crate::numbers::lemma_digit_roundtrip((frac / 10) % 10);
            crate::numbers::lemma_digit_roundtrip(frac % 10);
            lemma_lit_char_at(s, j, fd, 0);
            lemma_lit_char_at(s, j, fd, 1);
            lemma_lit_char_at(s, j, fd, 2);
            assert(is_digit(s[j + 0]) && is_digit(s[j + 1]) && is_digit(s[j + 2]));
            lemma_digits_run(s, j, 3);
            assert(s.subrange(j, j + 3) =~= fd);
            lemma_three_val(fd, frac / 100, (frac / 10) % 10, frac % 10);
            assert(frac / 100 * 100 + (frac / 10) % 10 * 10 + frac % 10 == frac)
                by (nonlinear_arith)
                requires
                    frac < 1000,
            ;
            assert(ip * 1000 + frac == milli) by (nonlinear_arith)
                requires
                    ip == milli / 1000 && frac == milli % 1000,
            ;
        }
    }
}

/// A boolean parses through a known whitespace run.
proof fn lemma_bool_ws(s: Seq<char>, i: int, w: nat, b: bool)
    requires
        0 <= i,
        ws_len(s, i) == w,
        lit_at(s, i + w, enc_bool(b)),
    ensures
        p_bool(s, i) == Some((b, (w + enc_bool(b).len()) as nat)),
{
    let q = i + w;
    lemma_lit_chars(s, q, enc_bool(b));
    if b {
        assert(s.subrange(q, q + 4) =~= enc_bool(true));
    } else {
        assert(s.subrange(q, q + 5) =~= enc_bool(false));
        if lit_at(s, q, enc_bool(true)) {
            lemma_lit_char_at(s, q, enc_bool(true), 0);
            lemma_lit_char_at(s, q, enc_bool(false), 0);
            assert(false);
        }
    }
}

/// A field key standing after an indent, with its colon and space.
proof fn lemma_entry_prefix(s: Seq<char>, o: int, d: nat, k: Seq<char>)
    requires
        0 <= o,
        plain_text(k),
        lit_at(s, o, nl_indent(d + 1) + enc_quoted(k) + seq![':', ' ']),
    ensures
        p_string(s, o) == Some((k, (nl_indent(d + 1).len() + k.len() + 2) as nat)),
        p_punct(s, o + nl_indent(d + 1).len() + k.len() + 2, ':') == Some(1nat),
        s[o + nl_indent(d + 1).len() + k.len() + 3] == ' ',
{
    let nl = nl_indent(d + 1);
    assert(nl + enc_quoted(k) + seq![':', ' '] =~= nl + (enc_quoted(k) + seq![':', ' ']));
    lemma_lit_concat(s, o, nl, enc_quoted(k) + seq![':', ' ']);
    lemma_lit_concat(s, o + nl.len(), enc_quoted(k), seq![':', ' ']);
    lemma_lit_char_at(s, o + nl.len(), enc_quoted(k), 0);
    assert(enc_quoted(k)[0] == '"');
    assert(s[o + nl.len()] == '"');
    assert(!is_ws('"'));
    lemma_ws_nl_indent(s, o, d + 1);
    lemma_string_ws(s, o, nl.len(), k);
    let oc = o + nl.len() + k.len() + 2;
    lemma_lit_char_at(s, oc, seq![':', ' '], 0);
    lemma_lit_char_at(s, oc, seq![':', ' '], 1);
    assert(s[oc] == ':');
    assert(!is_ws(':'));
    lemma_ws_run(s, oc, 0);
    lemma_punct_ws(s, oc, 0, ':');
}

/// One written group field (with its trailing comma) steps the field
/// parser: what the whole field list yields is what the rest yields with
/// this field filled in.  The value cases share this shape; each gets its
/// own lemma below.
spec fn fields_step_ok(
    s: Seq<char>,
    o: int,
    acc: GroupAcc,
    acc2: GroupAcc,
    seg_len: nat,
) -> bool {
    p_group_fields(s, o, acc) == (match p_group_fields(s, o + seg_len, acc2) {
        Some((g, k)) => Some((g, (seg_len + k) as nat)),
        None => None::<(GroupModel, nat)>,
    })
}

/// Key strings of a group are pairwise distinct.
proof fn lemma_group_keys_distinct()
    ensures
        str_operation() != str_speed(),
        str_operation() != str_num_ships(),
        str_operation() != str_max_number(),
        str_operation() != str_min_number(),
        str_speed() != str_num_ships(),
        str_speed() != str_max_number(),
        str_speed() != str_min_number(),
        str_num_ships() != str_max_number(),
        str_num_ships() != str_min_number(),
        str_max_number() != str_min_number(),
{
    assert(str_max_number()[1] == 'a' && str_min_number()[1] == 'i');
    assert(str_num_ships()[0] == 'n' && str_max_number()[0] == 'm');
}

/// The operation entry steps the field parser.
proof fn lemma_step_op(s: Seq<char>, o: int, d: nat, acc: GroupAcc, op: Operation)
    requires
        0 <= o,
        acc.operation is None,
        lit_at(
            s,
            o,
            nl_indent(d + 1) + enc_quoted(str_operation()) + seq![':', ' '] + enc_quoted(
                op_name(op),
            ) + seq![','],
        ),
    ensures
        fields_step_ok(
            s,
            o,
            acc,
            GroupAcc { operation: Some(op), ..acc },
            nl_indent(d + 1).len() + str_operation().len() + 4 + op_name(op).len() + 2 + 1,
        ),
{
    let pre = nl_indent(d + 1) + enc_quoted(str_operation()) + seq![':', ' '];
    let v = enc_quoted(op_name(op));
    let t = pre + v + seq![','];
    assert(t =~= pre + (v + seq![',']));
    lemma_lit_concat(s, o, pre, v + seq![',']);
    let ov = o + pre.len();
    lemma_lit_concat(s, ov, v, seq![',']);
    let oc = ov + v.len();
    lemma_entry_prefix(s, o, d, str_operation());
    lemma_lit_char_at(s, ov, v, 0);
    assert(v[0] == '"');
    lemma_ws_space(s, ov - 1);
    lemma_op_ws(s, ov - 1, 1, op);
    lemma_lit_char_at(s, oc, seq![','], 0);
    assert(s[oc] == ',');
    lemma_ws_run(s, oc, 0);
    lemma_punct_ws(s, oc, 0, ',');
    assert(p_group_entry(s, o, acc) == Some(
        (GroupAcc { operation: Some(op), ..acc }, (oc - o) as nat),
    ));
}

/// The speed entry steps the field parser.
proof fn lemma_step_speed(s: Seq<char>, o: int, d: nat, acc: GroupAcc, v: nat)
    requires
        0 <= o,
        acc.speed_milli is None,
        v <= 0xffff_ffff,
        lit_at(
            s,
            o,
            nl_indent(d + 1) + enc_quoted(str_speed()) + seq![':', ' '] + enc_speed(v)
                + seq![','],
        ),
    ensures
        fields_step_ok(
            s,
            o,
            acc,
            GroupAcc { speed_milli: Some(v), ..acc },
            nl_indent(d + 1).len() + str_speed().len() + 4 + enc_speed(v).len() + 1,
        ),
{
    lemma_group_keys_distinct();
    let pre = nl_indent(d + 1) + enc_quoted(str_speed()) + seq![':', ' '];
    let ve = enc_speed(v);
    let t = pre + ve + seq![','];
    assert(t =~= pre + (ve + seq![',']));
    lemma_lit_concat(s, o, pre, ve + seq![',']);
    let ov = o + pre.len();
    lemma_lit_concat(s, ov, ve, seq![',']);
    let oc = ov + ve.len();
    lemma_entry_prefix(s, o, d, str_speed());
    lemma_speed_first_digit(v);
    lemma_lit_char_at(s, ov, ve, 0);
    lemma_ws_space(s, ov - 1);
    lemma_lit_char_at(s, oc, seq![','], 0);
    assert(s[oc] == ',' && !is_digit(',') && ',' != '.');
    lemma_speed_ws(s, ov - 1, 1, v);
    lemma_ws_run(s, oc, 0);
    lemma_punct_ws(s, oc, 0, ',');
    assert(p_group_entry(s, o, acc) == Some(
        (GroupAcc { speed_milli: Some(v), ..acc }, (oc - o) as nat),
    ));
}

/// A numeric entry (ship count or an operand bound) steps the field
/// parser, provided its key picks exactly that still-empty field.
proof fn lemma_step_nat(
    s: Seq<char>,
    o: int,
    d: nat,
    acc: GroupAcc,
    key: Seq<char>,
    acc2: GroupAcc,
    v: nat,
)
    requires
        0 <= o,
        v <= 0xffff_ffff,
        lit_at(
            s,
            o,
            nl_indent(d + 1) + enc_quoted(key) + seq![':', ' '] + dec_digits(v) + seq![','],
        ),
        (key == str_num_ships() && acc.num_ships is None && acc2 == GroupAcc {
            num_ships: Some(v),
            ..acc
        }) || (key == str_max_number() && acc.max_number is None && acc2 == GroupAcc {
            max_number: Some(v),
            ..acc
        }) || (key == str_min_number() && acc.min_number is None && acc2 == GroupAcc {
            min_number: Some(v),
            ..acc
        }),
    ensures
        fields_step_ok(
            s,
            o,
            acc,
            acc2,
            nl_indent(d + 1).len() + key.len() + 4 + dec_digits(v).len() + 1,
        ),
{
    lemma_group_keys_distinct();
    assert(plain_text(key)) by {
        assert(forall|j: int| 0 <= j < str_num_ships().len() ==> plain_char(#[trigger] str_num_ships()[j]));
        assert(forall|j: int| 0 <= j < str_max_number().len() ==> plain_char(#[trigger] str_max_number()[j]));
        assert(forall|j: int| 0 <= j < str_min_number().len() ==> plain_char(#[trigger] str_min_number()[j]));
    }
    let pre = nl_indent(d + 1) + enc_quoted(key) + seq![':', ' '];
    let ve = dec_digits(v);
    let t = pre + ve + seq![','];
    assert(t =~= pre + (ve + seq![',']));
    lemma_lit_concat(s, o, pre, ve + seq![',']);
    let ov = o + pre.len();
    lemma_lit_concat(s, ov, ve, seq![',']);
    let oc = ov + ve.len();
    lemma_entry_prefix(s, o, d, key);
    lemma_dec_digits_val(v);
    lemma_lit_char_at(s, ov, ve, 0);
    lemma_ws_space(s, ov - 1);
    lemma_lit_char_at(s, oc, seq![','], 0);
    assert(s[oc] == ',' && !is_digit(','));
    lemma_nat_ws(s, ov - 1, 1, v);
    lemma_ws_run(s, oc, 0);
    lemma_punct_ws(s, oc, 0, ',');
    assert(p_group_entry(s, o, acc) == Some((acc2, (oc - o) as nat)));
}

/// The final (minimum-number) entry and the closing brace finish the field
/// parser: it yields the completed group.
proof fn lemma_step_last(s: Seq<char>, o: int, d: nat, acc: GroupAcc, g: GroupModel)
    requires
        0 <= o,
        enc_group_ok(g),
        acc == (GroupAcc {
            operation: Some(g.operation),
            speed_milli: Some(g.speed_milli),
            num_ships: Some(g.num_ships),
            max_number: Some(g.max_number),
            min_number: None,
        }),
        lit_at(
            s,
            o,
            nl_indent(d + 1) + enc_quoted(str_min_number()) + seq![':', ' '] + dec_digits(
                g.min_number,
            ) + nl_indent(d) + seq!['}'],
        ),
    ensures
        p_group_fields(s, o, acc) == Some(
            (
                g,
                (nl_indent(d + 1).len() + str_min_number().len() + 4 + dec_digits(
                    g.min_number,
                ).len() + nl_indent(d).len() + 1) as nat,
            ),
        ),
{
    lemma_group_keys_distinct();
    let pre = nl_indent(d + 1) + enc_quoted(str_min_number()) + seq![':', ' '];
    let ve = dec_digits(g.min_number);
    let closing = nl_indent(d) + seq!['}'];
    let req = nl_indent(d + 1) + enc_quoted(str_min_number()) + seq![':', ' '] + dec_digits(
        g.min_number,
    ) + nl_indent(d) + seq!['}'];
    assert(req =~= pre + (ve + closing));
    assert(lit_at(s, o, pre + (ve + closing)));
    lemma_lit_concat(s, o, pre, ve + closing);
    let ov = o + pre.len();
    lemma_lit_concat(s, ov, ve, closing);
    let oc = ov + ve.len();
    lemma_entry_prefix(s, o, d, str_min_number());
    lemma_dec_digits_val(g.min_number);
    lemma_lit_char_at(s, ov, ve, 0);
    lemma_ws_space(s, ov - 1);
    lemma_lit_concat(s, oc, nl_indent(d), seq!['}']);
    lemma_nl_indent_chars(d);
    lemma_lit_char_at(s, oc, nl_indent(d), 0);
    assert(s[oc] == '\n' && !is_digit('\n'));
    lemma_nat_ws(s, ov - 1, 1, g.min_number);
    let acc2 = GroupAcc { min_number: Some(g.min_number), ..acc };
    assert(p_group_entry(s, o, acc) == Some((acc2, (oc - o) as nat)));
    lemma_lit_char_at(s, oc + nl_indent(d).len(), seq!['}'], 0);
    assert(s[oc + nl_indent(d).len()] == '}');
    assert(!is_ws('}'));
    lemma_ws_nl_indent(s, oc, d);
    lemma_punct_none(s, oc, ',');
    lemma_punct_ws(s, oc, nl_indent(d).len(), '}');
    assert(acc2.operation is Some && acc2.speed_milli is Some && acc2.num_ships is Some
        && acc2.max_number is Some && acc2.min_number is Some);
    assert(GroupModel {
        operation: acc2.operation->0,
        speed_milli: acc2.speed_milli->0,
        num_ships: acc2.num_ships->0,
        max_number: acc2.max_number->0,
        min_number: acc2.min_number->0,
    } == g);
}

/// The last three fields of a written group finish the field parser.
#[verifier::rlimit(100)]
proof fn lemma_group_fields_tail(s: Seq<char>, o2: int, g: GroupModel, d: nat)
    requires
        0 <= o2,
        enc_group_ok(g),
        lit_at(s, o2, group_seg3(g, d) + (group_seg4(g, d) + group_seg5(g, d))),
    ensures
        p_group_fields(
            s,
            o2,
            GroupAcc {
                operation: Some(g.operation),
                speed_milli: Some(g.speed_milli),
                num_ships: None,
                max_number: None,
                min_number: None,
            },
        ) == Some(
            (g, (group_seg3(g, d).len() + group_seg4(g, d).len() + group_seg5(g, d).len()) as nat),
        ),
{
    let seg3 = group_seg3(g, d);
    let seg4 = group_seg4(g, d);
    let seg5 = group_seg5(g, d);
    lemma_lit_concat(s, o2, seg3, seg4 + seg5);
    let o3 = o2 + seg3.len();
    lemma_lit_concat(s, o3, seg4, seg5);
    let o4 = o3 + seg4.len();
    let acc2 = GroupAcc {
        operation: Some(g.operation),
        speed_milli: Some(g.speed_milli),
        num_ships: None,
        max_number: None,
        min_number: None,
    };
    let acc3 = GroupAcc { num_ships: Some(g.num_ships), ..acc2 };
    let acc4 = GroupAcc { max_number: Some(g.max_number), ..acc3 };
    lemma_step_nat(s, o2, d, acc2, str_num_ships(), acc3, g.num_ships);
    lemma_step_nat(s, o3, d, acc3, str_max_number(), acc4, g.max_number);
    lemma_step_last(s, o4, d, acc4, g);
}

/// A whole group object parses back to its model where its encoding
/// stands after a known whitespace run.
#[verifier::rlimit(100)]
proof fn lemma_group_ws(s: Seq<char>, i: int, w: nat, g: GroupModel, d: nat)
    requires
        0 <= i,
        ws_len(s, i) == w,
        enc_group_ok(g),
        lit_at(s, i + w, enc_group(g, d)),
    ensures
        p_group(s, i) == Some((g, (w + enc_group(g, d).len()) as nat)),
{
    let q = i + w;
    let seg1 = group_seg1(g, d);
    let seg2 = group_seg2(g, d);
    let seg3 = group_seg3(g, d);
    let seg4 = group_seg4(g, d);
    let seg5 = group_seg5(g, d);
    lemma_lit_concat(s, q, seq!['{'], seg1 + (seg2 + (seg3 + (seg4 + seg5))));
    let o0 = q + 1;
    lemma_lit_concat(s, o0, seg1, seg2 + (seg3 + (seg4 + seg5)));
    let o1 = o0 + seg1.len();
    lemma_lit_concat(s, o1, seg2, seg3 + (seg4 + seg5));
    let o2 = o1 + seg2.len();

    lemma_lit_char_at(s, q, seq!['{'], 0);
    assert(s[q] == '{');
    lemma_punct_ws(s, i, w, '{');

    let acc0 = group_acc_empty();
    let acc1 = GroupAcc { operation: Some(g.operation), ..acc0 };
    let acc2 = GroupAcc { speed_milli: Some(g.speed_milli), ..acc1 };
    lemma_step_op(s, o0, d, acc0, g.operation);
    lemma_step_speed(s, o1, d, acc1, g.speed_milli);
    lemma_group_fields_tail(s, o2, g, d);
    assert(p_group_fields(s, o0, acc0) is Some);
    let fr = p_group_fields(s, o0, acc0)->0;
    assert(p_group(s, i) == Some((g, (w + 1 + fr.1) as nat)));
}

/// A closing line: an indent then a closing character.  The comma probe
/// fails on it; the closing character parses.
proof fn lemma_closing_line(s: Seq<char>, j: int, d: nat, c: char)
    requires
        0 <= j,
        lit_at(s, j, nl_indent(d) + seq![c]),
        c != ',',
        !is_ws(c),
    ensures
        ws_len(s, j) == nl_indent(d).len(),
        p_punct(s, j, ',') is None,
        p_punct(s, j, c) == Some((nl_indent(d).len() + 1) as nat),
{
    lemma_nl_indent_chars(d);
    lemma_lit_concat(s, j, nl_indent(d), seq![c]);
    lemma_lit_char_at(s, j + nl_indent(d).len(), seq![c], 0);
    assert(s[j + nl_indent(d).len()] == c);
    lemma_ws_nl_indent(s, j, d);
    lemma_punct_none(s, j, ',');
    lemma_punct_ws(s, j, nl_indent(d).len(), c);
}

/// Every group of a list is well bounded.
spec fn groups_ok(gs: Seq<GroupModel>) -> bool {
    forall|k: int| 0 <= k < gs.len() ==> enc_group_ok(#[trigger] gs[k])
}

/// A nonempty written group list, followed by the closing line of its
/// array, parses back to the list.
#[verifier::rlimit(100)]
proof fn lemma_groups_items_at(s: Seq<char>, i: int, gs: Seq<GroupModel>, d: nat)
    requires
        0 <= i,
        gs.len() >= 1,
        groups_ok(gs),
        lit_at(s, i, enc_groups_items(gs, d)),
        lit_at(s, i + enc_groups_items(gs, d).len(), nl_indent(d) + seq![']']),
    ensures
        p_groups_items(s, i) == Some((gs, enc_groups_items(gs, d).len() as nat)),
    decreases gs.len(),
{
    let nl = nl_indent(d + 1);
    let g0 = gs.first();
    let eg = enc_group(g0, d + 1);
    lemma_nl_indent_chars(d + 1);
    lemma_nl_indent_chars(d);
    if gs.len() == 1 {
        assert(enc_groups_items(gs, d) == nl + eg + Seq::<char>::empty());
        assert(nl + eg + Seq::<char>::empty() =~= nl + eg);
        assert(lit_at(s, i, nl + eg));
        lemma_lit_concat(s, i, nl, eg);
        lemma_lit_char_at(s, i + nl.len(), eg, 0);
        assert(eg[0] == '{');
        assert(s[i + nl.len()] == '{');
        lemma_ws_nl_indent(s, i, d + 1);
        lemma_group_ws(s, i, nl.len(), g0, d + 1);
        let j = i + nl.len() + eg.len();
        // The comma probe fails on the closing line.
        lemma_lit_concat(s, j, nl_indent(d), seq![']']);
        lemma_lit_char_at(s, j + nl_indent(d).len(), seq![']'], 0);
        assert(s[j + nl_indent(d).len()] == ']');
        lemma_ws_nl_indent(s, j, d);
        lemma_punct_none(s, j, ',');
        assert(seq![g0] =~= gs);
    } else {
        let rest = gs.drop_first();
        let rest_items = enc_groups_items(rest, d);
        assert(enc_groups_items(gs, d) == nl + eg + (seq![','] + rest_items));
        assert(nl + eg + (seq![','] + rest_items) =~= (nl + eg) + (seq![','] + rest_items));
        assert(lit_at(s, i, (nl + eg) + (seq![','] + rest_items)));
        lemma_lit_concat(s, i, nl + eg, seq![','] + rest_items);
        lemma_lit_concat(s, i, nl, eg);
        let j = i + nl.len() + eg.len();
        lemma_lit_concat(s, j, seq![','], rest_items);
        lemma_lit_char_at(s, i + nl.len(), eg, 0);
        assert(eg[0] == '{');
        assert(s[i + nl.len()] == '{');
        lemma_ws_nl_indent(s, i, d + 1);
        lemma_group_ws(s, i, nl.len(), g0, d + 1);
        lemma_lit_char_at(s, j, seq![','], 0);
        assert(s[j] == ',');
        lemma_ws_run(s, j, 0);
        lemma_punct_ws(s, j, 0, ',');
        assert(rest.len() >= 1);
        assert(groups_ok(rest)) by {
            assert(forall|k: int| 0 <= k < rest.len() ==> rest[k] == gs[k + 1]);
        }
        assert(lit_at(s, j + 1 + rest_items.len(), nl_indent(d) + seq![']']));
        lemma_groups_items_at(s, j + 1, rest, d);
        assert(seq![g0] + rest =~= gs);
    }
}

/// A nonempty written group list opens with an indent and a brace.
#[verifier::rlimit(100)]
proof fn lemma_groups_items_open(s: Seq<char>, i: int, gs: Seq<GroupModel>, d: nat)
    requires
        0 <= i,
        gs.len() >= 1,
        lit_at(s, i, enc_groups_items(gs, d)),
    ensures
        ws_len(s, i) == nl_indent(d + 1).len(),
        i + ws_len(s, i) < s.len(),
        s[i + nl_indent(d + 1).len()] == '{',
{
    lemma_nl_indent_chars(d + 1);
    let eg0 = enc_group(gs.first(), d + 1);
    let tail0 = if gs.len() > 1 {
        seq![','] + enc_groups_items(gs.drop_first(), d)
    } else {
        Seq::<char>::empty()
    };
    assert(enc_groups_items(gs, d) == nl_indent(d + 1) + eg0 + tail0);
    assert(nl_indent(d + 1) + eg0 + tail0 =~= nl_indent(d + 1) + (eg0 + tail0));
    assert(lit_at(s, i, nl_indent(d + 1) + (eg0 + tail0)));
    lemma_lit_concat(s, i, nl_indent(d + 1), eg0 + tail0);
    lemma_lit_char_at(s, i + nl_indent(d + 1).len(), eg0 + tail0, 0);
    assert(eg0[0] == '{');
    assert(s[i + nl_indent(d + 1).len()] == '{');
    lemma_ws_nl_indent(s, i, d + 1);
}

/// A written group array parses back to its list after a known whitespace
/// run.
#[verifier::rlimit(100)]
proof fn lemma_groups_ws(s: Seq<char>, i: int, w: nat, gs: Seq<GroupModel>, d: nat)
    requires
        0 <= i,
        ws_len(s, i) == w,
        groups_ok(gs),
        lit_at(s, i + w, enc_groups(gs, d)),
    ensures
        p_groups(s, i) == Some((gs, (w + enc_groups(gs, d).len()) as nat)),
{
    let q = i + w;
    if gs.len() == 0 {
        assert(enc_groups(gs, d) == seq!['[', ']']);
        lemma_lit_char_at(s, q, seq!['[', ']'], 0);
        lemma_lit_char_at(s, q, seq!['[', ']'], 1);
        assert(s[q] == '[' && s[q + 1] == ']');
        lemma_punct_ws(s, i, w, '[');
        lemma_ws_run(s, q + 1, 0);
        lemma_punct_ws(s, q + 1, 0, ']');
        assert(Seq::<GroupModel>::empty() =~= gs);
    } else {
        let items = enc_groups_items(gs, d);
        assert(enc_groups(gs, d) == seq!['['] + items + nl_indent(d) + seq![']']);
        assert(seq!['['] + items + nl_indent(d) + seq![']'] =~= seq!['['] + (items + (nl_indent(d)
            + seq![']'])));
        assert(lit_at(s, q, seq!['['] + (items + (nl_indent(d) + seq![']']))));
        lemma_lit_concat(s, q, seq!['['], items + (nl_indent(d) + seq![']']));
        lemma_lit_concat(s, q + 1, items, nl_indent(d) + seq![']']);
        lemma_lit_char_at(s, q, seq!['['], 0);
        assert(s[q] == '[');
        lemma_punct_ws(s, i, w, '[');
        // The immediate close probe fails: the items open with an indent
        // and a brace.
        lemma_groups_items_open(s, q + 1, gs, d);
        lemma_punct_none(s, q + 1, ']');
        // The items, then the closing line.
        lemma_groups_items_at(s, q + 1, gs, d);
        let j = q + 1 + items.len();
        lemma_closing_line(s, j, d, ']');
    }
}

/// Every group of a wave is well bounded.
spec fn wave_ok(wm: WaveModel) -> bool {
    groups_ok(wm.groups)
}

/// A written wave object parses back to its model after a known whitespace
/// run.
#[verifier::rlimit(100)]
proof fn lemma_wave_ws(s: Seq<char>, i: int, w: nat, wm: WaveModel, d: nat)
    requires
        0 <= i,
        ws_len(s, i) == w,
        wave_ok(wm),
        lit_at(s, i + w, enc_wave(wm, d)),
    ensures
        p_wave(s, i) == Some((wm, (w + enc_wave(wm, d).len()) as nat)),
{
    let q = i + w;
    let seg = wave_seg(wm, d);
    assert(enc_wave(wm, d) == seq!['{'] + seg);
    lemma_lit_concat(s, q, seq!['{'], seg);
    lemma_lit_char_at(s, q, seq!['{'], 0);
    assert(s[q] == '{');
    lemma_punct_ws(s, i, w, '{');
    let o0 = q + 1;
    // The single field: "groups": <array>, then the closing line.
    let nl = nl_indent(d + 1);
    let pre = nl + enc_quoted(str_groups()) + seq![':', ' '];
    let ve = enc_groups(wm.groups, d + 1);
    let closing = nl_indent(d) + seq!['}'];
    assert(seg =~= pre + (ve + closing));
    assert(lit_at(s, o0, pre + (ve + closing)));
    lemma_lit_concat(s, o0, pre, ve + closing);
    let ov = o0 + pre.len();
    lemma_lit_concat(s, ov, ve, closing);
    let oc = ov + ve.len();
    assert(plain_text(str_groups())) by {
        assert(forall|j: int| 0 <= j < str_groups().len() ==> plain_char(#[trigger] str_groups()[j]));
    }
    lemma_entry_prefix(s, o0, d, str_groups());
    lemma_lit_char_at(s, ov, ve, 0);
    assert(ve[0] == '[');
    lemma_ws_space(s, ov - 1);
    lemma_groups_ws(s, ov - 1, 1, wm.groups, d + 1);
    lemma_lit_concat(s, oc, nl_indent(d), seq!['}']);
    lemma_lit_char_at(s, oc + nl_indent(d).len(), seq!['}'], 0);
    assert(s[oc + nl_indent(d).len()] == '}');
    lemma_nl_indent_chars(d);
    lemma_ws_nl_indent(s, oc, d);
    lemma_punct_ws(s, oc, nl_indent(d).len(), '}');
    assert(WaveModel { groups: wm.groups } == wm);
}

/// Every wave of a list is well bounded.
spec fn waves_ok(ws: Seq<WaveModel>) -> bool {
    forall|k: int| 0 <= k < ws.len() ==> wave_ok(#[trigger] ws[k])
}

/// The head of a written wave list: its wave parses, and what follows is
/// either a comma and the written rest, or nothing.
#[verifier::rlimit(100)]
proof fn lemma_waves_items_head(s: Seq<char>, i: int, ws: Seq<WaveModel>, d: nat)
    requires
        0 <= i,
        ws.len() >= 1,
        waves_ok(ws),
        lit_at(s, i, enc_waves_items(ws, d)),
    ensures
        p_wave(s, i) == Some(
            (ws.first(), (nl_indent(d + 1).len() + enc_wave(ws.first(), d + 1).len()) as nat),
        ),
        ws.len() > 1 ==> {
            let j = i + nl_indent(d + 1).len() + enc_wave(ws.first(), d + 1).len();
            &&& p_punct(s, j, ',') == Some(1nat)
            &&& lit_at(s, j + 1, enc_waves_items(ws.drop_first(), d))
            &&& j + 1 <= s.len()
        },
{
    let nl = nl_indent(d + 1);
    let w0 = ws.first();
    let ew = enc_wave(w0, d + 1);
    lemma_nl_indent_chars(d + 1);
    if ws.len() == 1 {
        assert(enc_waves_items(ws, d) == nl + ew + Seq::<char>::empty());
        assert(nl + ew + Seq::<char>::empty() =~= nl + ew);
        assert(lit_at(s, i, nl + ew));
        lemma_lit_concat(s, i, nl, ew);
        lemma_lit_char_at(s, i + nl.len(), ew, 0);
        assert(ew[0] == '{');
        assert(s[i + nl.len()] == '{');
        lemma_ws_nl_indent(s, i, d + 1);
        lemma_wave_ws(s, i, nl.len(), w0, d + 1);
    } else {
        let rest_items = enc_waves_items(ws.drop_first(), d);
        assert(enc_waves_items(ws, d) == nl + ew + (seq![','] + rest_items));
        assert(nl + ew + (seq![','] + rest_items) =~= (nl + ew) + (seq![','] + rest_items));
        assert(lit_at(s, i, (nl + ew) + (seq![','] + rest_items)));
        lemma_lit_concat(s, i, nl + ew, seq![','] + rest_items);
        lemma_lit_concat(s, i, nl, ew);
        let j = i + nl.len() + ew.len();
        lemma_lit_concat(s, j, seq![','], rest_items);
        lemma_lit_char_at(s, i + nl.len(), ew, 0);
        assert(ew[0] == '{');
        assert(s[i + nl.len()] == '{');
        lemma_ws_nl_indent(s, i, d + 1);
        lemma_wave_ws(s, i, nl.len(), w0, d + 1);
        lemma_lit_char_at(s, j, seq![','], 0);
        assert(s[j] == ',');
        lemma_ws_run(s, j, 0);
        lemma_punct_ws(s, j, 0, ',');
    }
}

/// Assembles a parsed wave list from its already-parsed pieces.
proof fn lemma_waves_cons(
    s: Seq<char>,
    i: int,
    w0: WaveModel,
    rest: Seq<WaveModel>,
    k1: nat,
    k2: nat,
    k3: nat,
)
    requires
        0 <= i,
        p_wave(s, i) == Some((w0, k1)),
        p_punct(s, i + k1, ',') == Some(k2),
        k1 + k2 >= 1,
        i + k1 + k2 <= s.len(),
        p_waves_items(s, i + k1 + k2) == Some((rest, k3)),
    ensures
        p_waves_items(s, i) == Some((seq![w0] + rest, (k1 + k2 + k3) as nat)),
{
}

/// A parsed wave list of one, from its already-parsed pieces.
proof fn lemma_waves_single(s: Seq<char>, i: int, w0: WaveModel, k1: nat)
    requires
        0 <= i,
        p_wave(s, i) == Some((w0, k1)),
        p_punct(s, i + k1, ',') is None,
    ensures
        p_waves_items(s, i) == Some((seq![w0], k1)),
{
}

/// A nonempty written wave list, followed by the closing line of its
/// array, parses back to the list.
#[verifier::rlimit(100)]
proof fn lemma_waves_items_at(s: Seq<char>, i: int, ws: Seq<WaveModel>, d: nat)
    requires
        0 <= i,
        ws.len() >= 1,
        waves_ok(ws),
        lit_at(s, i, enc_waves_items(ws, d)),
        lit_at(s, i + enc_waves_items(ws, d).len(), nl_indent(d) + seq![']']),
    ensures
        p_waves_items(s, i) == Some((ws, enc_waves_items(ws, d).len() as nat)),
    decreases ws.len(),
{
    let nl = nl_indent(d + 1);
    let w0 = ws.first();
    let ew = enc_wave(w0, d + 1);
    let k1 = (nl.len() + ew.len()) as nat;
    lemma_waves_items_head(s, i, ws, d);
    if ws.len() == 1 {
        assert(enc_waves_items(ws, d) == nl + ew + Seq::<char>::empty());
        let j = i + k1;
        assert(j == i + enc_waves_items(ws, d).len());
        lemma_closing_line(s, j, d, ']');
        lemma_waves_single(s, i, w0, k1);
        assert(seq![w0] =~= ws);
    } else {
        let rest = ws.drop_first();
        let rest_items = enc_waves_items(rest, d);
        assert(enc_waves_items(ws, d) == nl + ew + (seq![','] + rest_items));
        let j = i + k1;
        assert(rest.len() >= 1);
        assert(waves_ok(rest)) by {
            assert(forall|k: int| 0 <= k < rest.len() ==> rest[k] == ws[k + 1]);
        }
        assert(lit_at(s, j + 1 + rest_items.len(), nl_indent(d) + seq![']']));
        lemma_waves_items_at(s, j + 1, rest, d);
        lemma_waves_cons(s, i, w0, rest, k1, 1nat, rest_items.len() as nat);
        assert(seq![w0] + rest =~= ws);
    }
}

/// A nonempty written wave list opens with an indent and a brace.
#[verifier::rlimit(100)]
proof fn lemma_waves_items_open(s: Seq<char>, i: int, ws: Seq<WaveModel>, d: nat)
    requires
        0 <= i,
        ws.len() >= 1,
        lit_at(s, i, enc_waves_items(ws, d)),
    ensures
        ws_len(s, i) == nl_indent(d + 1).len(),
        i + ws_len(s, i) < s.len(),
        s[i + nl_indent(d + 1).len()] == '{',
{
    lemma_nl_indent_chars(d + 1);
    let ew0 = enc_wave(ws.first(), d + 1);
    let tail0 = if ws.len() > 1 {
        seq![','] + enc_waves_items(ws.drop_first(), d)
    } else {
        Seq::<char>::empty()
    };
    assert(enc_waves_items(ws, d) == nl_indent(d + 1) + ew0 + tail0);
    assert(nl_indent(d + 1) + ew0 + tail0 =~= nl_indent(d + 1) + (ew0 + tail0));
    assert(lit_at(s, i, nl_indent(d + 1) + (ew0 + tail0)));
    lemma_lit_concat(s, i, nl_indent(d + 1), ew0 + tail0);
    lemma_lit_char_at(s, i + nl_indent(d + 1).len(), ew0 + tail0, 0);
    assert(ew0[0] == '{');
    assert(s[i + nl_indent(d + 1).len()] == '{');
    lemma_ws_nl_indent(s, i, d + 1);
}

/// A written wave array parses back to its list after a known whitespace
/// run.
#[verifier::rlimit(100)]
proof fn lemma_waves_ws(s: Seq<char>, i: int, w: nat, ws: Seq<WaveModel>, d: nat)
    requires
        0 <= i,
        ws_len(s, i) == w,
        waves_ok(ws),
        lit_at(s, i + w, enc_waves(ws, d)),
    ensures
        p_waves(s, i) == Some((ws, (w + enc_waves(ws, d).len()) as nat)),
{
    let q = i + w;
    if ws.len() == 0 {
        assert(enc_waves(ws, d) == seq!['[', ']']);
        lemma_lit_char_at(s, q, seq!['[', ']'], 0);
        lemma_lit_char_at(s, q, seq!['[', ']'], 1);
        assert(s[q] == '[' && s[q + 1] == ']');
        lemma_punct_ws(s, i, w, '[');
        lemma_ws_run(s, q + 1, 0);
        lemma_punct_ws(s, q + 1, 0, ']');
        assert(Seq::<WaveModel>::empty() =~= ws);
    } else {
        let items = enc_waves_items(ws, d);
        assert(enc_waves(ws, d) == seq!['['] + items + nl_indent(d) + seq![']']);
        assert(seq!['['] + items + nl_indent(d) + seq![']'] =~= seq!['['] + (items + (nl_indent(d)
            + seq![']'])));
        assert(lit_at(s, q, seq!['['] + (items + (nl_indent(d) + seq![']']))));
        lemma_lit_concat(s, q, seq!['['], items + (nl_indent(d) + seq![']']));
        lemma_lit_concat(s, q + 1, items, nl_indent(d) + seq![']']);
        lemma_lit_char_at(s, q, seq!['['], 0);
        assert(s[q] == '[');
        lemma_punct_ws(s, i, w, '[');
        lemma_waves_items_open(s, q + 1, ws, d);
        lemma_punct_none(s, q + 1, ']');
        lemma_waves_items_at(s, q + 1, ws, d);
        let j = q + 1 + items.len();
        lemma_lit_concat(s, j, nl_indent(d), seq![']']);
        lemma_lit_char_at(s, j + nl_indent(d).len(), seq![']'], 0);
        assert(s[j + nl_indent(d).len()] == ']');
        lemma_nl_indent_chars(d);
        lemma_ws_nl_indent(s, j, d);
        lemma_punct_ws(s, j, nl_indent(d).len(), ']');
    }
}

/// Assembles a parsed unlock array from its already-parsed pieces.
proof fn lemma_unlocked_assemble(
    s: Seq<char>,
    i: int,
    b0: bool,
    b1: bool,
    b2: bool,
    b3: bool,
    k0: nat,
    k1: nat,
    k2: nat,
    k3: nat,
    k4: nat,
    k5: nat,
    k6: nat,
    k7: nat,
    k8: nat,
)
    requires
        p_punct(s, i, '[') == Some(k0),
        p_bool(s, i + k0) == Some((b0, k1)),
        p_punct(s, i + k0 + k1, ',') == Some(k2),
        p_bool(s, i + k0 + k1 + k2) == Some((b1, k3)),
        p_punct(s, i + k0 + k1 + k2 + k3, ',') == Some(k4),
        p_bool(s, i + k0 + k1 + k2 + k3 + k4) == Some((b2, k5)),
        p_punct(s, i + k0 + k1 + k2 + k3 + k4 + k5, ',') == Some(k6),
        p_bool(s, i + k0 + k1 + k2 + k3 + k4 + k5 + k6) == Some((b3, k7)),
        p_punct(s, i + k0 + k1 + k2 + k3 + k4 + k5 + k6 + k7, ']') == Some(k8),
    ensures
        p_unlocked(s, i) == Some(
            (seq![b0, b1, b2, b3], (k0 + k1 + k2 + k3 + k4 + k5 + k6 + k7 + k8) as nat),
        ),
{
}

/// The element runs of a written four-flag list parse in place.
#[verifier::rlimit(100)]
proof fn lemma_unlocked_body(s: Seq<char>, a0: int, flags: Seq<bool>, d: nat)
    requires
        0 <= a0,
        flags.len() == 4,
        lit_at(s, a0, enc_bools_items(flags, d)),
    ensures
        ({
            let nl = nl_indent(d + 1).len() as int;
            let a1 = a0 + nl + enc_bool(flags[0]).len() + 1;
            let a2 = a1 + nl + enc_bool(flags[1]).len() + 1;
            let a3 = a2 + nl + enc_bool(flags[2]).len() + 1;
            &&& p_bool(s, a0) == Some((flags[0], (nl + enc_bool(flags[0]).len()) as nat))
            &&& p_punct(s, a1 - 1, ',') == Some(1nat)
            &&& p_bool(s, a1) == Some((flags[1], (nl + enc_bool(flags[1]).len()) as nat))
            &&& p_punct(s, a2 - 1, ',') == Some(1nat)
            &&& p_bool(s, a2) == Some((flags[2], (nl + enc_bool(flags[2]).len()) as nat))
            &&& p_punct(s, a3 - 1, ',') == Some(1nat)
            &&& p_bool(s, a3) == Some((flags[3], (nl + enc_bool(flags[3]).len()) as nat))
        }),
{
    let nl = nl_indent(d + 1);
    let e0 = enc_bool(flags[0]);
    let e1 = enc_bool(flags[1]);
    let e2 = enc_bool(flags[2]);
    let e3 = enc_bool(flags[3]);
    lemma_bools_items4_shape(flags, d);
    let u3 = nl + e3;
    let v2 = seq![','] + u3;
    let u2 = nl + (e2 + v2);
    let v1 = seq![','] + u2;
    let u1 = nl + (e1 + v1);
    let v0 = seq![','] + u1;
    let u0 = nl + (e0 + v0);
    assert(enc_bools_items(flags, d) == u0);
    lemma_lit_concat(s, a0, nl, e0 + v0);
    let b0 = a0 + nl.len();
    lemma_lit_concat(s, b0, e0, v0);
    let c0 = b0 + e0.len();
    lemma_lit_concat(s, c0, seq![','], u1);
    let a1 = c0 + 1;
    lemma_lit_concat(s, a1, nl, e1 + v1);
    let b1 = a1 + nl.len();
    lemma_lit_concat(s, b1, e1, v1);
    let c1 = b1 + e1.len();
    lemma_lit_concat(s, c1, seq![','], u2);
    let a2 = c1 + 1;
    lemma_lit_concat(s, a2, nl, e2 + v2);
    let b2 = a2 + nl.len();
    lemma_lit_concat(s, b2, e2, v2);
    let c2 = b2 + e2.len();
    lemma_lit_concat(s, c2, seq![','], u3);
    let a3 = c2 + 1;
    lemma_lit_concat(s, a3, nl, e3);
    lemma_unlocked_walk(s, a0, a1, a2, a3, flags, d);
}

/// A written four-flag unlock array parses back after a known whitespace
/// run.
#[verifier::rlimit(100)]
proof fn lemma_unlocked_ws(s: Seq<char>, i: int, w: nat, flags: Seq<bool>, d: nat)
    requires
        0 <= i,
        flags.len() == 4,
        ws_len(s, i) == w,
        lit_at(s, i + w, enc_bools(flags, d)),
    ensures
        p_unlocked(s, i) == Some((flags, (w + enc_bools(flags, d).len()) as nat)),
{
    let q = i + w;
    let nl = nl_indent(d + 1);
    let e0 = enc_bool(flags[0]);
    let e1 = enc_bool(flags[1]);
    let e2 = enc_bool(flags[2]);
    let e3 = enc_bool(flags[3]);
    let items = enc_bools_items(flags, d);
    assert(enc_bools(flags, d) == seq!['['] + items + nl_indent(d) + seq![']']);
    assert(seq!['['] + items + nl_indent(d) + seq![']'] =~= seq!['['] + (items + (nl_indent(d)
        + seq![']'])));
    assert(lit_at(s, q, seq!['['] + (items + (nl_indent(d) + seq![']']))));
    lemma_lit_concat(s, q, seq!['['], items + (nl_indent(d) + seq![']']));
    lemma_lit_concat(s, q + 1, items, nl_indent(d) + seq![']']);
    lemma_lit_char_at(s, q, seq!['['], 0);
    assert(s[q] == '[');
    lemma_punct_ws(s, i, w, '[');
    lemma_unlocked_body(s, q + 1, flags, d);
    proof_bools_items4_len(flags, d);
    let j = q + 1 + items.len();
    lemma_closing_line(s, j, d, ']');
    lemma_unlocked_assemble(
        s,
        i,
        flags[0],
        flags[1],
        flags[2],
        flags[3],
        (w + 1) as nat,
        (nl.len() + e0.len()) as nat,
        1nat,
        (nl.len() + e1.len()) as nat,
        1nat,
        (nl.len() + e2.len()) as nat,
        1nat,
        (nl.len() + e3.len()) as nat,
        (nl_indent(d).len() + 1) as nat,
    );
    assert(seq![flags[0], flags[1], flags[2], flags[3]] =~= flags);
}

/// The written four-flag list measures as its parts.
proof fn proof_bools_items4_len(flags: Seq<bool>, d: nat)
    requires
        flags.len() == 4,
    ensures
        enc_bools_items(flags, d).len() == 4 * nl_indent(d + 1).len() + enc_bool(flags[0]).len()
            + enc_bool(flags[1]).len() + enc_bool(flags[2]).len() + enc_bool(flags[3]).len() + 3,
{
    lemma_bools_items4_shape(flags, d);
}

/// The four booleans and their separators parse in place.
#[verifier::rlimit(100)]
proof fn lemma_unlocked_walk(
    s: Seq<char>,
    a0: int,
    a1: int,
    a2: int,
    a3: int,
    flags: Seq<bool>,
    d: nat,
)
    requires
        0 <= a0,
        flags.len() == 4,
        lit_at(s, a0, nl_indent(d + 1)),
        lit_at(s, a0 + nl_indent(d + 1).len(), enc_bool(flags[0])),
        a1 == a0 + nl_indent(d + 1).len() + enc_bool(flags[0]).len() + 1,
        lit_at(s, a1 - 1, seq![',']),
        lit_at(s, a1, nl_indent(d + 1)),
        lit_at(s, a1 + nl_indent(d + 1).len(), enc_bool(flags[1])),
        a2 == a1 + nl_indent(d + 1).len() + enc_bool(flags[1]).len() + 1,
        lit_at(s, a2 - 1, seq![',']),
        lit_at(s, a2, nl_indent(d + 1)),
        lit_at(s, a2 + nl_indent(d + 1).len(), enc_bool(flags[2])),
        a3 == a2 + nl_indent(d + 1).len() + enc_bool(flags[2]).len() + 1,
        lit_at(s, a3 - 1, seq![',']),
        lit_at(s, a3, nl_indent(d + 1)),
        lit_at(s, a3 + nl_indent(d + 1).len(), enc_bool(flags[3])),
    ensures
        p_bool(s, a0) == Some((flags[0], (nl_indent(d + 1).len() + enc_bool(flags[0]).len()) as nat)),
        p_punct(s, a1 - 1, ',') == Some(1nat),
        p_bool(s, a1) == Some((flags[1], (nl_indent(d + 1).len() + enc_bool(flags[1]).len()) as nat)),
        p_punct(s, a2 - 1, ',') == Some(1nat),
        p_bool(s, a2) == Some((flags[2], (nl_indent(d + 1).len() + enc_bool(flags[2]).len()) as nat)),
        p_punct(s, a3 - 1, ',') == Some(1nat),
        p_bool(s, a3) == Some((flags[3], (nl_indent(d + 1).len() + enc_bool(flags[3]).len()) as nat)),
{
    let nl = nl_indent(d + 1);
    lemma_nl_indent_chars(d + 1);
    lemma_bool_first(flags[0]);
    lemma_bool_first(flags[1]);
    lemma_bool_first(flags[2]);
    lemma_bool_first(flags[3]);
    lemma_lit_char_at(s, a0 + nl.len(), enc_bool(flags[0]), 0);
    lemma_ws_nl_indent(s, a0, d + 1);
    lemma_bool_ws(s, a0, nl.len(), flags[0]);
    lemma_lit_char_at(s, a1 - 1, seq![','], 0);
    assert(s[a1 - 1 + 0] == ',');
    assert(s[a1 - 1] == ',');
    lemma_ws_run(s, a1 - 1, 0);
    lemma_punct_ws(s, a1 - 1, 0, ',');
    lemma_lit_char_at(s, a1 + nl.len(), enc_bool(flags[1]), 0);
    lemma_ws_nl_indent(s, a1, d + 1);
    lemma_bool_ws(s, a1, nl.len(), flags[1]);
    lemma_lit_char_at(s, a2 - 1, seq![','], 0);
    assert(s[a2 - 1 + 0] == ',');
    assert(s[a2 - 1] == ',');
    lemma_ws_run(s, a2 - 1, 0);
    lemma_punct_ws(s, a2 - 1, 0, ',');
    lemma_lit_char_at(s, a2 + nl.len(), enc_bool(flags[2]), 0);
    lemma_ws_nl_indent(s, a2, d + 1);
    lemma_bool_ws(s, a2, nl.len(), flags[2]);
    lemma_lit_char_at(s, a3 - 1, seq![','], 0);
    assert(s[a3 - 1 + 0] == ',');
    assert(s[a3 - 1] == ',');
    lemma_ws_run(s, a3 - 1, 0);
    lemma_punct_ws(s, a3 - 1, 0, ',');
    lemma_lit_char_at(s, a3 + nl.len(), enc_bool(flags[3]), 0);
    lemma_ws_nl_indent(s, a3, d + 1);
    lemma_bool_ws(s, a3, nl.len(), flags[3]);
}

/// The written shape of a four-flag list.
#[verifier::rlimit(100)]
proof fn lemma_bools_items4_shape(flags: Seq<bool>, d: nat)
    requires
        flags.len() == 4,
    ensures
        enc_bools_items(flags, d) == nl_indent(d + 1) + (enc_bool(flags[0]) + (seq![','] + (
        nl_indent(d + 1) + (enc_bool(flags[1]) + (seq![','] + (nl_indent(d + 1) + (enc_bool(
            flags[2],
        ) + (seq![','] + (nl_indent(d + 1) + enc_bool(flags[3])))))))))),
{
    let nl = nl_indent(d + 1);
    let r1 = flags.drop_first();
    let r2 = r1.drop_first();
    let r3 = r2.drop_first();
    assert(r1.len() == 3 && r1[0] == flags[1] && r1.first() == flags[1]);
    assert(r2.len() == 2 && r2[0] == flags[2] && r2.first() == flags[2]);
    assert(r3.len() == 1 && r3[0] == flags[3] && r3.first() == flags[3]);
    assert(enc_bools_items(r3, d) == nl + enc_bool(flags[3]) + Seq::<char>::empty());
    assert(enc_bools_items(r2, d) == nl + enc_bool(flags[2]) + (seq![','] + enc_bools_items(
        r3,
        d,
    )));
    assert(enc_bools_items(r1, d) == nl + enc_bool(flags[1]) + (seq![','] + enc_bools_items(
        r2,
        d,
    )));
    assert(enc_bools_items(flags, d) == nl + enc_bool(flags[0]) + (seq![','] + enc_bools_items(
        r1,
        d,
    )));
    assert(enc_bools_items(flags, d) =~= nl + (enc_bool(flags[0]) + (seq![','] + (nl + (enc_bool(
        flags[1],
    ) + (seq![','] + (nl + (enc_bool(flags[2]) + (seq![','] + (nl + enc_bool(
        flags[3],
    )))))))))));
}

/// The first character of a boolean literal is a letter.
proof fn lemma_bool_first(b: bool)
    ensures
        enc_bool(b).len() >= 1,
        !is_ws(enc_bool(b)[0]),
{
}

/// Key strings of a level are pairwise distinct, and plain.
proof fn lemma_level_keys()
    ensures
        str_waves() != str_background_file(),
        str_waves() != str_title(),
        str_waves() != str_unlocked(),
        str_background_file() != str_title(),
        str_background_file() != str_unlocked(),
        str_title() != str_unlocked(),
        plain_text(str_waves()),
        plain_text(str_background_file()),
        plain_text(str_title()),
        plain_text(str_unlocked()),
{
    assert(str_waves()[0] == 'w' && str_title()[0] == 't');
    assert(forall|j: int| 0 <= j < str_waves().len() ==> plain_char(#[trigger] str_waves()[j]));
    assert(forall|j: int|
        0 <= j < str_background_file().len() ==> plain_char(#[trigger] str_background_file()[j]));
    assert(forall|j: int| 0 <= j < str_title().len() ==> plain_char(#[trigger] str_title()[j]));
    assert(forall|j: int|
        0 <= j < str_unlocked().len() ==> plain_char(#[trigger] str_unlocked()[j]));
}


/// The written shape of a level's waves line.
proof fn lemma_level_seg1_shape(l: LevelModel, d: nat)
    ensures
        level_seg1(l, d) == nl_indent(d + 1) + enc_quoted(str_waves()) + seq![':', ' ']
            + enc_waves(l.waves, d + 1) + seq![','],
        level_seg1(l, d).len() == nl_indent(d + 1).len() + str_waves().len() + 4 + enc_waves(
            l.waves,
            d + 1,
        ).len() + 1,
{
    reveal(crate::json::level_seg1);
}

/// One parsed level entry, from its already-parsed pieces.
proof fn lemma_entry_eq_waves(s: Seq<char>, o: int, acc: LevelAcc, ws: Seq<WaveModel>, k1: nat, k2: nat, k3: nat)
    requires
        acc.waves is None,
        p_string(s, o) == Some((str_waves(), k1)),
        p_punct(s, o + k1, ':') == Some(k2),
        p_waves(s, o + k1 + k2) == Some((ws, k3)),
    ensures
        p_level_entry(s, o, acc) == Some((LevelAcc { waves: Some(ws), ..acc }, (k1 + k2 + k3) as nat)),
{
}

/// One parsed level field plus its separator steps the field list.
proof fn lemma_level_fields_cons(s: Seq<char>, o: int, acc: LevelAcc, acc2: LevelAcc, k1: nat, k2: nat)
    requires
        0 <= o,
        p_level_entry(s, o, acc) == Some((acc2, k1)),
        p_punct(s, o + k1, ',') == Some(k2),
        k1 + k2 >= 1,
        o + k1 + k2 <= s.len(),
    ensures
        p_level_fields(s, o, acc) == (match p_level_fields(s, o + k1 + k2, acc2) {
            Some((l, k3)) => Some((l, (k1 + k2 + k3) as nat)),
            None => None::<(LevelModel, nat)>,
        }),
{
}

/// The waves entry steps the level field parser.
#[verifier::rlimit(100)]
proof fn lemma_level_step_waves(s: Seq<char>, o: int, d: nat, acc: LevelAcc, ws: Seq<WaveModel>)
    requires
        0 <= o,
        acc.waves is None,
        waves_ok(ws),
        lit_at(
            s,
            o,
            nl_indent(d + 1) + enc_quoted(str_waves()) + seq![':', ' '] + enc_waves(ws, d + 1)
                + seq![','],
        ),
    ensures
        p_level_entry(s, o, acc) == Some(
            (
                LevelAcc { waves: Some(ws), ..acc },
                (nl_indent(d + 1).len() + str_waves().len() + 4 + enc_waves(ws, d + 1).len()) as nat,
            ),
        ),
        p_punct(
            s,
            o + nl_indent(d + 1).len() + str_waves().len() + 4 + enc_waves(ws, d + 1).len(),
            ',',
        ) == Some(1nat),
{
    lemma_waves_field_pos(s, o, d, ws);
    let k1 = (nl_indent(d + 1).len() + str_waves().len() + 2) as nat;
    let k3 = (1 + enc_waves(ws, d + 1).len()) as nat;
    lemma_entry_eq_waves(s, o, acc, ws, k1, 1nat, k3);
}

/// The pieces of a written waves line parse in place.
#[verifier::rlimit(100)]
proof fn lemma_waves_field_pos(s: Seq<char>, o: int, d: nat, ws: Seq<WaveModel>)
    requires
        0 <= o,
        waves_ok(ws),
        lit_at(
            s,
            o,
            nl_indent(d + 1) + enc_quoted(str_waves()) + seq![':', ' '] + enc_waves(ws, d + 1)
                + seq![','],
        ),
    ensures
        ({
            let k1 = (nl_indent(d + 1).len() + str_waves().len() + 2) as nat;
            let k3 = (1 + enc_waves(ws, d + 1).len()) as nat;
            &&& p_string(s, o) == Some((str_waves(), k1))
            &&& p_punct(s, o + k1, ':') == Some(1nat)
            &&& p_waves(s, o + k1 + 1) == Some((ws, k3))
            &&& p_punct(s, o + k1 + 1 + k3, ',') == Some(1nat)
        }),
{
    lemma_level_keys();
    let pre = nl_indent(d + 1) + enc_quoted(str_waves()) + seq![':', ' '];
    let ve = enc_waves(ws, d + 1);
    assert(pre + ve + seq![','] =~= pre + (ve + seq![',']));
    assert(lit_at(s, o, pre + (ve + seq![','])));
    lemma_lit_concat(s, o, pre, ve + seq![',']);
    let ov = o + pre.len();
    lemma_lit_concat(s, ov, ve, seq![',']);
    let oc = ov + ve.len();
    lemma_entry_prefix(s, o, d, str_waves());
    lemma_lit_char_at(s, ov, ve, 0);
    assert(ve[0] == '[');
    lemma_ws_space(s, ov - 1);
    lemma_waves_ws(s, ov - 1, 1, ws, d + 1);
    lemma_lit_char_at(s, oc, seq![','], 0);
    assert(s[oc] == ',');
    lemma_ws_run(s, oc, 0);
    lemma_punct_ws(s, oc, 0, ',');
}

/// One parsed string-valued level entry, from its already-parsed pieces.
proof fn lemma_entry_eq_string(
    s: Seq<char>,
    o: int,
    acc: LevelAcc,
    key: Seq<char>,
    content: Seq<char>,
    acc2: LevelAcc,
    k1: nat,
    k2: nat,
    k3: nat,
)
    requires
        p_string(s, o) == Some((key, k1)),
        p_punct(s, o + k1, ':') == Some(k2),
        p_string(s, o + k1 + k2) == Some((content, k3)),
        (key == str_background_file() && acc.background_file is None && acc2 == LevelAcc {
            background_file: Some(content),
            ..acc
        }) || (key == str_title() && acc.title is None && acc2 == LevelAcc {
            title: Some(content),
            ..acc
        }),
    ensures
        p_level_entry(s, o, acc) == Some((acc2, (k1 + k2 + k3) as nat)),
{
    lemma_level_keys();
}

/// A string-valued entry (resource key or title) steps the level field
/// parser.
#[verifier::rlimit(100)]
proof fn lemma_level_step_string(
    s: Seq<char>,
    o: int,
    d: nat,
    acc: LevelAcc,
    key: Seq<char>,
    acc2: LevelAcc,
    content: Seq<char>,
)
    requires
        0 <= o,
        plain_text(content),
        lit_at(
            s,
            o,
            nl_indent(d + 1) + enc_quoted(key) + seq![':', ' '] + enc_quoted(content)
                + seq![','],
        ),
        (key == str_background_file() && acc.background_file is None && acc2 == LevelAcc {
            background_file: Some(content),
            ..acc
        }) || (key == str_title() && acc.title is None && acc2 == LevelAcc {
            title: Some(content),
            ..acc
        }),
    ensures
        p_level_entry(s, o, acc) == Some(
            (acc2, (nl_indent(d + 1).len() + key.len() + 4 + content.len() + 2) as nat),
        ),
        p_punct(s, o + nl_indent(d + 1).len() + key.len() + 4 + content.len() + 2, ',') == Some(
            1nat,
        ),
{
    lemma_level_keys();
    let pre = nl_indent(d + 1) + enc_quoted(key) + seq![':', ' '];
    let ve = enc_quoted(content);
    let t = pre + ve + seq![','];
    assert(t =~= pre + (ve + seq![',']));
    lemma_lit_concat(s, o, pre, ve + seq![',']);
    let ov = o + pre.len();
    lemma_lit_concat(s, ov, ve, seq![',']);
    let oc = ov + ve.len();
    assert(plain_text(key));
    lemma_entry_prefix(s, o, d, key);
    lemma_lit_char_at(s, ov, ve, 0);
    assert(ve[0] == '"');
    lemma_ws_space(s, ov - 1);
    lemma_string_ws(s, ov - 1, 1, content);
    lemma_lit_char_at(s, oc, seq![','], 0);
    assert(s[oc] == ',');
    lemma_ws_run(s, oc, 0);
    lemma_punct_ws(s, oc, 0, ',');
    let k1 = (nl_indent(d + 1).len() + key.len() + 2) as nat;
    lemma_entry_eq_string(s, o, acc, key, content, acc2, k1, 1nat, (content.len() + 3) as nat);
}

/// The final (unlocked) entry and the closing brace finish the level field
/// parser.
#[verifier::rlimit(100)]
proof fn lemma_level_step_last(s: Seq<char>, o: int, d: nat, acc: LevelAcc, l: LevelModel)
    requires
        0 <= o,
        enc_level_ok(l),
        acc == (LevelAcc {
            waves: Some(l.waves),
            background_file: Some(l.background_file),
            title: Some(l.title),
            unlocked: None,
        }),
        lit_at(s, o, level_seg4(l, d)),
    ensures
        p_level_fields(s, o, acc) == Some((l, level_seg4(l, d).len() as nat)),
{
    reveal(crate::json::level_seg4);
    lemma_level_keys();
    let pre = nl_indent(d + 1) + enc_quoted(str_unlocked()) + seq![':', ' '];
    let ve = enc_bools(l.unlocked, d + 1);
    let closing = nl_indent(d) + seq!['}'];
    assert(level_seg4(l, d) =~= pre + (ve + closing));
    assert(lit_at(s, o, pre + (ve + closing)));
    lemma_lit_concat(s, o, pre, ve + closing);
    let ov = o + pre.len();
    lemma_lit_concat(s, ov, ve, closing);
    let oc = ov + ve.len();
    lemma_entry_prefix(s, o, d, str_unlocked());
    lemma_lit_char_at(s, ov, ve, 0);
    assert(ve[0] == '[');
    lemma_ws_space(s, ov - 1);
    lemma_unlocked_ws(s, ov - 1, 1, l.unlocked, d + 1);
    let acc2 = LevelAcc { unlocked: Some(l.unlocked), ..acc };
    assert(p_level_entry(s, o, acc) == Some((acc2, (oc - o) as nat)));
    lemma_lit_concat(s, oc, nl_indent(d), seq!['}']);
    lemma_lit_char_at(s, oc + nl_indent(d).len(), seq!['}'], 0);
    assert(s[oc + nl_indent(d).len()] == '}');
    lemma_nl_indent_chars(d);
    lemma_ws_nl_indent(s, oc, d);
    lemma_punct_none(s, oc, ',');
    lemma_punct_ws(s, oc, nl_indent(d).len(), '}');
    assert(LevelModel {
        waves: acc2.waves->0,
        background_file: acc2.background_file->0,
        title: acc2.title->0,
        unlocked: acc2.unlocked->0,
    } == l);
}

/// The last two fields of a written level finish the field parser.
#[verifier::rlimit(100)]
proof fn lemma_level_fields_tail(s: Seq<char>, o2: int, l: LevelModel, d: nat)
    requires
        0 <= o2,
        enc_level_ok(l),
        lit_at(s, o2, level_seg3(l, d) + level_seg4(l, d)),
    ensures
        p_level_fields(
            s,
            o2,
            LevelAcc {
                waves: Some(l.waves),
                background_file: Some(l.background_file),
                title: None,
                unlocked: None,
            },
        ) == Some((l, (level_seg3(l, d).len() + level_seg4(l, d).len()) as nat)),
{
    reveal(crate::json::level_seg3);
    let seg3 = level_seg3(l, d);
    let seg4 = level_seg4(l, d);
    lemma_lit_concat(s, o2, seg3, seg4);
    let o3 = o2 + seg3.len();
    let acc2 = LevelAcc {
        waves: Some(l.waves),
        background_file: Some(l.background_file),
        title: None,
        unlocked: None,
    };
    let acc3 = LevelAcc { title: Some(l.title), ..acc2 };
    assert(level_seg3(l, d) == nl_indent(d + 1) + enc_quoted(str_title()) + seq![':', ' ']
        + enc_quoted(l.title) + seq![',']) by {
        reveal(crate::json::level_seg3);
    }
    lemma_level_step_string(s, o2, d, acc2, str_title(), acc3, l.title);
    let ke = (nl_indent(d + 1).len() + str_title().len() + 4 + l.title.len() + 2) as nat;
    lemma_level_fields_cons(s, o2, acc2, acc3, ke, 1nat);
    lemma_level_step_last(s, o3, d, acc3, l);
    assert(seg3.len() == ke + 1) by {
        reveal(crate::json::level_seg3);
    }
}

/// A well-bounded level has well-bounded waves.
proof fn lemma_level_ok_waves(l: LevelModel)
    requires
        enc_level_ok(l),
    ensures
        waves_ok(l.waves),
{
    assert forall|k: int| 0 <= k < l.waves.len() implies wave_ok(#[trigger] l.waves[k]) by {
        assert(forall|g: int|
            0 <= g < l.waves[k].groups.len() ==> enc_group_ok(
                #[trigger] (#[trigger] l.waves[k]).groups[g],
            ));
    }
}

/// Assembles a parsed level from its already-parsed brace and fields.
proof fn lemma_level_assemble(s: Seq<char>, i: int, l: LevelModel, k0: nat, k1: nat)
    requires
        p_punct(s, i, '{') == Some(k0),
        p_level_fields(s, i + k0, level_acc_empty()) == Some((l, k1)),
    ensures
        p_level(s, i) == Some((l, (k0 + k1) as nat)),
{
}

/// The last three fields of a written level parse as a whole.
#[verifier::rlimit(100)]
proof fn lemma_level_fields_rest(s: Seq<char>, o1: int, l: LevelModel, d: nat)
    requires
        0 <= o1,
        enc_level_ok(l),
        lit_at(s, o1, level_seg2(l, d) + (level_seg3(l, d) + level_seg4(l, d))),
    ensures
        p_level_fields(s, o1, LevelAcc { waves: Some(l.waves), ..level_acc_empty() }) == Some(
            (
                l,
                (level_seg2(l, d).len() + level_seg3(l, d).len() + level_seg4(l, d).len()) as nat,
            ),
        ),
{
    let seg2 = level_seg2(l, d);
    lemma_lit_concat(s, o1, seg2, level_seg3(l, d) + level_seg4(l, d));
    let o2 = o1 + seg2.len();
    let acc1 = LevelAcc { waves: Some(l.waves), ..level_acc_empty() };
    let acc2 = LevelAcc { background_file: Some(l.background_file), ..acc1 };
    assert(level_seg2(l, d) == nl_indent(d + 1) + enc_quoted(str_background_file()) + seq![':',
        ' '] + enc_quoted(l.background_file) + seq![',']) by {
        reveal(crate::json::level_seg2);
    }
    lemma_level_step_string(s, o1, d, acc1, str_background_file(), acc2, l.background_file);
    let ke = (nl_indent(d + 1).len() + str_background_file().len() + 4 + l.background_file.len()
        + 2) as nat;
    lemma_level_fields_cons(s, o1, acc1, acc2, ke, 1nat);
    lemma_level_fields_tail(s, o2, l, d);
    assert(seg2.len() == ke + 1) by {
        reveal(crate::json::level_seg2);
    }
}

/// The four fields of a written level parse as a whole.
#[verifier::rlimit(100)]
proof fn lemma_level_fields_full(s: Seq<char>, o0: int, l: LevelModel, d: nat)
    requires
        0 <= o0,
        enc_level_ok(l),
        lit_at(s, o0, level_seg1(l, d) + (level_seg2(l, d) + (level_seg3(l, d) + level_seg4(l, d)))),
    ensures
        p_level_fields(s, o0, level_acc_empty()) == Some(
            (
                l,
                (level_seg1(l, d).len() + level_seg2(l, d).len() + level_seg3(l, d).len()
                    + level_seg4(l, d).len()) as nat,
            ),
        ),
{
    let seg1 = level_seg1(l, d);
    lemma_lit_concat(s, o0, seg1, level_seg2(l, d) + (level_seg3(l, d) + level_seg4(l, d)));
    let o1 = o0 + seg1.len();
    let acc0 = level_acc_empty();
    let acc1 = LevelAcc { waves: Some(l.waves), ..acc0 };
    lemma_level_ok_waves(l);
    lemma_level_seg1_shape(l, d);
    lemma_level_step_waves(s, o0, d, acc0, l.waves);
    let ke = (nl_indent(d + 1).len() + str_waves().len() + 4 + enc_waves(l.waves, d + 1).len())
        as nat;
    lemma_level_fields_cons(s, o0, acc0, acc1, ke, 1nat);
    lemma_level_fields_rest(s, o1, l, d);
    assert(seg1.len() == ke + 1);
}

/// A whole level object parses back to its model after a known whitespace
/// run.
#[verifier::rlimit(100)]
proof fn lemma_level_ws(s: Seq<char>, i: int, w: nat, l: LevelModel, d: nat)
    requires
        0 <= i,
        ws_len(s, i) == w,
        enc_level_ok(l),
        lit_at(s, i + w, enc_level(l, d)),
    ensures
        p_level(s, i) == Some((l, (w + enc_level(l, d).len()) as nat)),
{
    let q = i + w;
    let seg1 = level_seg1(l, d);
    let seg2 = level_seg2(l, d);
    let seg3 = level_seg3(l, d);
    let seg4 = level_seg4(l, d);
    lemma_lit_concat(s, q, seq!['{'], seg1 + (seg2 + (seg3 + seg4)));
    let o0 = q + 1;
    lemma_lit_char_at(s, q, seq!['{'], 0);
    assert(s[q] == '{');
    lemma_punct_ws(s, i, w, '{');
    lemma_level_fields_full(s, o0, l, d);
    lemma_level_assemble(
        s,
        i,
        l,
        (w + 1) as nat,
        (seg1.len() + seg2.len() + seg3.len() + seg4.len()) as nat,
    );
}

/// Every level of a list can be written and read back.
spec fn levels_ok(ls: Seq<LevelModel>) -> bool {
    forall|k: int| 0 <= k < ls.len() ==> enc_level_ok(#[trigger] ls[k])
}

/// A nonempty written level list opens with an indent and a brace.
#[verifier::rlimit(100)]
proof fn lemma_levels_items_open(s: Seq<char>, i: int, ls: Seq<LevelModel>)
    requires
        0 <= i,
        ls.len() >= 1,
        lit_at(s, i, enc_levels_items(ls, 0)),
    ensures
        ws_len(s, i) == nl_indent(1).len(),
        i + ws_len(s, i) < s.len(),
        s[i + nl_indent(1).len()] == '{',
{
    lemma_nl_indent_chars(1);
    let el0 = enc_level(ls.first(), 1);
    let tail0 = if ls.len() > 1 {
        seq![','] + enc_levels_items(ls.drop_first(), 0)
    } else {
        Seq::<char>::empty()
    };
    assert(enc_levels_items(ls, 0) == nl_indent(1) + el0 + tail0);
    assert(nl_indent(1) + el0 + tail0 =~= nl_indent(1) + (el0 + tail0));
    assert(lit_at(s, i, nl_indent(1) + (el0 + tail0)));
    lemma_lit_concat(s, i, nl_indent(1), el0 + tail0);
    lemma_lit_char_at(s, i + nl_indent(1).len(), el0 + tail0, 0);
    assert(el0[0] == '{');
    assert(s[i + nl_indent(1).len()] == '{');
    lemma_ws_nl_indent(s, i, 1);
}

/// Assembles a parsed level list from its already-parsed pieces.
proof fn lemma_levels_cons(
    s: Seq<char>,
    i: int,
    l0: LevelModel,
    rest: Seq<LevelModel>,
    k1: nat,
    k2: nat,
    k3: nat,
)
    requires
        0 <= i,
        p_level(s, i) == Some((l0, k1)),
        p_punct(s, i + k1, ',') == Some(k2),
        k1 + k2 >= 1,
        i + k1 + k2 <= s.len(),
        p_levels_items(s, i + k1 + k2) == Some((rest, k3)),
    ensures
        p_levels_items(s, i) == Some((seq![l0] + rest, (k1 + k2 + k3) as nat)),
{
}

/// A parsed level list of one, from its already-parsed pieces.
proof fn lemma_levels_single(s: Seq<char>, i: int, l0: LevelModel, k1: nat)
    requires
        0 <= i,
        p_level(s, i) == Some((l0, k1)),
        p_punct(s, i + k1, ',') is None,
    ensures
        p_levels_items(s, i) == Some((seq![l0], k1)),
{
}

/// The head of a written level list: its level parses, and what follows
/// is either a comma and the written rest, or nothing.
#[verifier::rlimit(100)]
proof fn lemma_levels_items_head(s: Seq<char>, i: int, ls: Seq<LevelModel>)
    requires
        0 <= i,
        ls.len() >= 1,
        levels_ok(ls),
        lit_at(s, i, enc_levels_items(ls, 0)),
    ensures
        p_level(s, i) == Some(
            (ls.first(), (nl_indent(1).len() + enc_level(ls.first(), 1).len()) as nat),
        ),
        ls.len() > 1 ==> {
            let j = i + nl_indent(1).len() + enc_level(ls.first(), 1).len();
            &&& p_punct(s, j, ',') == Some(1nat)
            &&& lit_at(s, j + 1, enc_levels_items(ls.drop_first(), 0))
            &&& j + 1 <= s.len()
        },
{
    let nl = nl_indent(1);
    let l0 = ls.first();
    let el = enc_level(l0, 1);
    lemma_nl_indent_chars(1);
    if ls.len() == 1 {
        assert(enc_levels_items(ls, 0) == nl + el + Seq::<char>::empty());
        assert(nl + el + Seq::<char>::empty() =~= nl + el);
        assert(lit_at(s, i, nl + el));
        lemma_lit_concat(s, i, nl, el);
        lemma_lit_char_at(s, i + nl.len(), el, 0);
        assert(el[0] == '{');
        assert(s[i + nl.len()] == '{');
        lemma_ws_nl_indent(s, i, 1);
        lemma_level_ws(s, i, nl.len(), l0, 1);
    } else {
        let rest_items = enc_levels_items(ls.drop_first(), 0);
        assert(enc_levels_items(ls, 0) == nl + el + (seq![','] + rest_items));
        assert(nl + el + (seq![','] + rest_items) =~= (nl + el) + (seq![','] + rest_items));
        assert(lit_at(s, i, (nl + el) + (seq![','] + rest_items)));
        lemma_lit_concat(s, i, nl + el, seq![','] + rest_items);
        lemma_lit_concat(s, i, nl, el);
        let j = i + nl.len() + el.len();
        lemma_lit_concat(s, j, seq![','], rest_items);
        lemma_lit_char_at(s, i + nl.len(), el, 0);
        assert(el[0] == '{');
        assert(s[i + nl.len()] == '{');
        lemma_ws_nl_indent(s, i, 1);
        lemma_level_ws(s, i, nl.len(), l0, 1);
        lemma_lit_char_at(s, j, seq![','], 0);
        assert(s[j] == ',');
        lemma_ws_run(s, j, 0);
        lemma_punct_ws(s, j, 0, ',');
    }
}

/// A nonempty written level list, followed by the closing line of the
/// document, parses back to the list.
#[verifier::rlimit(100)]
proof fn lemma_levels_items_at(s: Seq<char>, i: int, ls: Seq<LevelModel>)
    requires
        0 <= i,
        ls.len() >= 1,
        levels_ok(ls),
        lit_at(s, i, enc_levels_items(ls, 0)),
        lit_at(s, i + enc_levels_items(ls, 0).len(), nl_indent(0) + seq![']']),
    ensures
        p_levels_items(s, i) == Some((ls, enc_levels_items(ls, 0).len() as nat)),
    decreases ls.len(),
{
    let nl = nl_indent(1);
    let l0 = ls.first();
    let el = enc_level(l0, 1);
    let k1 = (nl.len() + el.len()) as nat;
    lemma_levels_items_head(s, i, ls);
    if ls.len() == 1 {
        assert(enc_levels_items(ls, 0) == nl + el + Seq::<char>::empty());
        let j = i + k1;
        assert(j == i + enc_levels_items(ls, 0).len());
        lemma_closing_line(s, j, 0, ']');
        lemma_levels_single(s, i, l0, k1);
        assert(seq![l0] =~= ls);
    } else {
        let rest = ls.drop_first();
        let rest_items = enc_levels_items(rest, 0);
        assert(enc_levels_items(ls, 0) == nl + el + (seq![','] + rest_items));
        let j = i + k1;
        assert(rest.len() >= 1);
        assert(levels_ok(rest)) by {
            assert(forall|k: int| 0 <= k < rest.len() ==> rest[k] == ls[k + 1]);
        }
        assert(lit_at(s, j + 1 + rest_items.len(), nl_indent(0) + seq![']']));
        lemma_levels_items_at(s, j + 1, rest);
        lemma_levels_cons(s, i, l0, rest, k1, 1nat, rest_items.len() as nat);
        assert(seq![l0] + rest =~= ls);
    }
}

/// Assembles the parsed document from its already-parsed pieces.
proof fn lemma_catalog_assemble(s: Seq<char>, ls: Seq<LevelModel>, k1: nat, k2: nat)
    requires
        p_punct(s, 0, '[') == Some(1nat),
        p_punct(s, 1, ']') is None,
        p_levels_items(s, 1) == Some((ls, k1)),
        p_punct(s, 1 + k1 as int, ']') == Some(k2),
        1 + k1 + k2 == s.len(),
        ws_len(s, s.len() as int) == 0,
    ensures
        p_catalog(s) == Some(CatalogModel { levels: ls }),
{
}

/// The round-trip law: reading back a written catalog yields the same
/// model.  Together with the writer's and reader's exactness this says the
/// persisted document loses nothing.
pub proof fn lemma_catalog_roundtrip(m: CatalogModel)
    requires
        enc_catalog_ok(m),
    ensures
        p_catalog(enc_catalog(m)) == Some(m),
{
    if m.levels.len() == 0 {
        lemma_catalog_roundtrip_empty(m);
    } else {
        lemma_catalog_roundtrip_nonempty(m);
    }
}

#[verifier::rlimit(100)]
proof fn lemma_catalog_roundtrip_empty(m: CatalogModel)
    requires
        m.levels.len() == 0,
    ensures
        p_catalog(enc_catalog(m)) == Some(m),
{
    let s = enc_catalog(m);
    assert(s == seq!['[', ']']);
    assert(lit_at(s, 0, s)) by {
        assert(s.subrange(0, 2) =~= s);
    }
    lemma_lit_char_at(s, 0, s, 0);
    lemma_lit_char_at(s, 0, s, 1);
    assert(s[0] == '[' && s[1] == ']');
    lemma_ws_run(s, 0, 0);
    lemma_punct_ws(s, 0, 0, '[');
    lemma_ws_run(s, 1, 0);
    lemma_punct_ws(s, 1, 0, ']');
    assert(ws_len(s, 2) == 0);
    assert(CatalogModel { levels: Seq::empty() } == m) by {
        assert(m.levels =~= Seq::<LevelModel>::empty());
    }
}

#[verifier::rlimit(100)]
proof fn lemma_catalog_roundtrip_nonempty(m: CatalogModel)
    requires
        enc_catalog_ok(m),
        m.levels.len() >= 1,
    ensures
        p_catalog(enc_catalog(m)) == Some(m),
{
    let s = enc_catalog(m);
    {
        let items = enc_levels_items(m.levels, 0);
        assert(s == seq!['['] + items + nl_indent(0) + seq![']']);
        assert(lit_at(s, 0, s)) by {
            assert(s.subrange(0, s.len() as int) =~= s);
        }
        assert(s =~= seq!['['] + (items + (nl_indent(0) + seq![']'])));
        assert(lit_at(s, 0, seq!['['] + (items + (nl_indent(0) + seq![']']))));
        lemma_lit_concat(s, 0, seq!['['], items + (nl_indent(0) + seq![']']));
        lemma_lit_concat(s, 1, items, nl_indent(0) + seq![']']);
        lemma_lit_char_at(s, 0, seq!['['], 0);
        assert(s[0] == '[');
        lemma_ws_run(s, 0, 0);
        lemma_punct_ws(s, 0, 0, '[');
        // The immediate close probe fails on the first level's brace.
        lemma_levels_items_open(s, 1, m.levels);
        lemma_punct_none(s, 1, ']');
        // The levels, then the closing line, then the end.
        lemma_levels_items_at(s, 1, m.levels);
        let j: int = 1 + items.len() as int;
        lemma_closing_line(s, j, 0, ']');
        lemma_nl_indent_chars(0);
        assert(j + nl_indent(0).len() + 1 == s.len());
        assert(ws_len(s, s.len() as int) == 0);
        lemma_catalog_assemble(s, m.levels, items.len() as nat, (nl_indent(0).len() + 1) as nat);
        assert(CatalogModel { levels: m.levels } == m);
    }
}

/// The first character of an encoded speed is a digit.
proof fn lemma_speed_first_digit(milli: nat)
    ensures
        enc_speed(milli).len() >= 1,
        is_digit(enc_speed(milli)[0]),
        !is_ws(enc_speed(milli)[0]),
{
    let ip = milli / 1000;
    lemma_dec_digits_val(ip);
    let digs = dec_digits(ip);
    assert(is_digit(digs[0]));
    assert(enc_speed(milli)[0] == digs[0]);
}

proof fn lemma_small_val(fd: Seq<char>, d0: nat)
    requires
        d0 < 10,
        fd =~= seq![dec_digit(d0)],
    ensures
        digits_val(fd) == d0,
{
    crate::numbers::lemma_digit_roundtrip(d0);
    assert(fd.drop_last() =~= Seq::<char>::empty());
    assert(digits_val(Seq::<char>::empty()) == 0);
    assert(fd.last() == dec_digit(d0));
}

proof fn lemma_two_val(fd: Seq<char>, d0: nat, d1: nat)
    requires
        d0 < 10,
        d1 < 10,
        fd =~= seq![dec_digit(d0), dec_digit(d1)],
    ensures
        digits_val(fd) == d0 * 10 + d1,
{
    crate::numbers::lemma_digit_roundtrip(d0);
    crate::numbers::lemma_digit_roundtrip(d1);
    let p = fd.drop_last();
    assert(p =~= seq![dec_digit(d0)]);
    lemma_small_val(p, d0);
    assert(fd.last() == dec_digit(d1));
}

proof fn lemma_three_val(fd: Seq<char>, d0: nat, d1: nat, d2: nat)
    requires
        d0 < 10,
        d1 < 10,
        d2 < 10,
        fd =~= seq![dec_digit(d0), dec_digit(d1), dec_digit(d2)],
    ensures
        digits_val(fd) == d0 * 100 + d1 * 10 + d2,
{
    crate::numbers::lemma_digit_roundtrip(d2);
    let p = fd.drop_last();
    assert(p =~= seq![dec_digit(d0), dec_digit(d1)]);
    lemma_two_val(p, d0, d1);
    assert(fd.last() == dec_digit(d2));
}

} // verus!
