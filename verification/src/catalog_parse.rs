//! The executable reader for the persisted catalog document, proved to
//! behave exactly as the mathematical reader in `json`.  The input arrives
//! as characters; the embedding shell is responsible only for reading the
//! file and splitting it into characters.

use vstd::prelude::*;

use crate::json::{
    enc_bool, is_ws, lit_at, op_name, p_bool, p_catalog, p_group, p_group_entry, p_group_fields,
    p_groups, p_groups_items, p_level, p_level_entry, p_level_fields, p_levels_items, p_nat, p_op,
    p_punct, p_speed, p_string, p_unlocked, p_wave, p_wave_fields, p_waves, p_waves_items,
    content_len, digits_len, group_acc_empty, level_acc_empty, str_background_file, str_groups,
    str_max_number, str_min_number, str_num_ships, str_operation, str_speed, str_title,
    str_unlocked, str_waves, ws_len, GroupAcc, LevelAcc,
};
use crate::level::{Catalog, Level, Operation, Wave, WaveGroup};
use crate::numbers::{digits_val, is_digit};

verus! {

/// Relies on String::push: appends one character to the string.
pub assume_specification[ String::push ](s: &mut String, ch: char)
    ensures
        final(s)@ == old(s)@.push(ch),
;

fn is_ws_c(c: char) -> (r: bool)
    ensures
        r == is_ws(c),
{
    c == ' ' || c == '\n' || c == '\t' || c == '\r'
}

fn is_digit_c(c: char) -> (r: bool)
    ensures
        r == is_digit(c),
{
    c == '0' || c == '1' || c == '2' || c == '3' || c == '4' || c == '5' || c == '6' || c == '7'
        || c == '8' || c == '9'
}

fn is_plain_c(c: char) -> (r: bool)
    ensures
        r == crate::level::plain_char(c),
{
    let u = c as u32;
    32 <= u && u <= 126 && c != '"' && c != '\\'
}

fn e_ws(s: &Vec<char>, i: usize) -> (r: usize)
    requires
        i <= s@.len(),
    ensures
        r == ws_len(s@, i as int),
        i + r <= s@.len(),
    decreases s@.len() - i,
{
    if i < s.len() && is_ws_c(s[i]) {
        1 + e_ws(s, i + 1)
    } else {
        0
    }
}

fn e_digits_len(s: &Vec<char>, i: usize) -> (r: usize)
    requires
        i <= s@.len(),
    ensures
        r == digits_len(s@, i as int),
        i + r <= s@.len(),
    decreases s@.len() - i,
{
    if i < s.len() && is_digit_c(s[i]) {
        1 + e_digits_len(s, i + 1)
    } else {
        0
    }
}

fn e_content_len(s: &Vec<char>, i: usize) -> (r: usize)
    requires
        i <= s@.len(),
    ensures
        r == content_len(s@, i as int),
        i + r <= s@.len(),
    decreases s@.len() - i,
{
    if i < s.len() && is_plain_c(s[i]) {
        1 + e_content_len(s, i + 1)
    } else {
        0
    }
}

/// One punctuation character after whitespace; yields the position after
/// it.
fn e_punct(s: &Vec<char>, i: usize, c: char) -> (r: Option<usize>)
    requires
        i <= s@.len(),
    ensures
        r is Some <==> p_punct(s@, i as int, c) is Some,
        r matches Some(j) ==> i < j <= s@.len() && j - i == p_punct(s@, i as int, c)->0,
{
    let n = s.len();
    let k = e_ws(s, i);
    if i + k < n && s[i + k] == c {
        Some(i + k + 1)
    } else {
        None
    }
}

/// A quoted string of plain characters; yields its content and the
/// position after the closing quote.
fn e_string(s: &Vec<char>, i: usize) -> (r: Option<(String, usize)>)
    requires
        i <= s@.len(),
    ensures
        r is Some <==> p_string(s@, i as int) is Some,
        r matches Some(p) ==> {
            &&& i < p.1 <= s@.len()
            &&& p_string(s@, i as int) matches Some(q)
            &&& p.0@ == q.0
            &&& p.1 - i == q.1
        },
{
    let n = s.len();
    let k = e_ws(s, i);
    let q = i + k;
    if q < n && s[q] == '"' {
        let m = e_content_len(s, q + 1);
        if q + 1 + m < n && s[q + 1 + m] == '"' {
            let mut content = String::new();
            let mut j: usize = q + 1;
            while j < q + 1 + m
                invariant
                    q + 1 <= j <= q + 1 + m,
                    q + 1 + m < n,
                    n == s@.len(),
                    content@ == s@.subrange(q + 1, j as int),
                decreases q + 1 + m - j,
            {
                content.push(s[j]);
                proof {
                    assert(content@ =~= s@.subrange(q + 1, j + 1));
                }
                j = j + 1;
            }
            Some((content, q + 1 + m + 1))
        } else {
            None
        }
    } else {
        None
    }
}

/// An unsigned decimal number within the 32-bit range; yields its value
/// and the position after its digits.
fn e_nat(s: &Vec<char>, i: usize) -> (r: Option<(u32, usize)>)
    requires
        i <= s@.len(),
    ensures
        r is Some <==> p_nat(s@, i as int) is Some,
        r matches Some(p) ==> {
            &&& i < p.1 <= s@.len()
            &&& p_nat(s@, i as int) matches Some(q)
            &&& p.0 as nat == q.0
            &&& p.1 - i == q.1
        },
{
    let n = s.len();
    let k = e_ws(s, i);
    let j = i + k;
    let m = e_digits_len(s, j);
    if m == 0 {
        return None;
    }
    let ghost dseq = s@.subrange(j as int, j + m);
    proof {
        assert forall|t: int| 0 <= t < m implies is_digit(#[trigger] dseq[t]) by {
            lemma_digits_len_digits(s@, j as int, t);
        }
    }
    let mut acc: u64 = 0;
    let mut t: usize = 0;
    while t < m
        invariant
            0 <= t <= m,
            n == s@.len(),
            i <= s@.len(),
            j == i + k,
            k == ws_len(s@, i as int),
            m == digits_len(s@, j as int),
            m >= 1,
            j + m <= s@.len(),
            dseq == s@.subrange(j as int, j + m),
            dseq.len() == m,
            forall|u: int| 0 <= u < m ==> is_digit(#[trigger] dseq[u]),
            acc == digits_val(dseq.take(t as int)),
            acc <= 0xffff_ffff,
        decreases m - t,
    {
        let c = s[j + t];
        assert(c == dseq[t as int]);
        let d: u64 = if c == '0' {
            0
        } else if c == '1' {
            1
        } else if c == '2' {
            2
        } else if c == '3' {
            3
        } else if c == '4' {
            4
        } else if c == '5' {
            5
        } else if c == '6' {
            6
        } else if c == '7' {
            7
        } else if c == '8' {
            8
        } else {
            9
        };
        assert(d == crate::numbers::digit_val(dseq[t as int]));
        acc = acc * 10 + d;
        proof {
            let tk = dseq.take(t + 1);
            assert(tk.drop_last() =~= dseq.take(t as int));
            assert(tk.last() == dseq[t as int]);
            assert(digits_val(tk) == acc);
        }
        t = t + 1;
        if acc > 0xffff_ffff {
            proof {
                crate::numbers::lemma_digits_val_prefix_le(dseq, t as int);
                assert(dseq.take(dseq.len() as int) =~= dseq);
                assert(digits_val(dseq) > 0xffff_ffff);
            }
            return None;
        }
    }
    proof {
        assert(dseq.take(m as int) =~= dseq);
    }
    Some((acc as u32, j + m))
}

/// A sequence of all-digit characters as measured by `digits_len` is made
/// of digits.
proof fn lemma_digits_len_digits(s: Seq<char>, j: int, t: int)
    requires
        0 <= j,
        0 <= t < digits_len(s, j),
    ensures
        j + t < s.len() && is_digit(s[j + t]),
    decreases t,
{
    if t == 0 {
    } else {
        lemma_digits_len_digits(s, j + 1, t - 1);
    }
}

/// A speed in thousandths.
fn e_speed(s: &Vec<char>, i: usize) -> (r: Option<(u32, usize)>)
    requires
        i <= s@.len(),
    ensures
        r is Some <==> p_speed(s@, i as int) is Some,
        r matches Some(p) ==> {
            &&& i < p.1 <= s@.len()
            &&& p_speed(s@, i as int) matches Some(q)
            &&& p.0 as nat == q.0
            &&& p.1 - i == q.1
        },
{
    match e_nat(s, i) {
        Some((ip, j1)) => {
            let n = s.len();
            if j1 < n && s[j1] == '.' {
                let j = j1 + 1;
                let fm = e_digits_len(s, j);
                if 1 <= fm && fm <= 3 {
                    let ghost fseq = s@.subrange(j as int, j + fm);
                    proof {
                        assert forall|t: int| 0 <= t < fm implies is_digit(#[trigger] fseq[t]) by {
                            lemma_digits_len_digits(s@, j as int, t);
                        }
                        lemma_small_digits_val(fseq);
                    }
                    let f0 = digit_value(s[j]);
                    let frac: u64 = if fm == 1 {
                        f0 as u64
                    } else if fm == 2 {
                        (f0 * 10 + digit_value(s[j + 1])) as u64
                    } else {
                        (f0 * 100 + digit_value(s[j + 1]) * 10 + digit_value(s[j + 2])) as u64
                    };
                    proof {
                        lemma_digits_val_concrete(fseq);
                        assert(frac == digits_val(fseq));
                    }
                    let frac3: u64 = if fm == 1 {
                        frac * 100
                    } else if fm == 2 {
                        frac * 10
                    } else {
                        frac
                    };
                    let milli: u64 = (ip as u64) * 1000 + frac3;
                    if milli <= 0xffff_ffff {
                        Some((milli as u32, j + fm))
                    } else {
                        None
                    }
                } else {
                    None
                }
            } else {
                if ip <= 0xffff_ffff / 1000 {
                    Some((ip * 1000, j1))
                } else {
                    None
                }
            }
        },
        None => None,
    }
}

/// The numeric value of a digit character, zero for anything else.
fn digit_value(c: char) -> (r: u32)
    ensures
        is_digit(c) ==> r == crate::numbers::digit_val(c),
        r <= 9,
{
    if c == '0' {
        0
    } else if c == '1' {
        1
    } else if c == '2' {
        2
    } else if c == '3' {
        3
    } else if c == '4' {
        4
    } else if c == '5' {
        5
    } else if c == '6' {
        6
    } else if c == '7' {
        7
    } else if c == '8' {
        8
    } else {
        9
    }
}

/// A digit string of at most three digits has a value under a thousand.
proof fn lemma_small_digits_val(s: Seq<char>)
    requires
        s.len() <= 3,
        forall|u: int| 0 <= u < s.len() ==> is_digit(#[trigger] s[u]),
    ensures
        digits_val(s) < 1000,
{
    lemma_digits_val_concrete(s);
}

/// The value of a digit string of up to three digits, written out.
proof fn lemma_digits_val_concrete(s: Seq<char>)
    requires
        s.len() <= 3,
        forall|u: int| 0 <= u < s.len() ==> is_digit(#[trigger] s[u]),
    ensures
        s.len() == 1 ==> digits_val(s) == crate::numbers::digit_val(s[0]),
        s.len() == 2 ==> digits_val(s) == crate::numbers::digit_val(s[0]) * 10
            + crate::numbers::digit_val(s[1]),
        s.len() == 3 ==> digits_val(s) == crate::numbers::digit_val(s[0]) * 100
            + crate::numbers::digit_val(s[1]) * 10 + crate::numbers::digit_val(s[2]),
        digits_val(s) < 1000,
{
    if s.len() == 1 {
        assert(s.drop_last() =~= Seq::<char>::empty());
        assert(digits_val(Seq::<char>::empty()) == 0);
        assert(s.last() == s[0]);
        assert(crate::numbers::digit_val(s[0]) <= 9);
    } else if s.len() == 2 {
        let p = s.drop_last();
        assert(p.drop_last() =~= Seq::<char>::empty());
        assert(digits_val(Seq::<char>::empty()) == 0);
        assert(p.last() == s[0]);
        assert(s.last() == s[1]);
        assert(digits_val(p) == crate::numbers::digit_val(s[0]));
        assert(crate::numbers::digit_val(s[0]) <= 9);
        assert(crate::numbers::digit_val(s[1]) <= 9);
    } else if s.len() == 3 {
        let p = s.drop_last();
        let pp = p.drop_last();
        assert(pp.drop_last() =~= Seq::<char>::empty());
        assert(digits_val(Seq::<char>::empty()) == 0);
        assert(pp.last() == s[0]);
        assert(p.last() == s[1]);
        assert(s.last() == s[2]);
        assert(digits_val(pp) == crate::numbers::digit_val(s[0]));
        assert(digits_val(p) == digits_val(pp) * 10 + crate::numbers::digit_val(s[1]));
        assert(crate::numbers::digit_val(s[0]) <= 9);
        assert(crate::numbers::digit_val(s[1]) <= 9);
        assert(crate::numbers::digit_val(s[2]) <= 9);
    }
}

/// `true` or `false` after whitespace.
fn e_bool(s: &Vec<char>, i: usize) -> (r: Option<(bool, usize)>)
    requires
        i <= s@.len(),
    ensures
        r is Some <==> p_bool(s@, i as int) is Some,
        r matches Some(p) ==> {
            &&& i < p.1 <= s@.len()
            &&& p_bool(s@, i as int) matches Some(q)
            &&& p.0 == q.0
            &&& p.1 - i == q.1
        },
{
    let n = s.len();
    let k = e_ws(s, i);
    let j = i + k;
    if n - j >= 4 && s[j] == 't' && s[j + 1] == 'r' && s[j + 2] == 'u' && s[j + 3] == 'e' {
        proof {
            assert(s@.subrange(j as int, j + 4) =~= enc_bool(true));
            assert(lit_at(s@, j as int, enc_bool(true)));
        }
        Some((true, j + 4))
    } else if n - j >= 5 && s[j] == 'f' && s[j + 1] == 'a' && s[j + 2] == 'l' && s[j + 3] == 's'
        && s[j + 4] == 'e' {
        proof {
            assert(s@.subrange(j as int, j + 5) =~= enc_bool(false));
            assert(lit_at(s@, j as int, enc_bool(false)));
            assert(!lit_at(s@, j as int, enc_bool(true)));
        }
        Some((false, j + 5))
    } else {
        proof {
            if lit_at(s@, j as int, enc_bool(true)) {
                assert(s@.subrange(j as int, j + 4)[0] == s@[j as int]);
                assert(s@.subrange(j as int, j + 4)[1] == s@[j + 1]);
                assert(s@.subrange(j as int, j + 4)[2] == s@[j + 2]);
                assert(s@.subrange(j as int, j + 4)[3] == s@[j + 3]);
                assert(false);
            }
            if lit_at(s@, j as int, enc_bool(false)) {
                assert(s@.subrange(j as int, j + 5)[0] == s@[j as int]);
                assert(s@.subrange(j as int, j + 5)[1] == s@[j + 1]);
                assert(s@.subrange(j as int, j + 5)[2] == s@[j + 2]);
                assert(s@.subrange(j as int, j + 5)[3] == s@[j + 3]);
                assert(s@.subrange(j as int, j + 5)[4] == s@[j + 4]);
                assert(false);
            }
        }
        None
    }
}

/// A quoted operation name.
fn e_op(s: &Vec<char>, i: usize) -> (r: Option<(Operation, usize)>)
    requires
        i <= s@.len(),
    ensures
        r is Some <==> p_op(s@, i as int) is Some,
        r matches Some(p) ==> {
            &&& i < p.1 <= s@.len()
            &&& p_op(s@, i as int) matches Some(q)
            &&& p.0 == q.0
            &&& p.1 - i == q.1
        },
{
    proof {
        reveal_strlit("Add");
        reveal_strlit("Subtract");
        reveal_strlit("Multiply");
        reveal_strlit("Divide");
        assert("Add"@ =~= op_name(Operation::Add));
        assert("Subtract"@ =~= op_name(Operation::Subtract));
        assert("Multiply"@ =~= op_name(Operation::Multiply));
        assert("Divide"@ =~= op_name(Operation::Divide));
    }
    match e_string(s, i) {
        Some((name, j)) => {
            let add = String::from_str("Add");
            let sub = String::from_str("Subtract");
            let mul = String::from_str("Multiply");
            let div = String::from_str("Divide");
            if name == add {
                Some((Operation::Add, j))
            } else if name == sub {
                Some((Operation::Subtract, j))
            } else if name == mul {
                Some((Operation::Multiply, j))
            } else if name == div {
                Some((Operation::Divide, j))
            } else {
                None
            }
        },
        None => None,
    }
}

/// The unlock array: exactly four booleans.
fn e_unlocked(s: &Vec<char>, i: usize) -> (r: Option<(Vec<bool>, usize)>)
    requires
        i <= s@.len(),
    ensures
        r is Some <==> p_unlocked(s@, i as int) is Some,
        r matches Some(p) ==> {
            &&& i < p.1 <= s@.len()
            &&& p_unlocked(s@, i as int) matches Some(q)
            &&& p.0@ == q.0
            &&& p.1 - i == q.1
        },
{
    let j0 = match e_punct(s, i, '[') {
        Some(j) => j,
        None => {
            return None;
        },
    };
    let (b0, j1) = match e_bool(s, j0) {
        Some(p) => p,
        None => {
            return None;
        },
    };
    let j2 = match e_punct(s, j1, ',') {
        Some(j) => j,
        None => {
            return None;
        },
    };
    let (b1, j3) = match e_bool(s, j2) {
        Some(p) => p,
        None => {
            return None;
        },
    };
    let j4 = match e_punct(s, j3, ',') {
        Some(j) => j,
        None => {
            return None;
        },
    };
    let (b2, j5) = match e_bool(s, j4) {
        Some(p) => p,
        None => {
            return None;
        },
    };
    let j6 = match e_punct(s, j5, ',') {
        Some(j) => j,
        None => {
            return None;
        },
    };
    let (b3, j7) = match e_bool(s, j6) {
        Some(p) => p,
        None => {
            return None;
        },
    };
    let j8 = match e_punct(s, j7, ']') {
        Some(j) => j,
        None => {
            return None;
        },
    };
    let flags = vec![b0, b1, b2, b3];
    proof {
        assert(flags@ =~= seq![b0, b1, b2, b3]);
    }
    Some((flags, j8))
}

/// The partially gathered fields of a group object.
pub struct GroupAccE {
    pub operation: Option<Operation>,
    pub speed_milli: Option<u32>,
    pub num_ships: Option<u32>,
    pub max_number: Option<u32>,
    pub min_number: Option<u32>,
}

impl View for GroupAccE {
    type V = GroupAcc;

    open spec fn view(&self) -> GroupAcc {
        GroupAcc {
            operation: self.operation,
            speed_milli: match self.speed_milli {
                Some(v) => Some(v as nat),
                None => None,
            },
            num_ships: match self.num_ships {
                Some(v) => Some(v as nat),
                None => None,
            },
            max_number: match self.max_number {
                Some(v) => Some(v as nat),
                None => None,
            },
            min_number: match self.min_number {
                Some(v) => Some(v as nat),
                None => None,
            },
        }
    }
}

/// One `"key": value` pair of a group object.
#[verifier::rlimit(100)]
fn e_group_entry(s: &Vec<char>, i: usize, acc: GroupAccE) -> (r: Option<(GroupAccE, usize)>)
    requires
        i <= s@.len(),
    ensures
        r is Some <==> p_group_entry(s@, i as int, acc@) is Some,
        r matches Some(p) ==> {
            &&& i < p.1 <= s@.len()
            &&& p_group_entry(s@, i as int, acc@) matches Some(q)
            &&& p.0@ == q.0
            &&& p.1 - i == q.1
        },
{
    proof {
        reveal_strlit("operation");
        reveal_strlit("speed");
        reveal_strlit("num_ships");
        reveal_strlit("max_number");
        reveal_strlit("min_number");
        assert("operation"@ =~= str_operation());
        assert("speed"@ =~= str_speed());
        assert("num_ships"@ =~= str_num_ships());
        assert("max_number"@ =~= str_max_number());
        assert("min_number"@ =~= str_min_number());
    }
    let (key, j1) = match e_string(s, i) {
        Some(p) => p,
        None => {
            return None;
        },
    };
    let j2 = match e_punct(s, j1, ':') {
        Some(j) => j,
        None => {
            return None;
        },
    };
    if key == String::from_str("operation") && acc.operation.is_none() {
        match e_op(s, j2) {
            Some((v, j3)) => Some((GroupAccE { operation: Some(v), ..acc }, j3)),
            None => None,
        }
    } else if key == String::from_str("speed") && acc.speed_milli.is_none() {
        match e_speed(s, j2) {
            Some((v, j3)) => Some((GroupAccE { speed_milli: Some(v), ..acc }, j3)),
            None => None,
        }
    } else if key == String::from_str("num_ships") && acc.num_ships.is_none() {
        match e_nat(s, j2) {
            Some((v, j3)) => Some((GroupAccE { num_ships: Some(v), ..acc }, j3)),
            None => None,
        }
    } else if key == String::from_str("max_number") && acc.max_number.is_none() {
        match e_nat(s, j2) {
            Some((v, j3)) => Some((GroupAccE { max_number: Some(v), ..acc }, j3)),
            None => None,
        }
    } else if key == String::from_str("min_number") && acc.min_number.is_none() {
        match e_nat(s, j2) {
            Some((v, j3)) => Some((GroupAccE { min_number: Some(v), ..acc }, j3)),
            None => None,
        }
    } else {
        None
    }
}

/// The fields of a group object, in any order, each exactly once.
#[verifier::rlimit(100)]
fn e_group_fields(s: &Vec<char>, i: usize, acc: GroupAccE) -> (r: Option<(WaveGroup, usize)>)
    requires
        i <= s@.len(),
    ensures
        r is Some <==> p_group_fields(s@, i as int, acc@) is Some,
        r matches Some(p) ==> {
            &&& i < p.1 <= s@.len()
            &&& p_group_fields(s@, i as int, acc@) matches Some(q)
            &&& p.0@ == q.0
            &&& p.1 - i == q.1
        },
    decreases s@.len() - i,
{
    let (acc2, j1) = match e_group_entry(s, i, acc) {
        Some(p) => p,
        None => {
            return None;
        },
    };
    match e_punct(s, j1, ',') {
        Some(j2) => {
            match e_group_fields(s, j2, acc2) {
                Some((g, j3)) => Some((g, j3)),
                None => None,
            }
        },
        None => {
            match e_punct(s, j1, '}') {
                Some(j2) => {
                    match (acc2.operation, acc2.speed_milli, acc2.num_ships, acc2.max_number,
                        acc2.min_number) {
                        (Some(op), Some(sp), Some(ns), Some(mx), Some(mn)) => {
                            let g = WaveGroup {
                                operation: op,
                                speed_milli: sp,
                                num_ships: ns,
                                max_number: mx,
                                min_number: mn,
                            };
                            Some((g, j2))
                        },
                        _ => None,
                    }
                },
                None => None,
            }
        },
    }
}

fn e_group(s: &Vec<char>, i: usize) -> (r: Option<(WaveGroup, usize)>)
    requires
        i <= s@.len(),
    ensures
        r is Some <==> p_group(s@, i as int) is Some,
        r matches Some(p) ==> {
            &&& i < p.1 <= s@.len()
            &&& p_group(s@, i as int) matches Some(q)
            &&& p.0@ == q.0
            &&& p.1 - i == q.1
        },
{
    match e_punct(s, i, '{') {
        Some(j0) => {
            let acc = GroupAccE {
                operation: None,
                speed_milli: None,
                num_ships: None,
                max_number: None,
                min_number: None,
            };
            assert(acc@ == group_acc_empty());
            match e_group_fields(s, j0, acc) {
                Some((g, j1)) => Some((g, j1)),
                None => None,
            }
        },
        None => None,
    }
}

fn e_groups_items(s: &Vec<char>, i: usize) -> (r: Option<(Vec<WaveGroup>, usize)>)
    requires
        i <= s@.len(),
    ensures
        r is Some <==> p_groups_items(s@, i as int) is Some,
        r matches Some(p) ==> {
            &&& i < p.1 <= s@.len()
            &&& p_groups_items(s@, i as int) matches Some(q)
            &&& p.0@.map_values(|g: WaveGroup| g@) == q.0
            &&& p.1 - i == q.1
        },
    decreases s@.len() - i,
{
    let (g, j1) = match e_group(s, i) {
        Some(p) => p,
        None => {
            return None;
        },
    };
    match e_punct(s, j1, ',') {
        Some(j2) => {
            match e_groups_items(s, j2) {
                Some((mut gs, j3)) => {
                    gs.insert(0, g);
                    proof {
                        let q = p_groups_items(s@, i as int)->0;
                        assert(gs@.map_values(|g: WaveGroup| g@) =~= q.0);
                    }
                    Some((gs, j3))
                },
                None => None,
            }
        },
        None => {
            let gs = vec![g];
            proof {
                let q = p_groups_items(s@, i as int)->0;
                assert(gs@.map_values(|g: WaveGroup| g@) =~= q.0);
            }
            Some((gs, j1))
        },
    }
}

fn e_groups(s: &Vec<char>, i: usize) -> (r: Option<(Vec<WaveGroup>, usize)>)
    requires
        i <= s@.len(),
    ensures
        r is Some <==> p_groups(s@, i as int) is Some,
        r matches Some(p) ==> {
            &&& i < p.1 <= s@.len()
            &&& p_groups(s@, i as int) matches Some(q)
            &&& p.0@.map_values(|g: WaveGroup| g@) == q.0
            &&& p.1 - i == q.1
        },
{
    match e_punct(s, i, '[') {
        Some(j0) => {
            match e_punct(s, j0, ']') {
                Some(j1) => {
                    let gs: Vec<WaveGroup> = Vec::new();
                    proof {
                        let q = p_groups(s@, i as int)->0;
                        assert(gs@.map_values(|g: WaveGroup| g@) =~= q.0);
                    }
                    Some((gs, j1))
                },
                None => {
                    match e_groups_items(s, j0) {
                        Some((gs, j1)) => {
                            match e_punct(s, j1, ']') {
                                Some(j2) => Some((gs, j2)),
                                None => None,
                            }
                        },
                        None => None,
                    }
                },
            }
        },
        None => None,
    }
}

/// The single field of a wave object.
#[verifier::rlimit(100)]
fn e_wave_fields(s: &Vec<char>, i: usize) -> (r: Option<(Wave, usize)>)
    requires
        i <= s@.len(),
    ensures
        r is Some <==> p_wave_fields(s@, i as int) is Some,
        r matches Some(p) ==> {
            &&& i < p.1 <= s@.len()
            &&& p_wave_fields(s@, i as int) matches Some(q)
            &&& p.0@ == q.0
            &&& p.1 - i == q.1
        },
{
    proof {
        reveal_strlit("groups");
        assert("groups"@ =~= str_groups());
    }
    let (key, j1) = match e_string(s, i) {
        Some(p) => p,
        None => {
            return None;
        },
    };
    let j2 = match e_punct(s, j1, ':') {
        Some(j) => j,
        None => {
            return None;
        },
    };
    if key == String::from_str("groups") {
        match e_groups(s, j2) {
            Some((gs, j3)) => {
                match e_punct(s, j3, '}') {
                    Some(j4) => Some((Wave { groups: gs }, j4)),
                    None => None,
                }
            },
            None => None,
        }
    } else {
        None
    }
}

fn e_wave(s: &Vec<char>, i: usize) -> (r: Option<(Wave, usize)>)
    requires
        i <= s@.len(),
    ensures
        r is Some <==> p_wave(s@, i as int) is Some,
        r matches Some(p) ==> {
            &&& i < p.1 <= s@.len()
            &&& p_wave(s@, i as int) matches Some(q)
            &&& p.0@ == q.0
            &&& p.1 - i == q.1
        },
{
    match e_punct(s, i, '{') {
        Some(j0) => {
            match e_wave_fields(s, j0) {
                Some((w, j1)) => Some((w, j1)),
                None => None,
            }
        },
        None => None,
    }
}

fn e_waves_items(s: &Vec<char>, i: usize) -> (r: Option<(Vec<Wave>, usize)>)
    requires
        i <= s@.len(),
    ensures
        r is Some <==> p_waves_items(s@, i as int) is Some,
        r matches Some(p) ==> {
            &&& i < p.1 <= s@.len()
            &&& p_waves_items(s@, i as int) matches Some(q)
            &&& p.0@.map_values(|w: Wave| w@) == q.0
            &&& p.1 - i == q.1
        },
    decreases s@.len() - i,
{
    let (w, j1) = match e_wave(s, i) {
        Some(p) => p,
        None => {
            return None;
        },
    };
    match e_punct(s, j1, ',') {
        Some(j2) => {
            match e_waves_items(s, j2) {
                Some((mut ws, j3)) => {
                    ws.insert(0, w);
                    proof {
                        let q = p_waves_items(s@, i as int)->0;
                        assert(ws@.map_values(|w: Wave| w@) =~= q.0);
                    }
                    Some((ws, j3))
                },
                None => None,
            }
        },
        None => {
            let ws = vec![w];
            proof {
                let q = p_waves_items(s@, i as int)->0;
                assert(ws@.map_values(|w: Wave| w@) =~= q.0);
            }
            Some((ws, j1))
        },
    }
}

fn e_waves(s: &Vec<char>, i: usize) -> (r: Option<(Vec<Wave>, usize)>)
    requires
        i <= s@.len(),
    ensures
        r is Some <==> p_waves(s@, i as int) is Some,
        r matches Some(p) ==> {
            &&& i < p.1 <= s@.len()
            &&& p_waves(s@, i as int) matches Some(q)
            &&& p.0@.map_values(|w: Wave| w@) == q.0
            &&& p.1 - i == q.1
        },
{
    match e_punct(s, i, '[') {
        Some(j0) => {
            match e_punct(s, j0, ']') {
                Some(j1) => {
                    let ws: Vec<Wave> = Vec::new();
                    proof {
                        let q = p_waves(s@, i as int)->0;
                        assert(ws@.map_values(|w: Wave| w@) =~= q.0);
                    }
                    Some((ws, j1))
                },
                None => {
                    match e_waves_items(s, j0) {
                        Some((ws, j1)) => {
                            match e_punct(s, j1, ']') {
                                Some(j2) => Some((ws, j2)),
                                None => None,
                            }
                        },
                        None => None,
                    }
                },
            }
        },
        None => None,
    }
}

/// The partially gathered fields of a level object.
pub struct LevelAccE {
    pub waves: Option<Vec<Wave>>,
    pub background_file: Option<String>,
    pub title: Option<String>,
    pub unlocked: Option<Vec<bool>>,
}

impl View for LevelAccE {
    type V = LevelAcc;

    open spec fn view(&self) -> LevelAcc {
        LevelAcc {
            waves: match self.waves {
                Some(ws) => Some(ws@.map_values(|w: Wave| w@)),
                None => None,
            },
            background_file: match self.background_file {
                Some(b) => Some(b@),
                None => None,
            },
            title: match self.title {
                Some(t) => Some(t@),
                None => None,
            },
            unlocked: match self.unlocked {
                Some(u) => Some(u@),
                None => None,
            },
        }
    }
}

/// One `"key": value` pair of a level object.
#[verifier::rlimit(100)]
fn e_level_entry(s: &Vec<char>, i: usize, acc: LevelAccE) -> (r: Option<(LevelAccE, usize)>)
    requires
        i <= s@.len(),
    ensures
        r is Some <==> p_level_entry(s@, i as int, acc@) is Some,
        r matches Some(p) ==> {
            &&& i < p.1 <= s@.len()
            &&& p_level_entry(s@, i as int, acc@) matches Some(q)
            &&& p.0@ == q.0
            &&& p.1 - i == q.1
        },
{
    proof {
        reveal_strlit("waves");
        reveal_strlit("background_file");
        reveal_strlit("title");
        reveal_strlit("unlocked");
        assert("waves"@ =~= str_waves());
        assert("background_file"@ =~= str_background_file());
        assert("title"@ =~= str_title());
        assert("unlocked"@ =~= str_unlocked());
    }
    let (key, j1) = match e_string(s, i) {
        Some(p) => p,
        None => {
            return None;
        },
    };
    let j2 = match e_punct(s, j1, ':') {
        Some(j) => j,
        None => {
            return None;
        },
    };
    if key == String::from_str("waves") && acc.waves.is_none() {
        match e_waves(s, j2) {
            Some((v, j3)) => Some((LevelAccE { waves: Some(v), ..acc }, j3)),
            None => None,
        }
    } else if key == String::from_str("background_file") && acc.background_file.is_none() {
        match e_string(s, j2) {
            Some((v, j3)) => Some((LevelAccE { background_file: Some(v), ..acc }, j3)),
            None => None,
        }
    } else if key == String::from_str("title") && acc.title.is_none() {
        match e_string(s, j2) {
            Some((v, j3)) => Some((LevelAccE { title: Some(v), ..acc }, j3)),
            None => None,
        }
    } else if key == String::from_str("unlocked") && acc.unlocked.is_none() {
        match e_unlocked(s, j2) {
            Some((v, j3)) => Some((LevelAccE { unlocked: Some(v), ..acc }, j3)),
            None => None,
        }
    } else {
        None
    }
}

/// The fields of a level object, in any order, each exactly once.
#[verifier::rlimit(100)]
fn e_level_fields(s: &Vec<char>, i: usize, acc: LevelAccE) -> (r: Option<(Level, usize)>)
    requires
        i <= s@.len(),
    ensures
        r is Some <==> p_level_fields(s@, i as int, acc@) is Some,
        r matches Some(p) ==> {
            &&& i < p.1 <= s@.len()
            &&& p_level_fields(s@, i as int, acc@) matches Some(q)
            &&& p.0@ == q.0
            &&& p.1 - i == q.1
        },
    decreases s@.len() - i,
{
    let (acc2, j1) = match e_level_entry(s, i, acc) {
        Some(p) => p,
        None => {
            return None;
        },
    };
    match e_punct(s, j1, ',') {
        Some(j2) => {
            match e_level_fields(s, j2, acc2) {
                Some((l, j3)) => Some((l, j3)),
                None => None,
            }
        },
        None => {
            match e_punct(s, j1, '}') {
                Some(j2) => {
                    match (acc2.waves, acc2.background_file, acc2.title, acc2.unlocked) {
                        (Some(ws), Some(bg), Some(t), Some(u)) => {
                            let l = Level {
                                waves: ws,
                                background_file: bg,
                                title: t,
                                unlocked: u,
                            };
                            Some((l, j2))
                        },
                        _ => None,
                    }
                },
                None => None,
            }
        },
    }
}

fn e_level(s: &Vec<char>, i: usize) -> (r: Option<(Level, usize)>)
    requires
        i <= s@.len(),
    ensures
        r is Some <==> p_level(s@, i as int) is Some,
        r matches Some(p) ==> {
            &&& i < p.1 <= s@.len()
            &&& p_level(s@, i as int) matches Some(q)
            &&& p.0@ == q.0
            &&& p.1 - i == q.1
        },
{
    match e_punct(s, i, '{') {
        Some(j0) => {
            let acc = LevelAccE { waves: None, background_file: None, title: None, unlocked: None };
            assert(acc@ == level_acc_empty());
            match e_level_fields(s, j0, acc) {
                Some((l, j1)) => Some((l, j1)),
                None => None,
            }
        },
        None => None,
    }
}

fn e_levels_items(s: &Vec<char>, i: usize) -> (r: Option<(Vec<Level>, usize)>)
    requires
        i <= s@.len(),
    ensures
        r is Some <==> p_levels_items(s@, i as int) is Some,
        r matches Some(p) ==> {
            &&& i < p.1 <= s@.len()
            &&& p_levels_items(s@, i as int) matches Some(q)
            &&& p.0@.map_values(|l: Level| l@) == q.0
            &&& p.1 - i == q.1
        },
    decreases s@.len() - i,
{
    let (l, j1) = match e_level(s, i) {
        Some(p) => p,
        None => {
            return None;
        },
    };
    match e_punct(s, j1, ',') {
        Some(j2) => {
            match e_levels_items(s, j2) {
                Some((mut ls, j3)) => {
                    ls.insert(0, l);
                    proof {
                        let q = p_levels_items(s@, i as int)->0;
                        assert(ls@.map_values(|l: Level| l@) =~= q.0);
                    }
                    Some((ls, j3))
                },
                None => None,
            }
        },
        None => {
            let ls = vec![l];
            proof {
                let q = p_levels_items(s@, i as int)->0;
                assert(ls@.map_values(|l: Level| l@) =~= q.0);
            }
            Some((ls, j1))
        },
    }
}

/// Reads the whole persisted document.  Succeeds exactly when the
/// mathematical reader does, and yields the same catalog.
#[verifier::rlimit(100)]
pub fn parse_catalog(s: &Vec<char>) -> (r: Option<Catalog>)
    ensures
        r is Some <==> p_catalog(s@) is Some,
        r matches Some(c) ==> p_catalog(s@) == Some(c@),
{
    let n = s.len();
    let j0 = match e_punct(s, 0, '[') {
        Some(j) => j,
        None => {
            return None;
        },
    };
    match e_punct(s, j0, ']') {
        Some(j1) => {
            let k = e_ws(s, j1);
            if j1 + k == n {
                let c = Catalog { levels: Vec::new() };
                proof {
                    assert(c@.levels =~= p_catalog(s@)->0.levels);
                }
                Some(c)
            } else {
                None
            }
        },
        None => {
            match e_levels_items(s, j0) {
                Some((ls, j1)) => {
                    match e_punct(s, j1, ']') {
                        Some(j2) => {
                            let k = e_ws(s, j2);
                            if j2 + k == n {
                                let c = Catalog { levels: ls };
                                proof {
                                    assert(c@.levels =~= p_catalog(s@)->0.levels);
                                }
                                Some(c)
                            } else {
                                None
                            }
                        },
                        None => None,
                    }
                },
                None => None,
            }
        },
    }
}

} // verus!
