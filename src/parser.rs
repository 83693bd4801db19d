//! The parser: reads a text into an [`Expr`] and its dice rolls, exactly as
//! [`spec_parse`] describes.
use vstd::prelude::*;
use vstd::string::StringSliceAdditionalSpecFns;

use crate::dice::{DiceRoll, Exploding, KeepDrop};
use crate::expr::{Expr, ParseError, dice_leaves};
use crate::laws::{all_wf, lemma_rolls_are_leaves};
use vstd::utf8::{
    decode_utf8, encode_utf8_decode_utf8, encode_utf8_valid_utf8, is_char_boundary_iff_not_is_continuation_byte,
    is_continuation_byte,
};
use crate::grammar::{
    bytes_left, count_at, digit_len, digits_value, is_digit, is_name_char, is_space, name_len,
    is_dice_start, is_letter, is_number_start, is_operator, operator_text, selection, skip_space,
    spec_chain, spec_dice_roll, spec_modifiers, spec_number, spec_operation, spec_parse, spec_term,
};

verus! {

fn is_space_byte(c: u8) -> (r: bool)
    ensures
        r == is_space(c),
{
    c == 32 || c == 9 || c == 10 || c == 13
}

fn is_digit_byte(c: u8) -> (r: bool)
    ensures
        r == is_digit(c),
{
    48 <= c && c <= 57
}

fn is_name_byte(c: u8) -> (r: bool)
    ensures
        r == is_name_char(c),
{
    (97 <= c && c <= 122) || (65 <= c && c <= 90) || (48 <= c && c <= 57) || c == 95
}

/// The first position at or after `i` that is not whitespace.
fn space_end(b: &[u8], i: usize) -> (r: usize)
    requires
        i <= b@.len(),
    ensures
        r == skip_space(b@, i as int),
        i <= r <= b@.len(),
{
    let mut j = i;
    while j < b.len() && is_space_byte(b[j])
        invariant
            i <= j <= b@.len(),
            skip_space(b@, i as int) == skip_space(b@, j as int),
        decreases b@.len() - j,
    {
        j = j + 1;
    }
    j
}

/// The end of the run of digits that starts at `i`.
fn digit_end(b: &[u8], i: usize) -> (r: usize)
    requires
        i <= b@.len(),
    ensures
        r == i + digit_len(b@, i as int),
        r <= b@.len(),
{
    let mut j = i;
    while j < b.len() && is_digit_byte(b[j])
        invariant
            i <= j <= b@.len(),
            i + digit_len(b@, i as int) == j + digit_len(b@, j as int),
        decreases b@.len() - j,
    {
        j = j + 1;
    }
    j
}

/// The end of the run of name bytes that starts at `i`.
fn name_end(b: &[u8], i: usize) -> (r: usize)
    requires
        i <= b@.len(),
    ensures
        r == i + name_len(b@, i as int),
        r <= b@.len(),
{
    let mut j = i;
    while j < b.len() && is_name_byte(b[j])
        invariant
            i <= j <= b@.len(),
            i + name_len(b@, i as int) == j + name_len(b@, j as int),
        decreases b@.len() - j,
    {
        j = j + 1;
    }
    j
}

/// The digits of a run are all digits.
proof fn lemma_digit_run(s: Seq<u8>, i: int)
    requires
        0 <= i,
    ensures
        forall|k: int| i <= k < i + digit_len(s, i) ==> is_digit(#[trigger] s[k]),
    decreases bytes_left(s, i),
{
    if 0 <= i < s.len() && is_digit(s[i]) {
        lemma_digit_run(s, i + 1);
    }
}

/// A longer run of digits is worth at least as much as its prefix.
proof fn lemma_decimal_prefix(s: Seq<u8>, from: int, mid: int, to: int)
    requires
        0 <= from <= mid <= to <= s.len(),
        forall|k: int| from <= k < to ==> is_digit(#[trigger] s[k]),
    ensures
        digits_value(s, from, mid) <= digits_value(s, from, to),
    decreases to - mid,
{
    if mid < to {
        lemma_decimal_prefix(s, from, mid, to - 1);
        assert(s.subrange(from, to).drop_last() =~= s.subrange(from, to - 1));
    }
}

/// The value of the digits in `b[from..to]`, or `None` where it exceeds `u64`.
fn decimal_at(b: &[u8], from: usize, to: usize) -> (r: Option<u64>)
    requires
        from <= to <= b@.len(),
        forall|k: int| from <= k < to ==> is_digit(#[trigger] b@[k]),
    ensures
        match r {
            Some(v) => v == digits_value(b@, from as int, to as int),
            None => digits_value(b@, from as int, to as int) > u64::MAX,
        },
{
    let mut v: u64 = 0;
    let mut k = from;
    while k < to
        invariant
            from <= k <= to <= b@.len(),
            forall|j: int| from <= j < to ==> is_digit(#[trigger] b@[j]),
            v == digits_value(b@, from as int, k as int),
        decreases to - k,
    {
        assert(b@.subrange(from as int, k + 1).drop_last() =~= b@.subrange(from as int, k as int));
        let d = (b[k] - 48) as u64;
        let next = match v.checked_mul(10) {
            Some(t) => t.checked_add(d),
            None => None,
        };
        match next {
            Some(n) => {
                v = n;
            },
            None => {
                proof {
                    lemma_decimal_prefix(b@, from as int, k + 1, to as int);
                }
                return None;
            },
        }
        k = k + 1;
    }
    Some(v)
}

/// The count after a keep or drop modifier at `i`, and where it ends.
fn parse_count(b: &[u8], i: usize) -> (r: Result<(usize, usize), ParseError>)
    requires
        i <= b@.len(),
    ensures
        match count_at(b@, i as int) {
            Ok((n, len)) => r is Ok && r->Ok_0.0 == n && r->Ok_0.1 == i + len,
            Err(e) => r == Err::<(usize, usize), ParseError>(e),
        },
        r is Ok ==> i <= r->Ok_0.1 <= b@.len(),
{
    let end = digit_end(b, i);
    if end == i {
        return Ok((1, i));
    }
    proof {
        lemma_digit_run(b@, i as int);
    }
    match decimal_at(b, i, end) {
        Some(v) => {
            if v <= usize::MAX as u64 {
                Ok((v as usize, end))
            } else {
                Err(ParseError::InternalInvariantViolation { position: i })
            }
        },
        None => Err(ParseError::InternalInvariantViolation { position: i }),
    }
}

fn selection_of(c: u8, low: bool, n: usize) -> (r: KeepDrop)
    ensures
        r == selection(c, low, n),
{
    if c == 107 {
        if low {
            KeepDrop::KeepLowest(n)
        } else {
            KeepDrop::KeepHighest(n)
        }
    } else {
        if low {
            KeepDrop::DropLowest(n)
        } else {
            KeepDrop::DropHighest(n)
        }
    }
}

/// The modifiers of a dice roll from `i` on, and where they end.
fn parse_modifiers(b: &[u8], i: usize) -> (r: Result<(Exploding, KeepDrop, usize), ParseError>)
    requires
        i <= b@.len(),
    ensures
        match spec_modifiers(b@, i as int, Exploding::Never, KeepDrop::KeepAll) {
            Ok((ex, kd, end)) => r is Ok && r->Ok_0.0 == ex && r->Ok_0.1 == kd && r->Ok_0.2 == end,
            Err(e) => r == Err::<(Exploding, KeepDrop, usize), ParseError>(e),
        },
        r is Ok ==> i <= r->Ok_0.2 <= b@.len(),
{
    let mut j = i;
    let mut exploding = Exploding::Never;
    let mut keep_drop = KeepDrop::KeepAll;
    loop
        invariant
            i <= j <= b@.len(),
            spec_modifiers(b@, i as int, Exploding::Never, KeepDrop::KeepAll) == spec_modifiers(
                b@,
                j as int,
                exploding,
                keep_drop,
            ),
        decreases b@.len() - j,
    {
        if j < b.len() && b[j] == 33 {
            if j + 1 < b.len() && b[j + 1] == 33 {
                exploding = Exploding::Indefinite;
                j = j + 2;
            } else {
                exploding = Exploding::Once;
                j = j + 1;
            }
        } else if j < b.len() && (b[j] == 107 || b[j] == 100) {
            let c = b[j];
            let explicit = j + 1 < b.len() && (b[j + 1] == 104 || b[j + 1] == 108);
            let low = explicit && b[j + 1] == 108;
            let start = if explicit {
                j + 2
            } else {
                j + 1
            };
            match parse_count(b, start) {
                Ok((n, end)) => {
                    keep_drop = selection_of(c, low, n);
                    j = end;
                },
                Err(e) => {
                    return Err(e);
                },
            }
        } else {
            return Ok((exploding, keep_drop, j));
        }
    }
}

/// The dice roll at `i`, appended to `rolls`, and where it ends.
fn parse_dice_roll(b: &[u8], i: usize, rolls: &mut Vec<DiceRoll>) -> (r: Result<
    (Expr, usize),
    ParseError,
>)
    requires
        i <= b@.len() <= usize::MAX,
        is_dice_start(b@, i as int),
    ensures
        match spec_dice_roll(b@, i as int) {
            Ok((roll, end)) => r is Ok && r->Ok_0.0 == Expr::DiceRoll(roll) && r->Ok_0.1 == end
                && final(rolls)@ == old(rolls)@.push(roll),
            Err(e) => r == Err::<(Expr, usize), ParseError>(e),
        },
        r is Ok ==> i < r->Ok_0.1 <= b@.len(),
{
    let count_end = digit_end(b, i);
    let size_at = count_end + 1;
    proof {
        lemma_digit_run(b@, i as int);
        lemma_digit_run(b@, size_at as int);
    }
    let count = decimal_at(b, i, count_end);
    let (size, size_end): (Option<u64>, usize) = if b[size_at] == 37 {
        (Some(100), size_at + 1)
    } else {
        let e = digit_end(b, size_at);
        (decimal_at(b, size_at, e), e)
    };
    let num_dice: usize = match count {
        Some(v) => {
            if v <= usize::MAX as u64 {
                v as usize
            } else {
                return Err(ParseError::InternalInvariantViolation { position: i });
            }
        },
        None => {
            return Err(ParseError::InternalInvariantViolation { position: i });
        },
    };
    let die_size: usize = match size {
        Some(v) => {
            if v <= usize::MAX as u64 {
                v as usize
            } else {
                return Err(ParseError::InternalInvariantViolation { position: size_at });
            }
        },
        None => {
            return Err(ParseError::InternalInvariantViolation { position: size_at });
        },
    };
    if die_size == 0 {
        return Err(ParseError::GrammarError { position: size_at });
    }
    match parse_modifiers(b, size_end) {
        Ok((exploding, keep_drop, end)) => {
            let num_dice = if count_end == i {
                1
            } else {
                num_dice
            };
            let roll = DiceRoll::new(num_dice, die_size, exploding, keep_drop);
            rolls.push(roll);
            Ok((Expr::DiceRoll(roll), end))
        },
        Err(e) => Err(e),
    }
}

/// The number at `i` and where it ends.
fn parse_number(b: &[u8], i: usize) -> (r: Result<(i64, usize), ParseError>)
    requires
        i <= b@.len(),
        is_number_start(b@, i as int),
    ensures
        match spec_number(b@, i as int) {
            Ok((v, end)) => r is Ok && r->Ok_0.0 == v && r->Ok_0.1 == end,
            Err(e) => r == Err::<(i64, usize), ParseError>(e),
        },
        r is Ok ==> i < r->Ok_0.1 <= b@.len(),
{
    let negative = b[i] == 45;
    let d = if negative {
        i + 1
    } else {
        i
    };
    let end = digit_end(b, d);
    proof {
        lemma_digit_run(b@, d as int);
    }
    match decimal_at(b, d, end) {
        Some(v) => {
            if negative {
                if v < 9223372036854775808u64 {
                    Ok((-(v as i64), end))
                } else if v == 9223372036854775808u64 {
                    Ok((i64::MIN, end))
                } else {
                    Err(ParseError::InternalInvariantViolation { position: i })
                }
            } else if v <= i64::MAX as u64 {
                Ok((v as i64, end))
            } else {
                Err(ParseError::InternalInvariantViolation { position: i })
            }
        },
        None => Err(ParseError::InternalInvariantViolation { position: i }),
    }
}

/// The text of the function name in `input[from..to]`.
fn name_text(input: &str, b: &[u8], from: usize, to: usize) -> (r: String)
    requires
        b@ == input.spec_bytes(),
        from < to < b@.len(),
        is_letter(b@[from as int]),
        !is_continuation_byte(b@[to as int]),
    ensures
        r@ == decode_utf8(b@.subrange(from as int, to as int)),
{
    proof {
        encode_utf8_valid_utf8(input@);
        is_char_boundary_iff_not_is_continuation_byte(b@, from as int);
    }
    let (_, rest) = input.split_at(from);
    proof {
        encode_utf8_valid_utf8(rest@);
        assert(rest.spec_bytes()[(to - from) as int] == b@[to as int]);
        is_char_boundary_iff_not_is_continuation_byte(rest.spec_bytes(), (to - from) as int);
    }
    let (name, _) = rest.split_at(to - from);
    proof {
        assert(name.spec_bytes() =~= b@.subrange(from as int, to as int));
        encode_utf8_decode_utf8(name@);
    }
    name.to_owned()
}

/// The text of an operator byte.
fn operator_string(c: u8) -> (r: String)
    requires
        is_operator(c),
    ensures
        r@ == operator_text(c),
{
    if c == 43 {
        proof {
            reveal_strlit("+");
        }
        "+".to_owned()
    } else if c == 45 {
        proof {
            reveal_strlit("-");
        }
        "-".to_owned()
    } else if c == 42 {
        proof {
            reveal_strlit("*");
        }
        "*".to_owned()
    } else {
        proof {
            reveal_strlit("/");
        }
        "/".to_owned()
    }
}

fn is_operator_byte(c: u8) -> (r: bool)
    ensures
        r == is_operator(c),
{
    c == 43 || c == 45 || c == 42 || c == 47
}

fn is_letter_byte(c: u8) -> (r: bool)
    ensures
        r == is_letter(c),
{
    (97 <= c && c <= 122) || (65 <= c && c <= 90)
}

/// Whether a dice roll starts at `i`.
fn dice_starts(b: &[u8], i: usize) -> (r: bool)
    requires
        i <= b@.len() <= usize::MAX,
    ensures
        r == is_dice_start(b@, i as int),
{
    let d = digit_end(b, i);
    d < b.len() && d + 1 < b.len() && b[d] == 100 && (b[d + 1] == 37 || is_digit_byte(b[d + 1]))
}

/// Whether a number starts at `i`.
fn number_starts(b: &[u8], i: usize) -> (r: bool)
    requires
        i <= b@.len() <= usize::MAX,
    ensures
        r == is_number_start(b@, i as int),
{
    let d = if i < b.len() && b[i] == 45 {
        i + 1
    } else {
        i
    };
    digit_end(b, d) > d
}

/// The term at `i`; its dice rolls are appended to `rolls`.
fn parse_term(input: &str, b: &[u8], i: usize, rolls: &mut Vec<DiceRoll>) -> (r: Result<
    (Expr, usize),
    ParseError,
>)
    requires
        b@ == input.spec_bytes(),
        i <= b@.len() <= usize::MAX,
    ensures
        match spec_term(b@, i as int) {
            Ok((e, found, len)) => r is Ok && r->Ok_0.0@ == e && r->Ok_0.1 == i + len
                && r->Ok_0.1 <= b@.len() && final(rolls)@ == old(rolls)@ + found,
            Err(err) => r == Err::<(Expr, usize), ParseError>(err),
        },
    decreases bytes_left(b@, i as int), 0nat,
{
    if dice_starts(b, i) {
        let ghost before = rolls@;
        let r = parse_dice_roll(b, i, rolls);
        proof {
            if r is Ok {
                assert(rolls@ =~= before + seq![r->Ok_0.0->DiceRoll_0]);
            }
        }
        r
    } else if i < b.len() && is_letter_byte(b[i]) {
        let end = name_end(b, i);
        let open = space_end(b, end);
        if open < b.len() && b[open] == 40 {
            match parse_operation(input, b, open + 1, rolls) {
                Ok((arg, arg_end)) => {
                    let close = space_end(b, arg_end);
                    if close < b.len() && b[close] == 41 {
                        let name = name_text(input, b, i, end);
                        Ok((Expr::Function(name, Box::new(arg)), close + 1))
                    } else {
                        Err(ParseError::GrammarError { position: close })
                    }
                },
                Err(e) => Err(e),
            }
        } else {
            Err(ParseError::GrammarError { position: open })
        }
    } else if number_starts(b, i) {
        match parse_number(b, i) {
            Ok((v, end)) => {
                proof {
                    assert(rolls@ =~= old(rolls)@ + Seq::<DiceRoll>::empty());
                }
                Ok((Expr::Number(v), end))
            },
            Err(e) => Err(e),
        }
    } else {
        Err(ParseError::GrammarError { position: i })
    }
}

/// The operation at `i`: a term and the operators and terms that follow it,
/// folded left to right. Its dice rolls are appended to `rolls`.
fn parse_operation(input: &str, b: &[u8], i: usize, rolls: &mut Vec<DiceRoll>) -> (r: Result<
    (Expr, usize),
    ParseError,
>)
    requires
        b@ == input.spec_bytes(),
        i <= b@.len() <= usize::MAX,
    ensures
        match spec_operation(b@, i as int) {
            Ok((e, found, end)) => r is Ok && r->Ok_0.0@ == e && r->Ok_0.1 == end
                && final(rolls)@ == old(rolls)@ + found,
            Err(err) => r == Err::<(Expr, usize), ParseError>(err),
        },
        r is Ok ==> i <= r->Ok_0.1 <= b@.len(),
    decreases bytes_left(b@, i as int), 1nat,
{
    let ghost base = rolls@;
    let start = space_end(b, i);
    let (mut acc, mut pos) = match parse_term(input, b, start, rolls) {
        Ok(t) => t,
        Err(e) => {
            return Err(e);
        },
    };
    let ghost mut found: Seq<DiceRoll> = spec_term(b@, start as int)->Ok_0.1;
    loop
        invariant
            b@ == input.spec_bytes(),
            i <= pos <= b@.len() <= usize::MAX,
            rolls@ == base + found,
            base == old(rolls)@,
            spec_operation(b@, i as int) == spec_chain(b@, pos as int, acc@, found),
        decreases b@.len() - pos,
    {
        let p = space_end(b, pos);
        if p < b.len() && is_operator_byte(b[p]) {
            let t = space_end(b, p + 1);
            let ghost more = spec_term(b@, t as int)->Ok_0.1;
            match parse_term(input, b, t, rolls) {
                Ok((rhs, end)) => {
                    let op = operator_string(b[p]);
                    acc = Expr::BinaryOp(Box::new(acc), op, Box::new(rhs));
                    pos = end;
                    proof {
                        assert(rolls@ =~= base + (found + more));
                        found = found + more;
                    }
                },
                Err(e) => {
                    return Err(e);
                },
            }
        } else {
            return Ok((acc, pos));
        }
    }
}

/// Reads `input` as dice notation: the expression tree, and every dice roll in it
/// from left to right.
pub fn parse(input: &str) -> (r: Result<(Expr, Vec<DiceRoll>), ParseError>)
    ensures
        match spec_parse(input.spec_bytes()) {
            Ok((e, found)) => r is Ok && r->Ok_0.0@ == e && r->Ok_0.1@ == found,
            Err(err) => r == Err::<(Expr, Vec<DiceRoll>), ParseError>(err),
        },
        r is Ok ==> r->Ok_0.1@ == dice_leaves(r->Ok_0.0@) && all_wf(r->Ok_0.1@),
{
    proof {
        lemma_rolls_are_leaves(input.spec_bytes());
    }
    let b = input.as_bytes();
    let len = b.len();
    let mut rolls: Vec<DiceRoll> = Vec::new();
    match parse_operation(input, b, 0, &mut rolls) {
        Ok((e, end)) => {
            let rest = space_end(b, end);
            if rest == len {
                proof {
                    assert(rolls@ =~= Seq::<DiceRoll>::empty() + spec_operation(b@, 0)->Ok_0.1);
                }
                Ok((e, rolls))
            } else {
                Err(ParseError::GrammarError { position: rest })
            }
        },
        Err(e) => Err(e),
    }
}

} // verus!
