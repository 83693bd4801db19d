//! The dice-notation language, stated over the UTF-8 bytes of the input.
//!
//! ```text
//! expression := operation
//! operation  := term (operator term)*
//! term       := dice_roll | function | number
//! operator   := "+" | "-" | "*" | "/"
//! number     := "-"? digit+
//! function   := name "(" expression ")"
//! dice_roll  := digit* "d" (digit+ | "%") modifier*
//! modifier   := "!!" | "!" | ("kh" | "kl" | "k") digit* | ("dh" | "dl" | "d") digit*
//! ```
//!
//! Whitespace may stand between terms, operators and parentheses, not inside a
//! number or a dice roll. Operators chain left to right without precedence.
use vstd::prelude::*;
use vstd::utf8::decode_utf8;

use crate::dice::{DiceRoll, Exploding, KeepDrop};
use crate::expr::{ExprView, ParseError};

verus! {

pub open spec fn is_space(c: u8) -> bool {
    c == 32 || c == 9 || c == 10 || c == 13
}

pub open spec fn is_digit(c: u8) -> bool {
    48 <= c <= 57
}

pub open spec fn is_letter(c: u8) -> bool {
    (97 <= c <= 122) || (65 <= c <= 90)
}

/// Bytes that may continue a function name after its first letter.
pub open spec fn is_name_char(c: u8) -> bool {
    is_letter(c) || is_digit(c) || c == 95
}

pub open spec fn is_operator(c: u8) -> bool {
    c == 43 || c == 45 || c == 42 || c == 47
}

/// The operator's text as it is stored in the tree.
pub open spec fn operator_text(c: u8) -> Seq<char> {
    if c == 43 {
        seq!['+']
    } else if c == 45 {
        seq!['-']
    } else if c == 42 {
        seq!['*']
    } else {
        seq!['/']
    }
}

/// How many bytes of `s` lie at or after `i`.
pub open spec fn bytes_left(s: Seq<u8>, i: int) -> nat {
    if i < s.len() {
        (s.len() - i) as nat
    } else {
        0
    }
}

/// Number of whitespace bytes starting at `i`.
pub open spec fn space_len(s: Seq<u8>, i: int) -> nat
    decreases s.len() - i,
{
    if 0 <= i < s.len() && is_space(s[i]) {
        1 + space_len(s, i + 1)
    } else {
        0
    }
}

/// Number of decimal digits starting at `i`.
pub open spec fn digit_len(s: Seq<u8>, i: int) -> nat
    decreases s.len() - i,
{
    if 0 <= i < s.len() && is_digit(s[i]) {
        1 + digit_len(s, i + 1)
    } else {
        0
    }
}

/// Number of name bytes starting at `i`.
pub open spec fn name_len(s: Seq<u8>, i: int) -> nat
    decreases s.len() - i,
{
    if 0 <= i < s.len() && is_name_char(s[i]) {
        1 + name_len(s, i + 1)
    } else {
        0
    }
}

/// The first position at or after `i` that is not whitespace.
pub open spec fn skip_space(s: Seq<u8>, i: int) -> int {
    i + space_len(s, i)
}

/// The value of a run of decimal digits, most significant first.
pub open spec fn decimal_value(ds: Seq<u8>) -> nat
    decreases ds.len(),
{
    if ds.len() == 0 {
        0
    } else {
        decimal_value(ds.drop_last()) * 10 + (ds.last() - 48) as nat
    }
}

/// The value of the digits in `s[from..to]`.
pub open spec fn digits_value(s: Seq<u8>, from: int, to: int) -> nat {
    decimal_value(s.subrange(from, to))
}

/// The count after a keep or drop modifier, and the number of bytes it spans:
/// 1 where no digit follows.
pub open spec fn count_at(s: Seq<u8>, i: int) -> Result<(usize, nat), ParseError> {
    let n = digit_len(s, i);
    if n == 0 {
        Ok((1usize, 0nat))
    } else if digits_value(s, i, i + n) <= usize::MAX {
        Ok((digits_value(s, i, i + n) as usize, n))
    } else {
        Err(ParseError::InternalInvariantViolation { position: i as usize })
    }
}

/// The policy that a keep (`k`) or drop (`d`) modifier stands for.
pub open spec fn selection(c: u8, low: bool, n: usize) -> KeepDrop {
    if c == 107 {
        if low {
            KeepDrop::KeepLowest(n)
        } else {
            KeepDrop::KeepHighest(n)
        }
    } else {
        if low {
            KeepDrop::DropLowest(n)
        } else {
            KeepDrop::DropHighest(n)
        }
    }
}

/// Reads the modifiers from `i` on, starting from the given settings; each one
/// overwrites the setting of its kind. Returns the settings and where the run ends.
pub open spec fn spec_modifiers(s: Seq<u8>, i: int, exploding: Exploding, keep_drop: KeepDrop) -> Result<
    (Exploding, KeepDrop, int),
    ParseError,
>
    decreases bytes_left(s, i),
{
    if 0 <= i < s.len() && s[i] == 33 {
        if i + 1 < s.len() && s[i + 1] == 33 {
            spec_modifiers(s, i + 2, Exploding::Indefinite, keep_drop)
        } else {
            spec_modifiers(s, i + 1, Exploding::Once, keep_drop)
        }
    } else if 0 <= i < s.len() && (s[i] == 107 || s[i] == 100) {
        let explicit = i + 1 < s.len() && (s[i + 1] == 104 || s[i + 1] == 108);
        let low = explicit && s[i + 1] == 108;
        let start = if explicit {
            i + 2
        } else {
            i + 1
        };
        match count_at(s, start) {
            Ok((n, len)) => spec_modifiers(s, start + len, exploding, selection(s[i], low, n)),
            Err(e) => Err(e),
        }
    } else {
        Ok((exploding, keep_drop, i))
    }
}

/// A dice roll starts at `i`: optional digits, `d`, then a digit or `%`.
pub open spec fn is_dice_start(s: Seq<u8>, i: int) -> bool {
    let d = i + digit_len(s, i);
    0 <= i && d + 1 < s.len() && s[d] == 100 && (s[d + 1] == 37 || is_digit(s[d + 1]))
}

/// The dice roll at `i` (where [`is_dice_start`] holds) and where it ends.
pub open spec fn spec_dice_roll(s: Seq<u8>, i: int) -> Result<(DiceRoll, int), ParseError> {
    let count_len = digit_len(s, i);
    let count = digits_value(s, i, i + count_len);
    let size_at = i + count_len + 1;
    let percent = s[size_at] == 37;
    let size_len: nat = if percent {
        1
    } else {
        digit_len(s, size_at)
    };
    let size = if percent {
        100
    } else {
        digits_value(s, size_at, size_at + size_len)
    };
    if count > usize::MAX {
        Err(ParseError::InternalInvariantViolation { position: i as usize })
    } else if size > usize::MAX {
        Err(ParseError::InternalInvariantViolation { position: size_at as usize })
    } else if size == 0 {
        Err(ParseError::GrammarError { position: size_at as usize })
    } else {
        match spec_modifiers(s, size_at + size_len, Exploding::Never, KeepDrop::KeepAll) {
            Ok((exploding, keep_drop, end)) => Ok(
                (
                    DiceRoll {
                        num_dice: if count_len == 0 {
                            1usize
                        } else {
                            count as usize
                        },
                        die_size: size as usize,
                        exploding,
                        keep_drop,
                    },
                    end,
                ),
            ),
            Err(e) => Err(e),
        }
    }
}

/// A number starts at `i`: an optional minus sign, then a digit.
pub open spec fn is_number_start(s: Seq<u8>, i: int) -> bool {
    let d = if 0 <= i < s.len() && s[i] == 45 {
        i + 1
    } else {
        i
    };
    0 <= i && digit_len(s, d) > 0
}

/// The number at `i` (where [`is_number_start`] holds) and where it ends.
pub open spec fn spec_number(s: Seq<u8>, i: int) -> Result<(int, int), ParseError> {
    let negative = s[i] == 45;
    let d = if negative {
        i + 1
    } else {
        i
    };
    let n = digit_len(s, d);
    let magnitude = digits_value(s, d, d + n);
    let value = if negative {
        -magnitude
    } else {
        magnitude as int
    };
    if i64::MIN <= value <= i64::MAX {
        Ok((value, d + n))
    } else {
        Err(ParseError::InternalInvariantViolation { position: i as usize })
    }
}

/// The term at `i`: its tree, the dice rolls in it from left to right, and the
/// number of bytes it spans.
pub open spec fn spec_term(s: Seq<u8>, i: int) -> Result<(ExprView, Seq<DiceRoll>, nat), ParseError>
    decreases bytes_left(s, i), 0nat,
{
    if is_dice_start(s, i) {
        match spec_dice_roll(s, i) {
            Ok((roll, end)) => Ok((ExprView::Roll(roll), seq![roll], (end - i) as nat)),
            Err(e) => Err(e),
        }
    } else if 0 <= i < s.len() && is_letter(s[i]) {
        let name_end = i + name_len(s, i);
        let open = skip_space(s, name_end);
        if open < s.len() && s[open] == 40 {
            match spec_operation(s, open + 1) {
                Ok((arg, rolls, arg_end)) => {
                    let close = skip_space(s, arg_end);
                    if 0 <= close < s.len() && s[close] == 41 {
                        Ok(
                            (
                                ExprView::Function(
                                    decode_utf8(s.subrange(i, name_end)),
                                    Box::new(arg),
                                ),
                                rolls,
                                (close + 1 - i) as nat,
                            ),
                        )
                    } else {
                        Err(ParseError::GrammarError { position: close as usize })
                    }
                },
                Err(e) => Err(e),
            }
        } else {
            Err(ParseError::GrammarError { position: open as usize })
        }
    } else if is_number_start(s, i) {
        match spec_number(s, i) {
            Ok((value, end)) => Ok((ExprView::Number(value), seq![], (end - i) as nat)),
            Err(e) => Err(e),
        }
    } else {
        Err(ParseError::GrammarError { position: i as usize })
    }
}

/// The operators and terms that follow a left operand `acc` from `i` on, folded
/// left to right onto it. `rolls` holds the dice rolls found so far; the result
/// adds those of the terms read, and says where the chain ends.
pub open spec fn spec_chain(s: Seq<u8>, i: int, acc: ExprView, rolls: Seq<DiceRoll>) -> Result<
    (ExprView, Seq<DiceRoll>, int),
    ParseError,
>
    decreases bytes_left(s, i), 0nat,
{
    let p = skip_space(s, i);
    if 0 <= p < s.len() && is_operator(s[p]) {
        let t = skip_space(s, p + 1);
        match spec_term(s, t) {
            Ok((rhs, more, len)) => spec_chain(
                s,
                t + len,
                ExprView::BinaryOp(Box::new(acc), operator_text(s[p]), Box::new(rhs)),
                rolls + more,
            ),
            Err(e) => Err(e),
        }
    } else {
        Ok((acc, rolls, i))
    }
}

/// The operation at `i`: its tree, its dice rolls from left to right, and where
/// it ends.
pub open spec fn spec_operation(s: Seq<u8>, i: int) -> Result<
    (ExprView, Seq<DiceRoll>, int),
    ParseError,
>
    decreases bytes_left(s, i), 1nat,
{
    let start = skip_space(s, i);
    match spec_term(s, start) {
        Ok((first, rolls, len)) => spec_chain(s, start + len, first, rolls),
        Err(e) => Err(e),
    }
}

/// The whole text `s` read as one expression: its tree and its dice rolls from
/// left to right. Only whitespace may follow the expression.
pub open spec fn spec_parse(s: Seq<u8>) -> Result<(ExprView, Seq<DiceRoll>), ParseError> {
    match spec_operation(s, 0) {
        Ok((e, rolls, end)) => {
            let rest = skip_space(s, end);
            if rest == s.len() {
                Ok((e, rolls))
            } else {
                Err(ParseError::GrammarError { position: rest as usize })
            }
        },
        Err(e) => Err(e),
    }
}

} // verus!
