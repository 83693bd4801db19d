//! What holds of every parse.
use vstd::prelude::*;
use vstd::string::StringSliceAdditionalSpecFns;

use crate::dice::{DiceRoll, Exploding, KeepDrop};
use crate::expr::{ExprView, dice_leaves};
use crate::expr::ParseError;
use crate::grammar::{
    bytes_left, count_at, decimal_value, digit_len, digits_value, is_digit, is_operator, name_len,
    operator_text, selection, skip_space, spec_chain, spec_modifiers, spec_operation, spec_parse,
    spec_term,
};

verus! {

/// Every roll in `rolls` has at least one face.
pub open spec fn all_wf(rolls: Seq<DiceRoll>) -> bool {
    forall|k: int| 0 <= k < rolls.len() ==> (#[trigger] rolls[k]).wf()
}

proof fn lemma_term_leaves(s: Seq<u8>, i: int)
    ensures
        spec_term(s, i) is Ok ==> spec_term(s, i)->Ok_0.1 == dice_leaves(spec_term(s, i)->Ok_0.0)
            && all_wf(spec_term(s, i)->Ok_0.1),
    decreases bytes_left(s, i), 0nat,
{
    if spec_term(s, i) is Ok {
        match spec_term(s, i)->Ok_0.0 {
            ExprView::Function(_, _) => {
                let name_end = i + name_len(s, i);
                let open = skip_space(s, name_end);
                lemma_operation_leaves(s, open + 1);
            },
            _ => {},
        }
    }
}

proof fn lemma_chain_leaves(s: Seq<u8>, i: int, acc: ExprView, rolls: Seq<DiceRoll>)
    requires
        rolls == dice_leaves(acc),
        all_wf(rolls),
    ensures
        spec_chain(s, i, acc, rolls) is Ok ==> spec_chain(s, i, acc, rolls)->Ok_0.1 == dice_leaves(
            spec_chain(s, i, acc, rolls)->Ok_0.0,
        ) && all_wf(spec_chain(s, i, acc, rolls)->Ok_0.1),
    decreases bytes_left(s, i), 0nat,
{
    let p = skip_space(s, i);
    if 0 <= p < s.len() && is_operator(s[p]) {
        let t = skip_space(s, p + 1);
        lemma_term_leaves(s, t);
        if spec_term(s, t) is Ok {
            let (rhs, more, len) = spec_term(s, t)->Ok_0;
            let next = ExprView::BinaryOp(Box::new(acc), operator_text(s[p]), Box::new(rhs));
            assert(dice_leaves(next) == rolls + more);
            assert(all_wf(rolls + more)) by {
                assert forall|k: int| 0 <= k < (rolls + more).len() implies (#[trigger] (rolls
                    + more)[k]).wf() by {
                    if k >= rolls.len() {
                        assert((rolls + more)[k] == more[k - rolls.len()]);
                    }
                }
            }
            lemma_chain_leaves(s, t + len, next, rolls + more);
        }
    }
}

proof fn lemma_operation_leaves(s: Seq<u8>, i: int)
    ensures
        spec_operation(s, i) is Ok ==> spec_operation(s, i)->Ok_0.1 == dice_leaves(
            spec_operation(s, i)->Ok_0.0,
        ) && all_wf(spec_operation(s, i)->Ok_0.1),
    decreases bytes_left(s, i), 1nat,
{
    let start = skip_space(s, i);
    lemma_term_leaves(s, start);
    if spec_term(s, start) is Ok {
        let (first, rolls, len) = spec_term(s, start)->Ok_0;
        lemma_chain_leaves(s, start + len, first, rolls);
    }
}

/// The roll list of a successful parse is exactly the dice-roll leaves of its
/// tree, left to right (across both operands of every operator and into function
/// arguments), and every roll in it has at least one face.
pub proof fn lemma_rolls_are_leaves(s: Seq<u8>)
    ensures
        spec_parse(s) is Ok ==> spec_parse(s)->Ok_0.1 == dice_leaves(spec_parse(s)->Ok_0.0)
            && all_wf(spec_parse(s)->Ok_0.1),
{
    lemma_operation_leaves(s, 0);
}

/// A run of digits from `i` to `j` ends at `j`.
proof fn lemma_digit_len_exact(s: Seq<u8>, i: int, j: int)
    requires
        0 <= i <= j <= s.len(),
        forall|k: int| i <= k < j ==> is_digit(#[trigger] s[k]),
        j == s.len() || !is_digit(s[j]),
    ensures
        digit_len(s, i) == j - i,
    decreases j - i,
{
    if i < j {
        lemma_digit_len_exact(s, i + 1, j);
    }
}

/// The text `N d M`, digits `count` (possibly none), `d`, digits `size`, reads as
/// the one roll of `N` dice (1 where `N` is left out) of `M` faces, with no
/// explosion and every die kept; it is both the tree and the whole roll list.
pub proof fn law_count_d_size(count: Seq<u8>, size: Seq<u8>)
    requires
        forall|k: int| 0 <= k < count.len() ==> is_digit(#[trigger] count[k]),
        forall|k: int| 0 <= k < size.len() ==> is_digit(#[trigger] size[k]),
        size.len() > 0,
        decimal_value(count) <= usize::MAX,
        0 < decimal_value(size) <= usize::MAX,
    ensures
        ({
            let roll = DiceRoll {
                num_dice: if count.len() == 0 {
                    1usize
                } else {
                    decimal_value(count) as usize
                },
                die_size: decimal_value(size) as usize,
                exploding: Exploding::Never,
                keep_drop: KeepDrop::KeepAll,
            };
            spec_parse(count + seq![100u8] + size) == Ok::<
                (ExprView, Seq<DiceRoll>),
                ParseError,
            >((ExprView::Roll(roll), seq![roll]))
        }),
{
    let s = count + seq![100u8] + size;
    let c = count.len() as int;
    assert forall|k: int| 0 <= k < c implies is_digit(#[trigger] s[k]) by {
        assert(s[k] == count[k]);
    }
    assert forall|k: int| c + 1 <= k < s.len() implies is_digit(#[trigger] s[k]) by {
        assert(s[k] == size[k - c - 1]);
    }
    assert(s[c] == 100u8);
    lemma_digit_len_exact(s, 0, c);
    lemma_digit_len_exact(s, c + 1, s.len() as int);
    assert(s.subrange(0, c) =~= count);
    assert(s.subrange(c + 1, s.len() as int) =~= size);
    assert(digits_value(s, 0, c) == decimal_value(count));
    assert(digits_value(s, c + 1, s.len() as int) == decimal_value(size));
    assert(spec_modifiers(s, s.len() as int, Exploding::Never, KeepDrop::KeepAll) == Ok::<
        (Exploding, KeepDrop, int),
        ParseError,
    >((Exploding::Never, KeepDrop::KeepAll, s.len() as int)));
    assert(skip_space(s, 0) == 0);
    assert(skip_space(s, s.len() as int) == s.len());
}

/// Modifiers without `!` leave the explosion setting as it was.
proof fn lemma_no_bang_keeps_exploding(s: Seq<u8>, i: int, exploding: Exploding, keep_drop: KeepDrop)
    requires
        0 <= i,
        forall|k: int| i <= k < s.len() ==> s[k] != 33,
    ensures
        spec_modifiers(s, i, exploding, keep_drop) is Ok ==> spec_modifiers(
            s,
            i,
            exploding,
            keep_drop,
        )->Ok_0.0 == exploding,
    decreases bytes_left(s, i),
{
    if 0 <= i < s.len() && (s[i] == 107 || s[i] == 100) {
        let explicit = i + 1 < s.len() && (s[i + 1] == 104 || s[i + 1] == 108);
        let low = explicit && s[i + 1] == 108;
        let start = if explicit {
            i + 2
        } else {
            i + 1
        };
        if count_at(s, start) is Ok {
            let (n, len) = count_at(s, start)->Ok_0;
            lemma_no_bang_keeps_exploding(
                s,
                start + len,
                exploding,
                selection(s[i], low, n),
            );
        }
    }
}

/// `!!` is one modifier, explode indefinitely: it overrides any explosion setting
/// read before it (a lone `!` among them), and where no `!` follows in the text,
/// the roll explodes indefinitely.
pub proof fn law_double_bang_indefinite(s: Seq<u8>, i: int, exploding: Exploding, keep_drop: KeepDrop)
    requires
        0 <= i,
        i + 1 < s.len(),
        s[i] == 33 && s[i + 1] == 33,
        forall|k: int| i + 2 <= k < s.len() ==> s[k] != 33,
    ensures
        spec_modifiers(s, i, exploding, keep_drop) == spec_modifiers(
            s,
            i + 2,
            Exploding::Indefinite,
            keep_drop,
        ),
        spec_modifiers(s, i, exploding, keep_drop) is Ok ==> spec_modifiers(
            s,
            i,
            exploding,
            keep_drop,
        )->Ok_0.0 == Exploding::Indefinite,
{
    lemma_no_bang_keeps_exploding(s, i + 2, Exploding::Indefinite, keep_drop);
}

/// Parsing depends on the text alone: two texts with the same characters parse
/// to the same tree and roll list, or fail with the same error.
pub proof fn law_parse_deterministic(a: &str, b: &str)
    requires
        a@ == b@,
    ensures
        spec_parse(a.spec_bytes()) == spec_parse(b.spec_bytes()),
{
}

} // verus!
