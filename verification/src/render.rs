//! Fixed-width rendering of one arithmetic expression.

use crate::utils::{
    char_len, dec_spec, digit_count, is_digit_char, lemma_dec_spec_digits, lemma_dec_spec_len,
    push_char, repeat_char, repeat_char_string, u16_to_string,
};
use vstd::prelude::*;
use vstd::string::StringExecFns;

verus! {

/// `s` left-padded with spaces to width `w` (unchanged when already wide
/// enough).
pub open spec fn pad_left(s: Seq<char>, w: nat) -> Seq<char> {
    if s.len() < w {
        repeat_char(' ', (w - s.len()) as nat) + s
    } else {
        s
    }
}

/// `s` right-padded with spaces to width `w` (unchanged when already wide
/// enough).
pub open spec fn pad_right(s: Seq<char>, w: nat) -> Seq<char> {
    if s.len() < w {
        s + repeat_char(' ', (w - s.len()) as nat)
    } else {
        s
    }
}

/// The rendered form of one expression: the left operand right-justified
/// to width `w`, the operator between single spaces, the right operand
/// left-justified to width `w`, and a trailing equals sign.
pub open spec fn render_expr_spec(l: u16, r: u16, op: char, w: nat) -> Seq<char> {
    pad_left(dec_spec(l as nat), w) + seq![' ', op, ' '] + pad_right(dec_spec(r as nat), w)
        + seq!['=']
}

/// The operand width used for rendering: the digit count of the largest
/// drawable number.
pub open spec fn expr_width(number_max: u16) -> nat {
    digit_count(number_max as nat)
}

/// Computes the rendering width for the given largest drawable number.
pub fn expr_width_exec(number_max: u16) -> (w: u16)
    ensures
        w == expr_width(number_max),
        1 <= w <= 5,
{
    proof {
        crate::utils::lemma_digit_count_u16(number_max as nat);
    }
    char_len(number_max)
}

/// Renders `l op r=` with both operands padded to width `w`.
pub fn render_expr(l: u16, r: u16, op: char, w: u16) -> (s: String)
    ensures
        s@ == render_expr_spec(l, r, op, w as nat),
{
    proof {
        lemma_dec_spec_len(l as nat);
        lemma_dec_spec_len(r as nat);
    }
    let lw = char_len(l);
    let mut s = if lw < w {
        repeat_char_string(' ', w - lw)
    } else {
        String::new()
    };
    let ldigits = u16_to_string(l);
    s.append(ldigits.as_str());
    assert(s@ =~= pad_left(dec_spec(l as nat), w as nat));
    push_char(&mut s, ' ');
    push_char(&mut s, op);
    push_char(&mut s, ' ');
    let rdigits = u16_to_string(r);
    s.append(rdigits.as_str());
    let rw = char_len(r);
    if rw < w {
        let pad = repeat_char_string(' ', w - rw);
        s.append(pad.as_str());
    }
    push_char(&mut s, '=');
    assert(s@ =~= render_expr_spec(l, r, op, w as nat));
    s
}

/// Whether `s` consists of one or more decimal digits.
pub open spec fn all_digits(s: Seq<char>) -> bool {
    s.len() >= 1 && forall|i: int| 0 <= i < s.len() ==> is_digit_char(#[trigger] s[i])
}

/// The shape every rendered expression takes when the right operand fills
/// its column: leading spaces, digits, a spaced operator, digits, and a
/// final equals sign.
pub open spec fn expr_shape(s: Seq<char>, op: char) -> bool {
    exists|p: nat, dl: Seq<char>, dr: Seq<char>|
        all_digits(dl) && all_digits(dr) && s == repeat_char(' ', p) + dl + seq![' ', op, ' ']
            + dr + seq!['=']
}

/// The rendering law: whenever the right operand is at least as wide as
/// the configured column, the rendered expression consists of optional
/// leading spaces, the left operand's digits, the operator between single
/// spaces, the right operand's digits, and a final equals sign — with no
/// stray padding before the equals sign.
pub proof fn lemma_render_expr_shape(l: u16, r: u16, op: char, w: nat)
    requires
        digit_count(r as nat) >= w,
    ensures
        expr_shape(render_expr_spec(l, r, op, w), op),
{
    lemma_dec_spec_len(l as nat);
    lemma_dec_spec_len(r as nat);
    lemma_dec_spec_digits(l as nat);
    lemma_dec_spec_digits(r as nat);
    let dl = dec_spec(l as nat);
    let dr = dec_spec(r as nat);
    let p = if dl.len() < w {
        (w - dl.len()) as nat
    } else {
        0
    };
    assert(pad_right(dr, w) == dr);
    assert(pad_left(dl, w) =~= repeat_char(' ', p) + dl);
    assert(render_expr_spec(l, r, op, w) == repeat_char(' ', p) + dl + seq![' ', op, ' '] + dr
        + seq!['=']);
}

} // verus!
