//! Constrained random generation of addition/subtraction expressions.
//!
//! A rejection-sampling loop draws operand pairs, applies the operand
//! configuration, and keeps the first pair whose signed result lies in the
//! configured window.  The loop is capped, so contradictory constraints
//! surface as an infeasibility error instead of a hang.

use crate::layout::{layout_lines, layout_spec, str_views};
use crate::pattern::{lemma_parsed_from_is_parsed_spec, operand_config_spec, parse_args, parsed_spec, ParsedArgs};
use crate::render::{expr_width, expr_width_exec, render_expr, render_expr_spec};
use crate::rng::{rand_bool, rand_u16_inclusive};
use crate::utils::{repeat_char, repeat_char_string, round_to, round_to_spec};
use crate::{AddMinusOpts, Category, GenError, OperandConfig, OperandPattern};
use vstd::prelude::*;
use vstd::string::StringExecFns;

verus! {

/// How many draws a rejection loop makes before giving up.
pub const MAX_ATTEMPTS: u32 = 100000;

/// The operator of one expression.
#[derive(Clone, Copy, Debug, PartialEq, Eq, Structural)]
pub enum Op {
    Add,
    Minus,
}

/// The character an operator renders as.
pub open spec fn op_char(op: Op) -> char {
    match op {
        Op::Add => '+',
        Op::Minus => '-',
    }
}

/// The signed result of applying `op` to the operands.
pub open spec fn result_of(op: Op, l: u16, r: u16) -> int {
    match op {
        Op::Add => l + r,
        Op::Minus => l - r,
    }
}

/// Whether a multiple of `k` exists in `[min, max]`: the smallest multiple
/// at or above `min` must not pass `max`.
pub open spec fn has_multiple_in(k: u16, min: u16, max: u16) -> bool {
    (if min as int % k as int == 0 {
        min as int
    } else {
        min as int - min as int % k as int + k as int
    }) <= max as int
}

/// The constraint one operand value satisfies after its pattern was
/// applied: wildcards stay in bounds, multiples are multiples — and land
/// in bounds whenever the bounds hold a multiple at all — constants and
/// constant ranges override the bounds.
pub open spec fn pattern_value_ok(p: OperandPattern, v: u16, min: u16, max: u16) -> bool {
    match p {
        OperandPattern::Wildcard => min <= v <= max,
        OperandPattern::MultipleOf(k) => v as int % k as int == 0 && (has_multiple_in(k, min, max)
            ==> min <= v <= max),
        OperandPattern::Constant(c) => v == c,
        OperandPattern::ConstantRange(lo, hi) => lo <= v <= hi,
    }
}

/// Whatever corrective step `round_to` takes, it lands on a multiple.
proof fn lemma_round_to_spec_multiple(number: int, multiple: int, start: int, end: int)
    requires
        multiple >= 1,
    ensures
        round_to_spec(number, multiple, start, end) % multiple == 0,
{
    let times = if (number % multiple) * 2 >= multiple {
        number / multiple + 1
    } else {
        number / multiple
    };
    let r = round_to_spec(number, multiple, start, end);
    assert(r == times * multiple || r == (times - 1) * multiple || r == (times + 1) * multiple);
    vstd::arithmetic::div_mod::lemma_mod_multiples_basic(times, multiple);
    vstd::arithmetic::div_mod::lemma_mod_multiples_basic(times - 1, multiple);
    vstd::arithmetic::div_mod::lemma_mod_multiples_basic(times + 1, multiple);
}

/// What applying a pattern to the sampled value `v` yields: the value
/// itself for a wildcard, the nearest in-window multiple for a multiple
/// constraint, the constant itself, and for a constant range only its
/// bounds — that draw is random.
pub open spec fn pattern_applied(p: OperandPattern, v: u16, x: u16, min: u16, max: u16) -> bool {
    match p {
        OperandPattern::Wildcard => x == v,
        OperandPattern::MultipleOf(k) => x as int == (if v as int % k as int == 0 {
            v as int
        } else {
            round_to_spec(v as int, k as int, min as int, max as int + 1)
        }),
        OperandPattern::Constant(c) => x == c,
        OperandPattern::ConstantRange(lo, hi) => lo <= x <= hi,
    }
}

/// The one input on which applying a pattern fails: a multiple constraint
/// whose rounding arithmetic would not fit a 16-bit value.
pub open spec fn pattern_apply_overflows(p: OperandPattern, v: u16) -> bool {
    match p {
        OperandPattern::MultipleOf(k) => v as int % k as int != 0 && v + 2 * k > u16::MAX,
        _ => false,
    }
}

/// Applies one operand pattern to a sampled value.  Fails exactly when a
/// multiple constraint is so large that rounding would overflow.
fn parse_number_by_pattern(pattern: &OperandPattern, v: u16, min: u16, max: u16) -> (r: Result<
    u16,
    GenError,
>)
    requires
        pattern.wf(),
        min <= v <= max,
    ensures
        match r {
            Ok(x) => pattern_value_ok(*pattern, x, min, max) && pattern_applied(
                *pattern,
                v,
                x,
                min,
                max,
            ),
            Err(e) => e == GenError::Infeasible,
        },
        r is Ok <==> !pattern_apply_overflows(*pattern, v),
{
    match pattern {
        OperandPattern::Wildcard => Ok(v),
        OperandPattern::MultipleOf(k) => {
            let k = *k;
            if v % k == 0 {
                Ok(v)
            } else {
                if (v as u32) + 2 * (k as u32) > 65535 {
                    return Err(GenError::Infeasible);
                }
                let rounded = round_to(v, k, min, (max as u32) + 1);
                proof {
                    lemma_round_to_spec_multiple(v as int, k as int, min as int, max as int + 1);
                    if has_multiple_in(k, min, max) {
                        vstd::arithmetic::div_mod::lemma_fundamental_div_mod(min as int, k as int);
                        vstd::arithmetic::div_mod::lemma_mod_bound(min as int, k as int);
                        let q = min as int / k as int;
                        let rem = min as int % k as int;
                        let m = if rem == 0 {
                            min as int
                        } else {
                            min as int - rem + k as int
                        };
                        if rem == 0 {
                            assert(m % k as int == 0);
                        } else {
                            assert(m == k as int * q + k as int);
                            assert(k as int * q + k as int == (q + 1) * k as int)
                                by (nonlinear_arith);
                            vstd::arithmetic::div_mod::lemma_mod_multiples_basic(q + 1, k as int);
                            assert(m % k as int == 0);
                        }
                        assert(min <= m <= max);
                        crate::utils::lemma_round_to_nearest(
                            v as int,
                            k as int,
                            min as int,
                            max as int + 1,
                            m,
                        );
                    }
                }
                Ok(rounded)
            }
        },
        OperandPattern::Constant(c) => Ok(*c),
        OperandPattern::ConstantRange(lo, hi) => {
            let drawn = rand_u16_inclusive(*lo, *hi);
            Ok(drawn)
        },
    }
}

/// The interval a pattern's applied values are drawn from, where one is
/// known exactly: a multiple constraint has no simple interval and gets
/// none.
pub open spec fn pattern_range(p: OperandPattern, min: u16, max: u16) -> Option<(u16, u16)> {
    match p {
        OperandPattern::Wildcard => Some((min, max)),
        OperandPattern::MultipleOf(_) => None,
        OperandPattern::Constant(c) => Some((c, c)),
        OperandPattern::ConstantRange(lo, hi) => Some((lo, hi)),
    }
}

/// A configuration on which every possible draw already satisfies the
/// result window, so one round of sampling must succeed.
pub open spec fn config_always_valid(args: ParsedArgs, op: Op) -> bool {
    let min = args.number_min_inclusive;
    let max = args.number_max_inclusive;
    match args.operand_config {
        OperandConfig::TwoOperand(pl, pr) => match (
            pattern_range(pl, min, max),
            pattern_range(pr, min, max),
        ) {
            (Some((llo, lhi)), Some((rlo, rhi))) => match op {
                Op::Add => args.result_min_inclusive <= llo + rlo && lhi + rhi
                    <= args.result_max_inclusive,
                Op::Minus => args.result_min_inclusive <= llo - rhi && lhi - rlo
                    <= args.result_max_inclusive,
            },
            _ => false,
        },
        OperandConfig::OneOperand(p) => match pattern_range(p, min, max) {
            Some((lo, hi)) => match op {
                Op::Add => args.result_min_inclusive <= lo + lo && hi + hi
                    <= args.result_max_inclusive,
                Op::Minus => args.result_min_inclusive <= 0 <= args.result_max_inclusive,
            },
            None => false,
        },
        OperandConfig::FixedResult(t) => match op {
            Op::Add => t == min + max && args.result_min_inclusive <= t
                <= args.result_max_inclusive,
            Op::Minus => t == 0 && args.result_min_inclusive <= 0 <= args.result_max_inclusive,
        },
    }
}

/// The joint constraint a returned operand pair satisfies: the operand
/// configuration holds of the pair, and the signed result lies in the
/// configured window.
pub open spec fn operands_ok(args: ParsedArgs, op: Op, l: u16, r: u16) -> bool {
    let min = args.number_min_inclusive;
    let max = args.number_max_inclusive;
    &&& match args.operand_config {
        OperandConfig::TwoOperand(pl, pr) => pattern_value_ok(pl, l, min, max)
            && pattern_value_ok(pr, r, min, max),
        OperandConfig::OneOperand(p) => pattern_value_ok(p, l, min, max) && r == l,
        OperandConfig::FixedResult(t) => match op {
            Op::Add => l + r == t && min <= l <= max && min <= r <= max,
            Op::Minus => l - r == t && min <= l <= max && min <= r <= max,
        },
    }
    &&& args.result_min_inclusive <= result_of(op, l, r) <= args.result_max_inclusive
}

/// Draws one operand pair satisfying the configuration, or reports the
/// constraints infeasible once the capped rejection loop is exhausted.
/// Success is owed whenever every possible draw is already valid.
pub fn gen_operands(args: &ParsedArgs, op: Op) -> (res: Result<(u16, u16), GenError>)
    requires
        args.wf(),
    ensures
        match res {
            Ok(p) => operands_ok(*args, op, p.0, p.1),
            Err(e) => e == GenError::Infeasible,
        },
        config_always_valid(*args, op) ==> res is Ok,
{
    let min = args.number_min_inclusive;
    let max = args.number_max_inclusive;
    let mut attempt: u32 = 0;
    while attempt < MAX_ATTEMPTS
        invariant
            args.wf(),
            min == args.number_min_inclusive,
            max == args.number_max_inclusive,
            config_always_valid(*args, op) ==> attempt == 0,
        decreases MAX_ATTEMPTS - attempt,
    {
        attempt = attempt + 1;
        let l0 = rand_u16_inclusive(min, max);
        let r0 = rand_u16_inclusive(min, max);
        let mut l = l0;
        let mut r = r0;
        match &args.operand_config {
            OperandConfig::TwoOperand(pl, pr) => {
                l = match parse_number_by_pattern(pl, l0, min, max) {
                    Ok(v) => v,
                    Err(e) => {
                        return Err(e);
                    },
                };
                r = match parse_number_by_pattern(pr, r0, min, max) {
                    Ok(v) => v,
                    Err(e) => {
                        return Err(e);
                    },
                };
            },
            OperandConfig::OneOperand(p) => {
                l = match parse_number_by_pattern(p, l0, min, max) {
                    Ok(v) => v,
                    Err(e) => {
                        return Err(e);
                    },
                };
                r = l;
            },
            OperandConfig::FixedResult(t) => {
                let t = *t;
                match op {
                    Op::Add => {
                        if (l0 as u32) + (max as u32) < (t as u32) || (l0 as u32) + (min as u32)
                            > (t as u32) {
                            continue ;
                        }
                        r = t - l0;
                    },
                    Op::Minus => {
                        if (t as u32) + (max as u32) < (l0 as u32) || (t as u32) + (min as u32)
                            > (l0 as u32) {
                            continue ;
                        }
                        r = l0 - t;
                    },
                }
            },
        }
        let res_val: i32 = match op {
            Op::Add => (l as i32) + (r as i32),
            Op::Minus => (l as i32) - (r as i32),
        };
        if (args.result_min_inclusive as i32) <= res_val && res_val
            <= (args.result_max_inclusive as i32) {
            return Ok((l, r));
        }
        proof {
            assert(!config_always_valid(*args, op));
        }
    }
    Err(GenError::Infeasible)
}

/// Draws one addition pair and renders it.
pub fn gen_add(args: &ParsedArgs) -> (res: Result<String, GenError>)
    requires
        args.wf(),
    ensures
        match res {
            Ok(s) => exists|l: u16, r: u16|
                operands_ok(*args, Op::Add, l, r) && s@ == render_expr_spec(
                    l,
                    r,
                    '+',
                    expr_width(args.number_max_inclusive),
                ),
            Err(e) => e == GenError::Infeasible,
        },
        config_always_valid(*args, Op::Add) ==> res is Ok,
{
    let pair = match gen_operands(args, Op::Add) {
        Ok(p) => p,
        Err(e) => {
            return Err(e);
        },
    };
    let w = expr_width_exec(args.number_max_inclusive);
    let s = render_expr(pair.0, pair.1, '+', w);
    Ok(s)
}

/// Draws one subtraction pair and renders it.
pub fn gen_minus(args: &ParsedArgs) -> (res: Result<String, GenError>)
    requires
        args.wf(),
    ensures
        match res {
            Ok(s) => exists|l: u16, r: u16|
                operands_ok(*args, Op::Minus, l, r) && s@ == render_expr_spec(
                    l,
                    r,
                    '-',
                    expr_width(args.number_max_inclusive),
                ),
            Err(e) => e == GenError::Infeasible,
        },
        config_always_valid(*args, Op::Minus) ==> res is Ok,
{
    let pair = match gen_operands(args, Op::Minus) {
        Ok(p) => p,
        Err(e) => {
            return Err(e);
        },
    };
    let w = expr_width_exec(args.number_max_inclusive);
    let s = render_expr(pair.0, pair.1, '-', w);
    Ok(s)
}

/// Which operators a category admits.
pub open spec fn op_allowed(cat: Category, op: Op) -> bool {
    match cat {
        Category::Add => op == Op::Add,
        Category::Subtract => op == Op::Minus,
        Category::Mixed => true,
    }
}

/// What holds of every rendered expression: some pair satisfying the
/// configuration, under an operator the category admits, rendered at the
/// width of the largest drawable number.
pub open spec fn expr_ok(args: ParsedArgs, s: Seq<char>) -> bool {
    exists|l: u16, r: u16, op: Op|
        op_allowed(args.category, op) && operands_ok(args, op, l, r) && s == render_expr_spec(
            l,
            r,
            op_char(op),
            expr_width(args.number_max_inclusive),
        )
}

/// Whether every operator the category admits is owed to succeed.
pub open spec fn expr_always_ok(args: ParsedArgs) -> bool {
    match args.category {
        Category::Add => config_always_valid(args, Op::Add),
        Category::Subtract => config_always_valid(args, Op::Minus),
        Category::Mixed => config_always_valid(args, Op::Add) && config_always_valid(
            args,
            Op::Minus,
        ),
    }
}

/// Generates one expression; for the mixed category the operator is an
/// unbiased coin flip, drawn before the pair.
pub fn gen_arithmetic_expr(args: &ParsedArgs) -> (res: Result<String, GenError>)
    requires
        args.wf(),
    ensures
        match res {
            Ok(s) => expr_ok(*args, s@),
            Err(e) => e == GenError::Infeasible,
        },
        expr_always_ok(*args) ==> res is Ok,
{
    let use_add = match args.category {
        Category::Add => true,
        Category::Subtract => false,
        Category::Mixed => rand_bool(),
    };
    if use_add {
        match gen_add(args) {
            Ok(s) => {
                proof {
                    let (l, r) = choose|l: u16, r: u16|
                        operands_ok(*args, Op::Add, l, r) && s@ == render_expr_spec(
                            l,
                            r,
                            '+',
                            expr_width(args.number_max_inclusive),
                        );
                    assert(op_allowed(args.category, Op::Add));
                    assert(operands_ok(*args, Op::Add, l, r) && s@ == render_expr_spec(
                        l,
                        r,
                        op_char(Op::Add),
                        expr_width(args.number_max_inclusive),
                    ));
                }
                Ok(s)
            },
            Err(e) => Err(e),
        }
    } else {
        match gen_minus(args) {
            Ok(s) => {
                proof {
                    let (l, r) = choose|l: u16, r: u16|
                        operands_ok(*args, Op::Minus, l, r) && s@ == render_expr_spec(
                            l,
                            r,
                            '-',
                            expr_width(args.number_max_inclusive),
                        );
                    assert(op_allowed(args.category, Op::Minus));
                    assert(operands_ok(*args, Op::Minus, l, r) && s@ == render_expr_spec(
                        l,
                        r,
                        op_char(Op::Minus),
                        expr_width(args.number_max_inclusive),
                    ));
                }
                Ok(s)
            },
            Err(e) => Err(e),
        }
    }
}

/// The six-space separator between expressions on one line.
pub open spec fn expr_sep() -> Seq<char> {
    repeat_char(' ', 6)
}

/// Generates the rendered lines of one sheet: `count` expressions, laid
/// out `column_per_page` to a line.  Fails with a syntax error exactly
/// when the pattern string is malformed or a fixed result is combined
/// with the mixed category, and with infeasibility when the capped
/// sampling loop finds no valid pair.
pub fn gen_arithmetic_to_docx(args: &AddMinusOpts) -> (res: Result<Vec<String>, GenError>)
    requires
        args.bounds_wf(),
        args.column_per_page >= 1,
    ensures
        match res {
            Ok(lines) => exists|pa: ParsedArgs, items: Seq<Seq<char>>|
                {
                    &&& pa.parsed_from(*args)
                    &&& items.len() == args.count as nat
                    &&& (forall|i: int| 0 <= i < items.len() ==> expr_ok(pa, #[trigger] items[i]))
                    &&& str_views(lines@) == layout_spec(
                        items,
                        args.column_per_page as nat,
                        expr_sep(),
                    )
                },
            Err(e) => (e == GenError::PatternSyntax && parse_args_rejects(*args)) || e
                == GenError::Infeasible,
        },
        !parse_args_rejects(*args) && expr_always_ok(parsed_spec(*args)) ==> res is Ok,
{
    let pa = match parse_args(args) {
        Ok(pa) => pa,
        Err(e) => {
            return Err(e);
        },
    };
    proof {
        crate::pattern::lemma_operand_config_wf(args.operand_pattern@);
        lemma_parsed_from_is_parsed_spec(pa, *args);
    }
    let count = args.count;
    let mut items: Vec<String> = Vec::new();
    let mut i: u16 = 0;
    while i < count
        invariant
            i <= count,
            i as nat == items@.len(),
            pa.wf(),
            pa == parsed_spec(*args),
            forall|k: int| 0 <= k < items@.len() ==> expr_ok(pa, #[trigger] str_views(items@)[k]),
        decreases count - i,
    {
        let e = match gen_arithmetic_expr(&pa) {
            Ok(e) => e,
            Err(err) => {
                return Err(err);
            },
        };
        let ghost prev = items@;
        items.push(e);
        proof {
            assert(items@ == prev.push(e));
            assert(str_views(items@) =~= str_views(prev).push(e@));
            assert forall|k: int| 0 <= k < items@.len() implies expr_ok(
                pa,
                #[trigger] str_views(items@)[k],
            ) by {
                if k < prev.len() {
                    assert(str_views(items@)[k] == str_views(prev)[k]);
                } else {
                    assert(str_views(items@)[k] == e@);
                }
            }
        }
        i = i + 1;
    }
    let sep = repeat_char_string(' ', 6);
    let lines = layout_lines(&items, args.column_per_page as usize, sep.as_str());
    proof {
        let gitems = str_views(items@);
        assert(pa.parsed_from(*args) && gitems.len() == args.count as nat && (forall|i: int|
            0 <= i < gitems.len() ==> expr_ok(pa, #[trigger] gitems[i])) && str_views(lines@)
            == layout_spec(gitems, args.column_per_page as nat, expr_sep()));
    }
    Ok(lines)
}

/// When parsing the options must fail: a malformed pattern string, or a
/// fixed result combined with the mixed category.
pub open spec fn parse_args_rejects(args: AddMinusOpts) -> bool {
    ||| operand_config_spec(args.operand_pattern@) is None
    ||| (operand_config_spec(args.operand_pattern@) matches Some(c) && c is FixedResult
        && crate::pattern::category_spec(args.category@) is Mixed)
}

/// The rendered forms of every pair of a table.
pub open spec fn rendered_table(table: Seq<(u16, u16)>, op: char, w: nat) -> Seq<Seq<char>> {
    table.map_values(|p: (u16, u16)| render_expr_spec(p.0, p.1, op, w))
}

/// A pair stream consumed in full passes: each block of `table.len()`
/// pairs is a permutation of the whole table.
pub open spec fn full_passes(pairs: Seq<(u16, u16)>, table: Seq<(u16, u16)>) -> bool
    decreases pairs.len(),
{
    if pairs.len() == 0 {
        true
    } else if table.len() == 0 {
        false
    } else {
        pairs.len() >= table.len() && pairs.take(table.len() as int).to_multiset()
            == table.to_multiset() && full_passes(pairs.skip(table.len() as int), table)
    }
}

/// A prefix of some permutation of the table.
pub open spec fn perm_prefix(pairs: Seq<(u16, u16)>, table: Seq<(u16, u16)>) -> bool {
    exists|full: Seq<(u16, u16)>|
        #![trigger full.to_multiset()]
        full.to_multiset() == table.to_multiset() && pairs == full.take(pairs.len() as int)
}

/// The pair stream a curated sheet consumes: whole shuffled passes of
/// the table, followed by the leading part of one more — so no pair
/// repeats within a pass.
pub open spec fn pass_structured(pairs: Seq<(u16, u16)>, table: Seq<(u16, u16)>) -> bool {
    exists|k: int|
        0 <= k <= pairs.len() && #[trigger] full_passes(pairs.take(k), table) && pairs.len() - k
            <= table.len() && perm_prefix(pairs.skip(k), table)
}

/// What a curated subtraction sheet satisfies: exactly `count` pairs of
/// the table, consumed pass by pass — each full pass a permutation of
/// the whole table, so no pair repeats within a pass — rendered at width
/// two and laid out `per` to a line.
pub open spec fn pattern_lines_ok(
    lines: Seq<Seq<char>>,
    table: Seq<(u16, u16)>,
    op: char,
    w: nat,
    count: u16,
    per: nat,
) -> bool {
    exists|pairs: Seq<(u16, u16)>|
        {
            &&& pairs.len() == count as nat
            &&& (forall|i: int| 0 <= i < pairs.len() ==> table.contains(#[trigger] pairs[i]))
            &&& pass_structured(pairs, table)
            &&& lines == layout_spec(rendered_table(pairs, op, w), per, expr_sep())
        }
}

/// One more full pass extends a pass-by-pass stream.
proof fn lemma_full_passes_append(done: Seq<(u16, u16)>, pass: Seq<(u16, u16)>, table: Seq<
    (u16, u16),
>)
    requires
        table.len() >= 1,
        full_passes(done, table),
        pass.len() == table.len(),
        pass.to_multiset() == table.to_multiset(),
    ensures
        full_passes(done + pass, table),
    decreases done.len(),
{
    let whole = done + pass;
    if done.len() == 0 {
        assert(whole =~= pass);
        assert(whole.take(table.len() as int) =~= pass);
        assert(whole.skip(table.len() as int) =~= Seq::<(u16, u16)>::empty());
        assert(full_passes(Seq::<(u16, u16)>::empty(), table));
        assert(whole.len() >= table.len());
        assert(full_passes(whole, table));
    } else {
        assert(whole.take(table.len() as int) =~= done.take(table.len() as int));
        assert(whole.skip(table.len() as int) =~= done.skip(table.len() as int) + pass);
        lemma_full_passes_append(done.skip(table.len() as int), pass, table);
        assert(full_passes(whole.skip(table.len() as int), table));
        assert(whole.len() >= table.len());
        assert(full_passes(whole, table));
    }
}

/// Elements of sequences with equal multisets draw from the same pool.
proof fn lemma_multiset_contains_all(a: Seq<(u16, u16)>, b: Seq<(u16, u16)>)
    requires
        a.to_multiset() == b.to_multiset(),
    ensures
        forall|i: int| 0 <= i < a.len() ==> b.contains(#[trigger] a[i]),
{
    broadcast use vstd::seq_lib::group_to_multiset_ensures;

    assert forall|i: int| 0 <= i < a.len() implies b.contains(#[trigger] a[i]) by {
        assert(a.contains(a[i]));
        assert(a.to_multiset().count(a[i]) > 0);
    }
}

/// Generates the lines of a curated subtraction sheet: the table is
/// shuffled and consumed whole, pass by pass, until `count` renderings
/// exist, laid out `column_per_page` to a line.
pub fn gen_arithmetic_to_docx_by_pattern2_3_4(args: &AddMinusOpts, pairs: &Vec<(u16, u16)>) -> (lines:
    Vec<String>)
    requires
        args.column_per_page >= 1,
        pairs@.len() >= 1,
    ensures
        pattern_lines_ok(
            str_views(lines@),
            pairs@,
            '-',
            2,
            args.count,
            args.column_per_page as nat,
        ),
{
    let count = args.count;
    let mut items: Vec<String> = Vec::new();
    let mut batch: Vec<(u16, u16)> = Vec::new();
    let mut pi: usize = 0;
    let ghost mut done: Seq<(u16, u16)> = Seq::empty();
    let ghost mut acc: Seq<(u16, u16)> = Seq::empty();
    proof {
        assert(str_views(items@) =~= rendered_table(acc, '-', 2));
    }
    while (items.len() as u64) < (count as u64)
        invariant
            pairs@.len() >= 1,
            items@.len() <= count as nat,
            pi <= batch@.len(),
            batch@.len() == 0 || batch@.len() == pairs@.len(),
            batch@.len() == 0 || batch@.to_multiset() == pairs@.to_multiset(),
            forall|k: int| 0 <= k < batch@.len() ==> pairs@.contains(#[trigger] batch@[k]),
            full_passes(done, pairs@),
            acc == done + batch@.take(pi as int),
            acc.len() == items@.len(),
            forall|i: int| 0 <= i < acc.len() ==> pairs@.contains(#[trigger] acc[i]),
            str_views(items@) == rendered_table(acc, '-', 2),
        decreases count as int - items@.len(),
    {
        if pi >= batch.len() {
            proof {
                if batch@.len() == 0 {
                    assert(batch@.take(pi as int) =~= Seq::<(u16, u16)>::empty());
                    assert(done + batch@.take(pi as int) =~= done);
                } else {
                    assert(pi == batch@.len());
                    assert(batch@.take(pi as int) =~= batch@);
                    lemma_full_passes_append(done, batch@, pairs@);
                    assert(full_passes(done + batch@, pairs@));
                }
                done = acc;
                assert(full_passes(done, pairs@));
            }
            let mut fresh: Vec<(u16, u16)> = Vec::new();
            let mut bi: usize = 0;
            while bi < pairs.len()
                invariant
                    bi <= pairs@.len(),
                    fresh@ == pairs@.take(bi as int),
                decreases pairs@.len() - bi,
            {
                fresh.push(pairs[bi]);
                assert(fresh@ =~= pairs@.take(bi + 1));
                bi = bi + 1;
            }
            assert(pairs@.take(pairs@.len() as int) =~= pairs@);
            crate::rng::shuffle_pairs(&mut fresh);
            proof {
                lemma_multiset_contains_all(fresh@, pairs@);
            }
            batch = fresh;
            pi = 0;
            proof {
                assert(batch@.take(0) =~= Seq::<(u16, u16)>::empty());
                assert(acc =~= done + batch@.take(0));
            }
        }
        let p = batch[pi];
        let rendered = render_expr(p.0, p.1, '-', 2);
        let ghost prev = items@;
        let ghost prev_acc = acc;
        items.push(rendered);
        proof {
            acc = prev_acc.push(p);
            assert(batch@.take(pi + 1) =~= batch@.take(pi as int).push(p));
            assert(acc =~= done + batch@.take(pi + 1));
            assert(str_views(items@) =~= str_views(prev).push(rendered@));
            assert forall|k: int| 0 <= k < acc.len() implies str_views(items@)[k]
                == rendered_table(acc, '-', 2)[k] by {
                assert(rendered_table(acc, '-', 2)[k] == render_expr_spec(
                    acc[k].0,
                    acc[k].1,
                    '-',
                    2,
                ));
                if k < prev_acc.len() {
                    assert(acc[k] == prev_acc[k]);
                    assert(str_views(items@)[k] == str_views(prev)[k]);
                    assert(rendered_table(prev_acc, '-', 2)[k] == render_expr_spec(
                        prev_acc[k].0,
                        prev_acc[k].1,
                        '-',
                        2,
                    ));
                } else {
                    assert(acc[k] == p);
                    assert(str_views(items@)[k] == rendered@);
                }
            }
            assert(str_views(items@) =~= rendered_table(acc, '-', 2));
        }
        pi = pi + 1;
    }
    let sep = repeat_char_string(' ', 6);
    let lines = layout_lines(&items, args.column_per_page as usize, sep.as_str());
    proof {
        assert(acc.take(done.len() as int) =~= done);
        assert(acc.skip(done.len() as int) =~= batch@.take(pi as int));
        let tail = acc.skip(done.len() as int);
        if batch@.len() == 0 {
            assert(pi == 0);
            assert(tail =~= pairs@.take(0));
            assert(tail == pairs@.take(tail.len() as int));
            assert(perm_prefix(tail, pairs@));
        } else {
            assert(tail == batch@.take(tail.len() as int));
            assert(perm_prefix(tail, pairs@));
        }
        assert(pass_structured(acc, pairs@));
        assert(acc.len() == count as nat && (forall|i: int|
            0 <= i < acc.len() ==> pairs@.contains(#[trigger] acc[i])) && pass_structured(
            acc,
            pairs@,
        ) && str_views(lines@) == layout_spec(
            rendered_table(acc, '-', 2),
            args.column_per_page as nat,
            expr_sep(),
        ));
    }
    lines
}

/// The subtraction pairs of the first curated sheet: minuends 18 down to
/// 15, then 10 and 8.
pub open spec fn pattern2_pairs() -> Seq<(u16, u16)> {
    seq![
        (18u16, 9u16),
        (17u16, 9u16),
        (17u16, 8u16),
        (16u16, 9u16),
        (16u16, 8u16),
        (16u16, 7u16),
        (15u16, 9u16),
        (15u16, 8u16),
        (15u16, 7u16),
        (15u16, 6u16),
        (10u16, 9u16),
        (10u16, 8u16),
        (10u16, 7u16),
        (10u16, 6u16),
        (10u16, 5u16),
        (10u16, 4u16),
        (10u16, 3u16),
        (10u16, 2u16),
        (10u16, 1u16),
        (8u16, 7u16),
        (8u16, 6u16),
        (8u16, 5u16),
        (8u16, 4u16),
        (8u16, 3u16),
        (8u16, 2u16),
        (8u16, 1u16),
    ]
}

/// The subtraction pairs of the second curated sheet: minuends 14 down to
/// 11.
pub open spec fn pattern3_pairs() -> Seq<(u16, u16)> {
    seq![
        (14u16, 9u16),
        (14u16, 8u16),
        (14u16, 7u16),
        (14u16, 6u16),
        (14u16, 5u16),
        (13u16, 9u16),
        (13u16, 8u16),
        (13u16, 7u16),
        (13u16, 6u16),
        (13u16, 5u16),
        (13u16, 4u16),
        (12u16, 9u16),
        (12u16, 8u16),
        (12u16, 7u16),
        (12u16, 6u16),
        (12u16, 5u16),
        (12u16, 4u16),
        (12u16, 3u16),
        (11u16, 9u16),
        (11u16, 8u16),
        (11u16, 7u16),
        (11u16, 6u16),
        (11u16, 5u16),
        (11u16, 4u16),
        (11u16, 3u16),
        (11u16, 2u16),
    ]
}

/// The subtraction pairs of the third curated sheet: minuends 9 down to 4.
pub open spec fn pattern4_pairs() -> Seq<(u16, u16)> {
    seq![
        (9u16, 8u16),
        (9u16, 7u16),
        (9u16, 6u16),
        (9u16, 5u16),
        (9u16, 4u16),
        (9u16, 3u16),
        (9u16, 2u16),
        (9u16, 1u16),
        (7u16, 6u16),
        (7u16, 5u16),
        (7u16, 4u16),
        (7u16, 3u16),
        (7u16, 2u16),
        (7u16, 1u16),
        (6u16, 5u16),
        (6u16, 4u16),
        (6u16, 3u16),
        (6u16, 2u16),
        (6u16, 1u16),
        (5u16, 4u16),
        (5u16, 3u16),
        (5u16, 2u16),
        (5u16, 1u16),
        (4u16, 3u16),
        (4u16, 2u16),
        (4u16, 1u16),
    ]
}

/// Builds the pair table of the first curated subtraction sheet.
fn build_pattern2_pairs() -> (v: Vec<(u16, u16)>)
    ensures
        v@ == pattern2_pairs(),
{
    let mut v: Vec<(u16, u16)> = Vec::new();
    v.push((18, 9));
    v.push((17, 9));
    v.push((17, 8));
    v.push((16, 9));
    v.push((16, 8));
    v.push((16, 7));
    v.push((15, 9));
    v.push((15, 8));
    v.push((15, 7));
    v.push((15, 6));
    v.push((10, 9));
    v.push((10, 8));
    v.push((10, 7));
    v.push((10, 6));
    v.push((10, 5));
    v.push((10, 4));
    v.push((10, 3));
    v.push((10, 2));
    v.push((10, 1));
    v.push((8, 7));
    v.push((8, 6));
    v.push((8, 5));
    v.push((8, 4));
    v.push((8, 3));
    v.push((8, 2));
    v.push((8, 1));
    assert(v@ =~= pattern2_pairs());
    v
}

/// Builds the pair table of the second curated subtraction sheet.
fn build_pattern3_pairs() -> (v: Vec<(u16, u16)>)
    ensures
        v@ == pattern3_pairs(),
{
    let mut v: Vec<(u16, u16)> = Vec::new();
    v.push((14, 9));
    v.push((14, 8));
    v.push((14, 7));
    v.push((14, 6));
    v.push((14, 5));
    v.push((13, 9));
    v.push((13, 8));
    v.push((13, 7));
    v.push((13, 6));
    v.push((13, 5));
    v.push((13, 4));
    v.push((12, 9));
    v.push((12, 8));
    v.push((12, 7));
    v.push((12, 6));
    v.push((12, 5));
    v.push((12, 4));
    v.push((12, 3));
    v.push((11, 9));
    v.push((11, 8));
    v.push((11, 7));
    v.push((11, 6));
    v.push((11, 5));
    v.push((11, 4));
    v.push((11, 3));
    v.push((11, 2));
    assert(v@ =~= pattern3_pairs());
    v
}

/// Builds the pair table of the third curated subtraction sheet.
fn build_pattern4_pairs() -> (v: Vec<(u16, u16)>)
    ensures
        v@ == pattern4_pairs(),
{
    let mut v: Vec<(u16, u16)> = Vec::new();
    v.push((9, 8));
    v.push((9, 7));
    v.push((9, 6));
    v.push((9, 5));
    v.push((9, 4));
    v.push((9, 3));
    v.push((9, 2));
    v.push((9, 1));
    v.push((7, 6));
    v.push((7, 5));
    v.push((7, 4));
    v.push((7, 3));
    v.push((7, 2));
    v.push((7, 1));
    v.push((6, 5));
    v.push((6, 4));
    v.push((6, 3));
    v.push((6, 2));
    v.push((6, 1));
    v.push((5, 4));
    v.push((5, 3));
    v.push((5, 2));
    v.push((5, 1));
    v.push((4, 3));
    v.push((4, 2));
    v.push((4, 1));
    assert(v@ =~= pattern4_pairs());
    v
}

/// The curated sheet of subtractions from 8, 10 and 15 to 18.
pub fn gen_arithmetic_to_docx_by_pattern2(args: &AddMinusOpts) -> (lines: Vec<String>)
    requires
        args.column_per_page >= 1,
    ensures
        pattern_lines_ok(
            str_views(lines@),
            pattern2_pairs(),
            '-',
            2,
            args.count,
            args.column_per_page as nat,
        ),
{
    let table = build_pattern2_pairs();
    gen_arithmetic_to_docx_by_pattern2_3_4(args, &table)
}

/// The curated sheet of subtractions from 11 to 14.
pub fn gen_arithmetic_to_docx_by_pattern3(args: &AddMinusOpts) -> (lines: Vec<String>)
    requires
        args.column_per_page >= 1,
    ensures
        pattern_lines_ok(
            str_views(lines@),
            pattern3_pairs(),
            '-',
            2,
            args.count,
            args.column_per_page as nat,
        ),
{
    let table = build_pattern3_pairs();
    gen_arithmetic_to_docx_by_pattern2_3_4(args, &table)
}

/// The curated sheet of subtractions from 4 to 9.
pub fn gen_arithmetic_to_docx_by_pattern4(args: &AddMinusOpts) -> (lines: Vec<String>)
    requires
        args.column_per_page >= 1,
    ensures
        pattern_lines_ok(
            str_views(lines@),
            pattern4_pairs(),
            '-',
            2,
            args.count,
            args.column_per_page as nat,
        ),
{
    let table = build_pattern4_pairs();
    gen_arithmetic_to_docx_by_pattern2_3_4(args, &table)
}

/// The addition pairs of the curated mixed-sum sheet, grouped by sum from
/// 16 down to 6; each group is sampled with its own frequency.
pub open spec fn pattern1_pairs() -> Seq<(u16, u16)> {
    seq![
        (9u16, 7u16),
        (8u16, 8u16),
        (9u16, 6u16),
        (8u16, 7u16),
        (9u16, 5u16),
        (8u16, 6u16),
        (7u16, 7u16),
        (9u16, 4u16),
        (8u16, 5u16),
        (7u16, 6u16),
        (9u16, 3u16),
        (8u16, 4u16),
        (7u16, 5u16),
        (6u16, 6u16),
        (9u16, 2u16),
        (8u16, 3u16),
        (7u16, 4u16),
        (6u16, 5u16),
        (9u16, 1u16),
        (8u16, 2u16),
        (7u16, 3u16),
        (6u16, 4u16),
        (5u16, 5u16),
        (8u16, 1u16),
        (7u16, 2u16),
        (6u16, 3u16),
        (5u16, 4u16),
        (7u16, 1u16),
        (6u16, 2u16),
        (5u16, 3u16),
        (4u16, 4u16),
        (6u16, 1u16),
        (5u16, 2u16),
        (4u16, 3u16),
        (4u16, 2u16),
        (9u16, 8u16),
        (5u16, 1u16),
        (3u16, 3u16),
        (4u16, 1u16),
        (3u16, 2u16),
        (9u16, 9u16),
    ]
}

/// Every pair of a table with its operands exchanged.
pub open spec fn swapped(table: Seq<(u16, u16)>) -> Seq<(u16, u16)> {
    table.map_values(|p: (u16, u16)| (p.1, p.0))
}

/// A pair the mixed-sum sheet may draw, in either operand order.
pub open spec fn pattern1_allowed(p: (u16, u16)) -> bool {
    pattern1_pairs().contains(p) || pattern1_pairs().contains((p.1, p.0))
}

/// The mixed-sum table together with every pair reversed.
pub open spec fn pattern1_full_table() -> Seq<(u16, u16)> {
    pattern1_pairs() + swapped(pattern1_pairs())
}

/// An allowed pair sits somewhere in the doubled table.
proof fn lemma_allowed_in_full_table(p: (u16, u16))
    requires
        pattern1_allowed(p),
    ensures
        pattern1_full_table().contains(p),
{
    let t = pattern1_pairs();
    if t.contains(p) {
        let j = choose|j: int| 0 <= j < t.len() && t[j] == p;
        assert(pattern1_full_table()[j] == p);
    } else {
        let q = (p.1, p.0);
        let j = choose|j: int| 0 <= j < t.len() && t[j] == q;
        assert(pattern1_full_table()[t.len() + j] == swapped(t)[j]);
        assert(swapped(t)[j] == (t[j].1, t[j].0));
        assert((t[j].1, t[j].0) == p);
    }
}

/// Builds the flat pair table of the mixed-sum sheet.
#[verifier::rlimit(60)]
fn build_pattern1_pairs() -> (v: Vec<(u16, u16)>)
    ensures
        v@ == pattern1_pairs(),
{
    let mut v: Vec<(u16, u16)> = Vec::new();
    v.push((9, 7));
    v.push((8, 8));
    v.push((9, 6));
    v.push((8, 7));
    v.push((9, 5));
    v.push((8, 6));
    v.push((7, 7));
    v.push((9, 4));
    v.push((8, 5));
    v.push((7, 6));
    v.push((9, 3));
    v.push((8, 4));
    v.push((7, 5));
    v.push((6, 6));
    v.push((9, 2));
    v.push((8, 3));
    v.push((7, 4));
    v.push((6, 5));
    v.push((9, 1));
    v.push((8, 2));
    v.push((7, 3));
    v.push((6, 4));
    v.push((5, 5));
    v.push((8, 1));
    v.push((7, 2));
    v.push((6, 3));
    v.push((5, 4));
    v.push((7, 1));
    v.push((6, 2));
    v.push((5, 3));
    v.push((4, 4));
    v.push((6, 1));
    v.push((5, 2));
    v.push((4, 3));
    v.push((4, 2));
    v.push((9, 8));
    v.push((5, 1));
    v.push((3, 3));
    v.push((4, 1));
    v.push((3, 2));
    v.push((9, 9));
    assert(v@ =~= pattern1_pairs());
    v
}

/// The sum groups of the mixed-sum table: offset and length of each
/// group in the flat table, with the number of pairs sampled per pass.
pub open spec fn pattern1_groups() -> Seq<(int, int, int)> {
    seq![
        (0int, 2int, 2int),
        (2int, 2int, 2int),
        (4int, 3int, 3int),
        (7int, 3int, 3int),
        (10int, 4int, 4int),
        (14int, 4int, 4int),
        (18int, 5int, 1int),
        (23int, 4int, 2int),
        (27int, 4int, 2int),
        (31int, 5int, 2int),
        (36int, 5int, 1int),
    ]
}

/// How many pairs one full pass of the mixed-sum sheet holds: the sum of
/// the group frequencies.
pub open spec fn pattern1_pass_len() -> int {
    26
}

/// One sampled group part: as many pairs as the group's frequency, drawn
/// from the group without replacement, each kept or reversed by a coin
/// flip.
pub open spec fn group_part_ok(part: Seq<(u16, u16)>, off: int, len: int, freq: int) -> bool {
    let group = pattern1_pairs().subrange(off, off + len);
    exists|chosen: Seq<(u16, u16)>, flips: Seq<bool>|
        {
            &&& chosen.len() == part.len()
            &&& flips.len() == part.len()
            &&& part.len() == vstd::math::min(freq, len)
            &&& chosen.to_multiset().subset_of(group.to_multiset())
            &&& forall|i: int|
                0 <= i < part.len() ==> #[trigger] part[i] == (if flips[i] {
                    chosen[i]
                } else {
                    (chosen[i].1, chosen[i].0)
                })
        }
}

/// One unshuffled pass of the mixed-sum sheet: the sampled group parts
/// in table order, starting from group `gi`.
pub open spec fn pattern1_batch_ok(batch: Seq<(u16, u16)>, gi: int) -> bool
    decreases pattern1_groups().len() - gi,
{
    if gi < 0 || gi >= pattern1_groups().len() {
        batch.len() == 0
    } else {
        exists|part: Seq<(u16, u16)>, rest: Seq<(u16, u16)>|
            {
                &&& batch == part + rest
                &&& group_part_ok(
                    part,
                    pattern1_groups()[gi].0,
                    pattern1_groups()[gi].1,
                    pattern1_groups()[gi].2,
                )
                &&& pattern1_batch_ok(rest, gi + 1)
            }
    }
}

/// One pass as it is consumed: some shuffle of a group-sampled batch.
pub open spec fn pattern1_pass_ok(pass: Seq<(u16, u16)>) -> bool {
    exists|batch: Seq<(u16, u16)>|
        #![trigger batch.to_multiset()]
        batch.to_multiset() == pass.to_multiset() && pattern1_batch_ok(batch, 0)
}

/// A pair stream consumed in full mixed-sum passes.
pub open spec fn pattern1_full_passes(pairs: Seq<(u16, u16)>) -> bool
    decreases pairs.len(),
{
    if pairs.len() == 0 {
        true
    } else {
        pairs.len() >= pattern1_pass_len() && pattern1_pass_ok(pairs.take(pattern1_pass_len()))
            && pattern1_full_passes(pairs.skip(pattern1_pass_len()))
    }
}

/// The pair stream of the mixed-sum sheet: whole passes followed by the
/// leading part of one more.
pub open spec fn pattern1_stream_ok(pairs: Seq<(u16, u16)>) -> bool {
    exists|k: int|
        {
            &&& 0 <= k <= pairs.len()
            &&& #[trigger] pattern1_full_passes(pairs.take(k))
            &&& pairs.len() - k <= pattern1_pass_len()
            &&& pairs.len() - k > 0 ==> exists|pass: Seq<(u16, u16)>|
                pattern1_pass_ok(pass) && pass.len() == pattern1_pass_len() && pairs.skip(k)
                    == pass.take(pairs.len() - k)
        }
}

/// What the mixed-sum sheet satisfies: exactly `count` pairs taken from
/// a pass-by-pass stream — per pass each sum group contributes its
/// frequency of distinct pairs, operand order decided by coin flips and
/// the pass shuffled — each pair in the doubled table, rendered at width
/// one and laid out `per` to a line.
pub open spec fn pattern1_lines_ok(lines: Seq<Seq<char>>, count: u16, per: nat) -> bool {
    exists|pairs: Seq<(u16, u16)>|
        {
            &&& pairs.len() == count as nat
            &&& (forall|i: int|
                0 <= i < pairs.len() ==> pattern1_full_table().contains(#[trigger] pairs[i]))
            &&& pattern1_stream_ok(pairs)
            &&& lines == layout_spec(rendered_table(pairs, '+', 1), per, expr_sep())
        }
}

/// Samples `freq` pairs of one sum group of the flat table without
/// replacement and reverses each by a coin flip.
fn sample_group(flat: &Vec<(u16, u16)>, off: usize, len: usize, freq: usize) -> (part: Vec<
    (u16, u16),
>)
    requires
        flat@ == pattern1_pairs(),
        off + len <= flat@.len(),
        len >= 1,
        freq >= 1,
    ensures
        part@.len() == vstd::math::min(freq as int, len as int),
        group_part_ok(part@, off as int, len as int, freq as int),
        forall|i: int| 0 <= i < part@.len() ==> pattern1_allowed(#[trigger] part@[i]),
{
    let mut g: Vec<(u16, u16)> = Vec::new();
    let mut i: usize = 0;
    while i < len
        invariant
            i <= len,
            off + len <= flat@.len(),
            flat@ == pattern1_pairs(),
            g@ == flat@.subrange(off as int, off + i),
        decreases len - i,
    {
        g.push(flat[off + i]);
        assert(g@ =~= flat@.subrange(off as int, off + i + 1));
        i = i + 1;
    }
    let chosen = crate::rng::choose_pairs(&g, freq);
    let mut part: Vec<(u16, u16)> = Vec::new();
    let ghost mut flips: Seq<bool> = Seq::empty();
    let mut ci: usize = 0;
    while ci < chosen.len()
        invariant
            ci <= chosen@.len(),
            flat@ == pattern1_pairs(),
            g@ == flat@.subrange(off as int, off + len),
            off + len <= flat@.len(),
            forall|k: int| 0 <= k < chosen@.len() ==> g@.contains(#[trigger] chosen@[k]),
            part@.len() == ci,
            flips.len() == ci,
            forall|k: int|
                0 <= k < ci ==> #[trigger] part@[k] == (if flips[k] {
                    chosen@[k]
                } else {
                    (chosen@[k].1, chosen@[k].0)
                }),
            forall|k: int| 0 <= k < ci ==> pattern1_allowed(#[trigger] part@[k]),
        decreases chosen@.len() - ci,
    {
        let p = chosen[ci];
        proof {
            assert(g@.contains(p));
            let j = choose|j: int| 0 <= j < g@.len() && g@[j] == p;
            assert(g@[j] == flat@[off + j]);
            assert(pattern1_pairs().contains(p));
        }
        let flip = rand_bool();
        if flip {
            part.push(p);
        } else {
            part.push((p.1, p.0));
            proof {
                assert((part@.last().1, part@.last().0) == p);
            }
        }
        proof {
            flips = flips.push(flip);
            assert(pattern1_allowed(part@.last()));
        }
        ci = ci + 1;
    }
    proof {
        assert(chosen@.take(chosen@.len() as int) =~= chosen@);
        assert(chosen@.len() == part@.len() && flips.len() == part@.len() && part@.len()
            == vstd::math::min(freq as int, len as int) && chosen@.to_multiset().subset_of(
            g@.to_multiset(),
        ) && forall|i: int|
            0 <= i < part@.len() ==> #[trigger] part@[i] == (if flips[i] {
                chosen@[i]
            } else {
                (chosen@[i].1, chosen@[i].0)
            }));
    }
    part
}

/// Appends one sampled part to the batch under construction.
fn append_pairs(dst: &mut Vec<(u16, u16)>, src: &Vec<(u16, u16)>)
    ensures
        final(dst)@ == old(dst)@ + src@,
{
    let mut i: usize = 0;
    while i < src.len()
        invariant
            i <= src@.len(),
            dst@ == old(dst)@ + src@.take(i as int),
        decreases src@.len() - i,
    {
        dst.push(src[i]);
        assert(dst@ =~= old(dst)@ + src@.take(i + 1));
        i = i + 1;
    }
    assert(src@.take(src@.len() as int) =~= src@);
}

/// Builds one unshuffled pass: every sum group sampled at its frequency.
fn build_pattern1_batch(flat: &Vec<(u16, u16)>) -> (batch: Vec<(u16, u16)>)
    requires
        flat@ == pattern1_pairs(),
    ensures
        batch@.len() == pattern1_pass_len(),
        pattern1_batch_ok(batch@, 0),
        forall|i: int| 0 <= i < batch@.len() ==> pattern1_allowed(#[trigger] batch@[i]),
{
    let p1 = sample_group(flat, 0, 2, 2);
    let p2 = sample_group(flat, 2, 2, 2);
    let p3 = sample_group(flat, 4, 3, 3);
    let p4 = sample_group(flat, 7, 3, 3);
    let p5 = sample_group(flat, 10, 4, 4);
    let p6 = sample_group(flat, 14, 4, 4);
    let p7 = sample_group(flat, 18, 5, 1);
    let p8 = sample_group(flat, 23, 4, 2);
    let p9 = sample_group(flat, 27, 4, 2);
    let p10 = sample_group(flat, 31, 5, 2);
    let p11 = sample_group(flat, 36, 5, 1);
    let mut batch: Vec<(u16, u16)> = Vec::new();
    append_pairs(&mut batch, &p1);
    append_pairs(&mut batch, &p2);
    append_pairs(&mut batch, &p3);
    append_pairs(&mut batch, &p4);
    append_pairs(&mut batch, &p5);
    append_pairs(&mut batch, &p6);
    append_pairs(&mut batch, &p7);
    append_pairs(&mut batch, &p8);
    append_pairs(&mut batch, &p9);
    append_pairs(&mut batch, &p10);
    append_pairs(&mut batch, &p11);
    proof {
        let g = pattern1_groups();
        let r11 = Seq::<(u16, u16)>::empty();
        assert(pattern1_batch_ok(r11, 11));
        let r10 = p11@ + r11;
        assert(g[10] == (36int, 5int, 1int));
        assert(pattern1_batch_ok(r10, 10));
        let r9 = p10@ + r10;
        assert(g[9] == (31int, 5int, 2int));
        assert(pattern1_batch_ok(r9, 9));
        let r8 = p9@ + r9;
        assert(g[8] == (27int, 4int, 2int));
        assert(pattern1_batch_ok(r8, 8));
        let r7 = p8@ + r8;
        assert(g[7] == (23int, 4int, 2int));
        assert(pattern1_batch_ok(r7, 7));
        let r6 = p7@ + r7;
        assert(g[6] == (18int, 5int, 1int));
        assert(pattern1_batch_ok(r6, 6));
        let r5 = p6@ + r6;
        assert(g[5] == (14int, 4int, 4int));
        assert(pattern1_batch_ok(r5, 5));
        let r4 = p5@ + r5;
        assert(g[4] == (10int, 4int, 4int));
        assert(pattern1_batch_ok(r4, 4));
        let r3 = p4@ + r4;
        assert(g[3] == (7int, 3int, 3int));
        assert(pattern1_batch_ok(r3, 3));
        let r2 = p3@ + r3;
        assert(g[2] == (4int, 3int, 3int));
        assert(pattern1_batch_ok(r2, 2));
        let r1 = p2@ + r2;
        assert(g[1] == (2int, 2int, 2int));
        assert(pattern1_batch_ok(r1, 1));
        let r0 = p1@ + r1;
        assert(g[0] == (0int, 2int, 2int));
        assert(pattern1_batch_ok(r0, 0));
        assert(batch@ =~= r0);
        assert(forall|i: int| 0 <= i < batch@.len() ==> pattern1_allowed(#[trigger] batch@[i]));
    }
    batch
}

/// The curated mixed-order addition sheet: each pass samples every sum
/// group at its own frequency, reverses pairs at random, and is
/// shuffled; passes are consumed until `count` expressions exist.
pub fn gen_arithmetic_to_docx_by_pattern1(args: &AddMinusOpts) -> (lines: Vec<String>)
    requires
        args.column_per_page >= 1,
    ensures
        pattern1_lines_ok(str_views(lines@), args.count, args.column_per_page as nat),
{
    let flat = build_pattern1_pairs();
    let count = args.count;
    let mut items: Vec<String> = Vec::new();
    let mut batch: Vec<(u16, u16)> = Vec::new();
    let mut pi: usize = 0;
    let ghost mut done: Seq<(u16, u16)> = Seq::empty();
    let ghost mut acc: Seq<(u16, u16)> = Seq::empty();
    proof {
        assert(str_views(items@) =~= rendered_table(acc, '+', 1));
    }
    while (items.len() as u64) < (count as u64)
        invariant
            flat@ == pattern1_pairs(),
            items@.len() <= count as nat,
            pi <= batch@.len(),
            batch@.len() == 0 || batch@.len() == pattern1_pass_len(),
            batch@.len() == 0 || pattern1_pass_ok(batch@),
            forall|k: int| 0 <= k < batch@.len() ==> pattern1_allowed(#[trigger] batch@[k]),
            pattern1_full_passes(done),
            acc == done + batch@.take(pi as int),
            acc.len() == items@.len(),
            forall|i: int| 0 <= i < acc.len() ==> pattern1_full_table().contains(#[trigger] acc[i]),
            str_views(items@) == rendered_table(acc, '+', 1),
        decreases count as int - items@.len(),
    {
        if pi >= batch.len() {
            proof {
                if batch@.len() == 0 {
                    assert(batch@.take(pi as int) =~= Seq::<(u16, u16)>::empty());
                    assert(done + batch@.take(pi as int) =~= done);
                } else {
                    assert(pi == batch@.len());
                    assert(batch@.take(pi as int) =~= batch@);
                    lemma_pattern1_full_passes_append(done, batch@);
                }
                done = acc;
                assert(pattern1_full_passes(done));
            }
            let mut fresh = build_pattern1_batch(&flat);
            let ghost unshuffled = fresh@;
            crate::rng::shuffle_pairs(&mut fresh);
            proof {
                lemma_multiset_contains_all(fresh@, unshuffled);
                assert(pattern1_pass_ok(fresh@));
                assert forall|k: int| 0 <= k < fresh@.len() implies pattern1_allowed(
                    #[trigger] fresh@[k],
                ) by {
                    assert(unshuffled.contains(fresh@[k]));
                    let j = choose|j: int| 0 <= j < unshuffled.len() && unshuffled[j] == fresh@[k];
                    assert(pattern1_allowed(unshuffled[j]));
                }
            }
            batch = fresh;
            pi = 0;
            proof {
                assert(batch@.take(0) =~= Seq::<(u16, u16)>::empty());
                assert(acc =~= done + batch@.take(0));
            }
        }
        let p = batch[pi];
        let rendered = render_expr(p.0, p.1, '+', 1);
        let ghost prev = items@;
        let ghost prev_acc = acc;
        items.push(rendered);
        proof {
            lemma_allowed_in_full_table(p);
            acc = prev_acc.push(p);
            assert(batch@.take(pi + 1) =~= batch@.take(pi as int).push(p));
            assert(acc =~= done + batch@.take(pi + 1));
            assert(str_views(items@) =~= str_views(prev).push(rendered@));
            assert forall|k: int| 0 <= k < acc.len() implies str_views(items@)[k]
                == rendered_table(acc, '+', 1)[k] by {
                assert(rendered_table(acc, '+', 1)[k] == render_expr_spec(
                    acc[k].0,
                    acc[k].1,
                    '+',
                    1,
                ));
                if k < prev_acc.len() {
                    assert(acc[k] == prev_acc[k]);
                    assert(str_views(items@)[k] == str_views(prev)[k]);
                    assert(rendered_table(prev_acc, '+', 1)[k] == render_expr_spec(
                        prev_acc[k].0,
                        prev_acc[k].1,
                        '+',
                        1,
                    ));
                } else {
                    assert(acc[k] == p);
                    assert(str_views(items@)[k] == rendered@);
                }
            }
            assert(str_views(items@) =~= rendered_table(acc, '+', 1));
        }
        pi = pi + 1;
    }
    let sep = repeat_char_string(' ', 6);
    let lines = layout_lines(&items, args.column_per_page as usize, sep.as_str());
    proof {
        assert(acc.take(done.len() as int) =~= done);
        assert(acc.skip(done.len() as int) =~= batch@.take(pi as int));
        let tail = acc.skip(done.len() as int);
        if tail.len() > 0 {
            assert(batch@.len() == pattern1_pass_len());
            assert(tail == batch@.take(tail.len() as int));
            assert(pattern1_pass_ok(batch@) && batch@.len() == pattern1_pass_len() && tail
                == batch@.take(acc.len() - done.len()));
        }
        assert(pattern1_stream_ok(acc));
        assert(acc.len() == count as nat && (forall|i: int|
            0 <= i < acc.len() ==> pattern1_full_table().contains(#[trigger] acc[i]))
            && pattern1_stream_ok(acc) && str_views(lines@) == layout_spec(
            rendered_table(acc, '+', 1),
            args.column_per_page as nat,
            expr_sep(),
        ));
    }
    lines
}

/// One more full pass extends a mixed-sum stream.
proof fn lemma_pattern1_full_passes_append(done: Seq<(u16, u16)>, pass: Seq<(u16, u16)>)
    requires
        pattern1_full_passes(done),
        pass.len() == pattern1_pass_len(),
        pattern1_pass_ok(pass),
    ensures
        pattern1_full_passes(done + pass),
    decreases done.len(),
{
    let whole = done + pass;
    if done.len() == 0 {
        assert(whole =~= pass);
        assert(whole.take(pattern1_pass_len()) =~= pass);
        assert(whole.skip(pattern1_pass_len()) =~= Seq::<(u16, u16)>::empty());
        assert(pattern1_full_passes(Seq::<(u16, u16)>::empty()));
        assert(pattern1_full_passes(whole));
    } else {
        assert(whole.take(pattern1_pass_len()) =~= done.take(pattern1_pass_len()));
        assert(whole.skip(pattern1_pass_len()) =~= done.skip(pattern1_pass_len()) + pass);
        lemma_pattern1_full_passes_append(done.skip(pattern1_pass_len()), pass);
        assert(pattern1_full_passes(whole.skip(pattern1_pass_len())));
        assert(pattern1_full_passes(whole));
    }
}

} // verus!
