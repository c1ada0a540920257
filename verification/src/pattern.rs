//! The operand-pattern mini-language.
//!
//! A pattern string names one constraint per operand: `*` for any value in
//! bounds, `<int>*` for a multiple, `<int>` for a constant, and
//! `<int>~<int>` or `<int>-<int>` for a constant range.  The string as a
//! whole is either `left,right`, a single sub-pattern applied to both
//! operands, or `=<int>` fixing the result.

use crate::render::all_digits;
use crate::utils::is_digit_char;
use crate::{AddMinusOpts, Category, GenError, OperandConfig, OperandPattern};
use vstd::prelude::*;
use vstd::string::StrSliceExecFns;

verus! {

/// The numeric value of a digit character.
pub open spec fn digit_val(c: char) -> int {
    c as int - '0' as int
}

/// The value of a digit string, most significant digit first.
pub open spec fn dec_value(s: Seq<char>) -> int
    decreases s.len(),
{
    if s.len() == 0 {
        0
    } else {
        dec_value(s.drop_last()) * 10 + digit_val(s.last())
    }
}

/// What parsing an integer token yields: its value, provided the token is
/// one or more digits and the value fits.
pub open spec fn parse_u16_spec(s: Seq<char>) -> Option<u16> {
    if all_digits(s) && dec_value(s) <= u16::MAX {
        Some(dec_value(s) as u16)
    } else {
        None
    }
}

/// Whether `c` separates the two ends of a range token.
pub open spec fn is_range_sep(c: char) -> bool {
    c == '~' || c == '-'
}

/// The index of the first range separator, or the length.
pub open spec fn first_range_sep(s: Seq<char>) -> int
    decreases s.len(),
{
    if s.len() == 0 {
        0
    } else if is_range_sep(s[0]) {
        0
    } else {
        1 + first_range_sep(s.drop_first())
    }
}

/// The index of the first comma, or the length.
pub open spec fn first_comma(s: Seq<char>) -> int
    decreases s.len(),
{
    if s.len() == 0 {
        0
    } else if s[0] == ',' {
        0
    } else {
        1 + first_comma(s.drop_first())
    }
}

/// How many commas `s` holds.
pub open spec fn count_commas(s: Seq<char>) -> nat
    decreases s.len(),
{
    if s.len() == 0 {
        0
    } else {
        (if s.last() == ',' {
            1nat
        } else {
            0nat
        }) + count_commas(s.drop_last())
    }
}

/// What one sub-pattern parses to, or nothing when it is malformed: a
/// reversed range and a zero modulus are rejected.
pub open spec fn sub_pattern_spec(s: Seq<char>) -> Option<OperandPattern> {
    if s == seq!['*'] {
        Some(OperandPattern::Wildcard)
    } else if s.len() >= 1 && s.last() == '*' {
        match parse_u16_spec(s.drop_last()) {
            Some(k) => if k >= 1 {
                Some(OperandPattern::MultipleOf(k))
            } else {
                None
            },
            None => None,
        }
    } else if first_range_sep(s) < s.len() {
        let i = first_range_sep(s);
        let j = i + 1 + first_range_sep(s.skip(i + 1));
        match (parse_u16_spec(s.take(i)), parse_u16_spec(s.subrange(i + 1, j))) {
            (Some(lo), Some(hi)) => if lo <= hi {
                Some(OperandPattern::ConstantRange(lo, hi))
            } else {
                None
            },
            _ => None,
        }
    } else {
        match parse_u16_spec(s) {
            Some(c) => Some(OperandPattern::Constant(c)),
            None => None,
        }
    }
}

/// What the whole pattern string parses to: two comma-separated
/// sub-patterns, a result target after `=`, or one sub-pattern for both
/// operands.  With more than one comma only the part before the first
/// comma is read.
pub open spec fn operand_config_spec(s: Seq<char>) -> Option<OperandConfig> {
    let i = first_comma(s);
    if count_commas(s) == 1 {
        match (sub_pattern_spec(s.take(i)), sub_pattern_spec(s.skip(i + 1))) {
            (Some(l), Some(r)) => Some(OperandConfig::TwoOperand(l, r)),
            _ => None,
        }
    } else {
        let seg = s.take(i);
        if seg.len() >= 1 && seg[0] == '=' {
            match parse_u16_spec(seg.skip(1)) {
                Some(t) => Some(OperandConfig::FixedResult(t)),
                None => None,
            }
        } else {
            match sub_pattern_spec(seg) {
                Some(p) => Some(OperandConfig::OneOperand(p)),
                _ => None,
            }
        }
    }
}

/// The operator category a category string selects.
pub open spec fn category_spec(s: Seq<char>) -> Category {
    if s.len() >= 1 && s[0] == '+' {
        Category::Add
    } else if s.len() >= 1 && s[0] == '_' {
        Category::Subtract
    } else {
        Category::Mixed
    }
}

/// A well-formed pattern string never parses to an ill-formed config.
pub proof fn lemma_operand_config_wf(s: Seq<char>)
    ensures
        operand_config_spec(s) matches Some(c) ==> c.wf(),
{
}

/// The numeric options together with the parsed pattern and category.
#[derive(Clone, Copy, Debug)]
pub struct ParsedArgs {
    /// How many expressions to generate.
    pub count: u16,
    /// How many expressions share one line.
    pub column_per_page: u16,
    /// Parsed operator category.
    pub category: Category,
    /// Parsed operand configuration.
    pub operand_config: OperandConfig,
    /// Smallest operand value drawn.
    pub number_min_inclusive: u16,
    /// Largest operand value drawn.
    pub number_max_inclusive: u16,
    /// Smallest allowed signed result.
    pub result_min_inclusive: i16,
    /// Largest allowed signed result.
    pub result_max_inclusive: i16,
    /// Font size, passed through untouched.
    pub output_docx_font_size: u16,
}

impl ParsedArgs {
    /// What generation requires of a parsed configuration.
    pub open spec fn wf(self) -> bool {
        &&& self.number_min_inclusive <= self.number_max_inclusive
        &&& self.result_min_inclusive <= self.result_max_inclusive
        &&& self.operand_config.wf()
    }

    /// Whether the parsed fields agree with the option strings.
    pub open spec fn parsed_from(self, args: AddMinusOpts) -> bool {
        &&& Some(self.operand_config) == operand_config_spec(args.operand_pattern@)
        &&& self.category == category_spec(args.category@)
        &&& self.count == args.count
        &&& self.column_per_page == args.column_per_page
        &&& self.number_min_inclusive == args.number_min_inclusive
        &&& self.number_max_inclusive == args.number_max_inclusive
        &&& self.result_min_inclusive == args.result_min_inclusive
        &&& self.result_max_inclusive == args.result_max_inclusive
        &&& self.output_docx_font_size == args.output_docx_font_size
    }
}

/// The configuration a successful parse yields, determined by the
/// option strings alone.
pub open spec fn parsed_spec(args: AddMinusOpts) -> ParsedArgs {
    ParsedArgs {
        count: args.count,
        column_per_page: args.column_per_page,
        category: category_spec(args.category@),
        operand_config: match operand_config_spec(args.operand_pattern@) {
            Some(c) => c,
            None => OperandConfig::OneOperand(OperandPattern::Wildcard),
        },
        number_min_inclusive: args.number_min_inclusive,
        number_max_inclusive: args.number_max_inclusive,
        result_min_inclusive: args.result_min_inclusive,
        result_max_inclusive: args.result_max_inclusive,
        output_docx_font_size: args.output_docx_font_size,
    }
}

/// A parse that succeeds yields exactly the determined configuration.
pub proof fn lemma_parsed_from_is_parsed_spec(pa: ParsedArgs, args: AddMinusOpts)
    requires
        pa.parsed_from(args),
    ensures
        pa == parsed_spec(args),
{
}

/// The digit values of a prefix never shrink as the prefix grows.
proof fn lemma_dec_value_nonneg(s: Seq<char>)
    requires
        forall|i: int| 0 <= i < s.len() ==> is_digit_char(#[trigger] s[i]),
    ensures
        dec_value(s) >= 0,
    decreases s.len(),
{
    if s.len() > 0 {
        lemma_dec_value_nonneg(s.drop_last());
    }
}

/// A longer digit prefix has at least the value of a shorter one.
proof fn lemma_dec_value_mono(s: Seq<char>, j: int)
    requires
        forall|i: int| 0 <= i < s.len() ==> is_digit_char(#[trigger] s[i]),
        0 <= j <= s.len(),
    ensures
        dec_value(s) >= dec_value(s.take(j)),
    decreases s.len() - j,
{
    if j < s.len() {
        lemma_dec_value_mono(s, j + 1);
        assert(s.take(j + 1).drop_last() =~= s.take(j));
        assert(s.take(j + 1).last() == s[j]);
        assert(forall|i: int| 0 <= i < j ==> is_digit_char(#[trigger] s.take(j)[i]));
        lemma_dec_value_nonneg(s.take(j));
        assert(dec_value(s.take(j + 1)) == dec_value(s.take(j)) * 10 + digit_val(s[j]));
    } else {
        assert(s.take(j) =~= s);
    }
}

/// If no character before `i` is a range separator and the one at `i` is
/// (or `i` is the length), then `i` is the first separator.
proof fn lemma_first_range_sep_at(s: Seq<char>, i: int)
    requires
        0 <= i <= s.len(),
        forall|k: int| 0 <= k < i ==> !is_range_sep(#[trigger] s[k]),
        i < s.len() ==> is_range_sep(s[i]),
    ensures
        first_range_sep(s) == i,
    decreases i,
{
    if i == 0 {
    } else {
        lemma_first_range_sep_at(s.drop_first(), i - 1);
    }
}

/// The comma counterpart of the separator-position lemma.
proof fn lemma_first_comma_at(s: Seq<char>, i: int)
    requires
        0 <= i <= s.len(),
        forall|k: int| 0 <= k < i ==> (#[trigger] s[k]) != ',',
        i < s.len() ==> s[i] == ',',
    ensures
        first_comma(s) == i,
    decreases i,
{
    if i == 0 {
    } else {
        lemma_first_comma_at(s.drop_first(), i - 1);
    }
}

/// Collects the characters of `s`.
fn str_to_chars(s: &str) -> (v: Vec<char>)
    ensures
        v@ == s@,
{
    let n = s.unicode_len();
    let mut v: Vec<char> = Vec::new();
    let mut i: usize = 0;
    while i < n
        invariant
            i <= n,
            n == s@.len(),
            v@ == s@.take(i as int),
        decreases n - i,
    {
        let c = s.get_char(i);
        v.push(c);
        assert(v@ =~= s@.take(i + 1));
        i = i + 1;
    }
    assert(s@.take(n as int) =~= s@);
    v
}

/// The first index in `[from, to)` holding a range separator, or `to`.
fn find_range_sep(cs: &Vec<char>, from: usize, to: usize) -> (idx: usize)
    requires
        from <= to <= cs@.len(),
    ensures
        from <= idx <= to,
        idx - from == first_range_sep(cs@.subrange(from as int, to as int)),
{
    let ghost s = cs@.subrange(from as int, to as int);
    let mut i = from;
    while i < to
        invariant
            from <= i <= to <= cs@.len(),
            s == cs@.subrange(from as int, to as int),
            forall|k: int| 0 <= k < i - from ==> !is_range_sep(#[trigger] s[k]),
        decreases to - i,
    {
        let c = cs[i];
        assert(c == s[i - from]);
        if c == '~' || c == '-' {
            proof {
                lemma_first_range_sep_at(s, i - from);
            }
            return i;
        }
        i = i + 1;
    }
    proof {
        lemma_first_range_sep_at(s, to - from);
    }
    to
}

/// The first comma of `cs`, or its length, along with the comma count.
fn scan_commas(cs: &Vec<char>) -> (r: (usize, usize))
    ensures
        r.0 <= cs@.len(),
        r.0 == first_comma(cs@),
        r.1 == count_commas(cs@),
        r.1 >= 1 ==> r.0 < cs@.len(),
{
    let mut first: usize = cs.len();
    let mut count: usize = 0;
    let mut i: usize = 0;
    while i < cs.len()
        invariant
            i <= cs@.len(),
            count == count_commas(cs@.take(i as int)),
            count <= i,
            count >= 1 <==> first < cs@.len(),
            first == cs@.len() || first < i,
            first == cs@.len() ==> forall|k: int| 0 <= k < i ==> !(#[trigger] cs@[k] == ','),
            first < i ==> (cs@[first as int] == ',' && forall|k: int|
                0 <= k < first ==> !(#[trigger] cs@[k] == ',')),
        decreases cs@.len() - i,
    {
        let c = cs[i];
        proof {
            assert(cs@.take(i + 1).drop_last() =~= cs@.take(i as int));
            assert(cs@.take(i + 1).last() == cs@[i as int]);
        }
        if c == ',' {
            if first == cs.len() {
                first = i;
            }
            count = count + 1;
        }
        i = i + 1;
    }
    proof {
        assert(cs@.take(cs@.len() as int) =~= cs@);
        if first == cs@.len() {
            lemma_first_comma_at(cs@, cs@.len() as int);
        } else {
            lemma_first_comma_at(cs@, first as int);
        }
    }
    (first, count)
}

/// The value of a digit character, or nothing for any other character.
fn char_digit_value(c: char) -> (r: Option<u32>)
    ensures
        match r {
            Some(d) => is_digit_char(c) && d == digit_val(c),
            None => !is_digit_char(c),
        },
{
    match c {
        '0' => Some(0),
        '1' => Some(1),
        '2' => Some(2),
        '3' => Some(3),
        '4' => Some(4),
        '5' => Some(5),
        '6' => Some(6),
        '7' => Some(7),
        '8' => Some(8),
        '9' => Some(9),
        _ => None,
    }
}

/// Parses the digits of `cs[from..to]` into a 16-bit value.
fn parse_u16_range(cs: &Vec<char>, from: usize, to: usize) -> (r: Result<u16, GenError>)
    requires
        from <= to <= cs@.len(),
    ensures
        ({
            let s = cs@.subrange(from as int, to as int);
            match parse_u16_spec(s) {
                Some(v) => r == Ok::<u16, GenError>(v),
                None => r == Err::<u16, GenError>(GenError::PatternSyntax),
            }
        }),
{
    let ghost s = cs@.subrange(from as int, to as int);
    if from == to {
        assert(!all_digits(s));
        return Err(GenError::PatternSyntax);
    }
    let mut acc: u32 = 0;
    let mut i = from;
    while i < to
        invariant
            from <= i <= to <= cs@.len(),
            s == cs@.subrange(from as int, to as int),
            forall|k: int| 0 <= k < i - from ==> is_digit_char(#[trigger] s[k]),
            acc == dec_value(s.take(i - from)),
            acc <= 65535,
        decreases to - i,
    {
        let c = cs[i];
        assert(c == s[i - from]);
        let d: u32 = match char_digit_value(c) {
            Some(v) => v,
            None => {
                assert(!all_digits(s));
                return Err(GenError::PatternSyntax);
            },
        };
        assert(d == digit_val(c));
        proof {
            assert(s.take(i - from + 1).drop_last() =~= s.take(i - from));
            assert(s.take(i - from + 1).last() == s[i - from]);
            assert(dec_value(s.take(i - from + 1)) == dec_value(s.take(i - from)) * 10 + digit_val(
                s[i - from],
            ));
        }
        let newacc = acc * 10 + d;
        if newacc > 65535 {
            proof {
                if all_digits(s) {
                    lemma_dec_value_mono(s, i - from + 1);
                }
            }
            return Err(GenError::PatternSyntax);
        }
        acc = newacc;
        i = i + 1;
    }
    assert(s.take(to - from) =~= s);
    assert(all_digits(s));
    Ok(acc as u16)
}

/// Parses one sub-pattern held in `cs[from..to]`.
fn parse_sub_pattern(cs: &Vec<char>, from: usize, to: usize) -> (r: Result<OperandPattern, GenError>)
    requires
        from <= to <= cs@.len(),
    ensures
        ({
            let s = cs@.subrange(from as int, to as int);
            match sub_pattern_spec(s) {
                Some(p) => r == Ok::<OperandPattern, GenError>(p),
                None => r == Err::<OperandPattern, GenError>(GenError::PatternSyntax),
            }
        }),
{
    let ghost s = cs@.subrange(from as int, to as int);
    if to - from == 1 && cs[from] == '*' {
        assert(s =~= seq!['*']);
        return Ok(OperandPattern::Wildcard);
    }
    assert(s != seq!['*']);
    if to > from && cs[to - 1] == '*' {
        assert(s.last() == '*');
        assert(s.drop_last() =~= cs@.subrange(from as int, to - 1));
        let k = match parse_u16_range(cs, from, to - 1) {
            Ok(k) => k,
            Err(e) => {
                return Err(e);
            },
        };
        if k >= 1 {
            return Ok(OperandPattern::MultipleOf(k));
        } else {
            return Err(GenError::PatternSyntax);
        }
    }
    assert(!(s.len() >= 1 && s.last() == '*'));
    let sep1 = find_range_sep(cs, from, to);
    if sep1 < to {
        let sep2 = find_range_sep(cs, sep1 + 1, to);
        proof {
            let i = first_range_sep(s);
            assert(i == sep1 - from);
            assert(s.skip(i + 1) =~= cs@.subrange(sep1 + 1, to as int));
            assert(s.take(i) =~= cs@.subrange(from as int, sep1 as int));
            assert(s.subrange(i + 1, i + 1 + first_range_sep(s.skip(i + 1))) =~= cs@.subrange(
                sep1 + 1,
                sep2 as int,
            ));
        }
        let lo = match parse_u16_range(cs, from, sep1) {
            Ok(v) => v,
            Err(e) => {
                return Err(e);
            },
        };
        let hi = match parse_u16_range(cs, sep1 + 1, sep2) {
            Ok(v) => v,
            Err(e) => {
                return Err(e);
            },
        };
        if lo <= hi {
            return Ok(OperandPattern::ConstantRange(lo, hi));
        } else {
            return Err(GenError::PatternSyntax);
        }
    }
    match parse_u16_range(cs, from, to) {
        Ok(c) => Ok(OperandPattern::Constant(c)),
        Err(e) => Err(e),
    }
}

/// Parses one sub-pattern string, e.g. `*`, `5*`, `7`, or `3~9`.
pub fn parse_operand_pattern(pattern: &str) -> (r: Result<OperandPattern, GenError>)
    ensures
        ({
            match sub_pattern_spec(pattern@) {
                Some(p) => r == Ok::<OperandPattern, GenError>(p),
                None => r == Err::<OperandPattern, GenError>(GenError::PatternSyntax),
            }
        }),
{
    let cs = str_to_chars(pattern);
    assert(cs@.subrange(0, cs@.len() as int) =~= pattern@);
    parse_sub_pattern(&cs, 0, cs.len())
}

/// Parses the option strings into a generation configuration.  Fails with
/// a syntax error exactly on a malformed pattern string, or on a fixed
/// result combined with the mixed category, which leaves the operator of
/// the fixed target ambiguous.
pub fn parse_args(args: &AddMinusOpts) -> (r: Result<ParsedArgs, GenError>)
    ensures
        ({
            let cfg = operand_config_spec(args.operand_pattern@);
            let cat = category_spec(args.category@);
            match r {
                Ok(pa) => pa.parsed_from(*args) && !(pa.operand_config is FixedResult
                    && pa.category is Mixed),
                Err(e) => e == GenError::PatternSyntax && (cfg is None || (cfg matches Some(c)
                    && c is FixedResult && cat is Mixed)),
            }
        }),
{
    let cs = str_to_chars(&args.operand_pattern);
    let (first_comma, comma_count) = scan_commas(&cs);
    let config: OperandConfig;
    if comma_count == 1 {
        proof {
            assert(cs@.subrange(0, first_comma as int) =~= cs@.take(first_comma as int));
            assert(cs@.subrange(first_comma + 1, cs@.len() as int) =~= cs@.skip(first_comma + 1));
        }
        let left = match parse_sub_pattern(&cs, 0, first_comma) {
            Ok(p) => p,
            Err(e) => {
                return Err(e);
            },
        };
        let right = match parse_sub_pattern(&cs, first_comma + 1, cs.len()) {
            Ok(p) => p,
            Err(e) => {
                return Err(e);
            },
        };
        config = OperandConfig::TwoOperand(left, right);
    } else {
        let ghost seg = cs@.take(first_comma as int);
        if first_comma > 0 && cs[0] == '=' {
            proof {
                assert(seg.skip(1) =~= cs@.subrange(1, first_comma as int));
            }
            let target = match parse_u16_range(&cs, 1, first_comma) {
                Ok(v) => v,
                Err(e) => {
                    return Err(e);
                },
            };
            config = OperandConfig::FixedResult(target);
        } else {
            proof {
                assert(seg =~= cs@.subrange(0, first_comma as int));
            }
            let p = match parse_sub_pattern(&cs, 0, first_comma) {
                Ok(p) => p,
                Err(e) => {
                    return Err(e);
                },
            };
            config = OperandConfig::OneOperand(p);
        }
    }
    let category = parse_category(&args.category);
    let is_fixed = match config {
        OperandConfig::FixedResult(_) => true,
        _ => false,
    };
    let is_mixed = match category {
        Category::Mixed => true,
        _ => false,
    };
    if is_fixed && is_mixed {
        return Err(GenError::PatternSyntax);
    }
    Ok(
        ParsedArgs {
            count: args.count,
            column_per_page: args.column_per_page,
            category,
            operand_config: config,
            number_min_inclusive: args.number_min_inclusive,
            number_max_inclusive: args.number_max_inclusive,
            result_min_inclusive: args.result_min_inclusive,
            result_max_inclusive: args.result_max_inclusive,
            output_docx_font_size: args.output_docx_font_size,
        },
    )
}

/// Reads the operator category off the first character.
fn parse_category(s: &str) -> (c: Category)
    ensures
        c == category_spec(s@),
{
    let n = s.unicode_len();
    if n >= 1 {
        let c0 = s.get_char(0);
        if c0 == '+' {
            Category::Add
        } else if c0 == '_' {
            Category::Subtract
        } else {
            Category::Mixed
        }
    } else {
        Category::Mixed
    }
}

} // verus!
