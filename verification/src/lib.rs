//! Generator for printable math practice sheets.
//!
//! The crate produces two kinds of content, both as plain rendered lines:
//! arithmetic expressions (addition/subtraction) whose operands are drawn
//! under a small constraint language, and "missing number" sequences where
//! randomly placed gaps hide parts of an arithmetic run.  All document and
//! file handling lives outside this crate; the functions here only compute
//! in-memory values.

use vstd::prelude::*;

pub mod add_minus;
pub mod layout;
pub mod missing_number;
pub mod pattern;
pub mod render;
mod rng;
pub mod utils;

verus! {

/// Errors of the generation core.
#[derive(Clone, Copy, Debug, PartialEq, Eq, Structural)]
pub enum GenError {
    /// The operand-pattern string is malformed.
    PatternSyntax,
    /// The constraints admit no solution within a bounded search.
    Infeasible,
}

/// The operator category an expression sheet is generated for.
#[derive(Clone, Copy, Debug, PartialEq, Eq, Structural)]
pub enum Category {
    Add,
    Subtract,
    Mixed,
}

/// A constraint on one operand's allowed values.
#[derive(Clone, Copy, Debug, PartialEq, Eq, Structural)]
pub enum OperandPattern {
    /// Any value within the numeric bounds.
    Wildcard,
    /// The value must be a multiple of the given number; a sampled value
    /// that is not is rounded to the nearest valid multiple within bounds.
    MultipleOf(u16),
    /// A fixed value, ignoring the numeric bounds.
    Constant(u16),
    /// A uniform draw from the given inclusive range, ignoring the numeric
    /// bounds.
    ConstantRange(u16, u16),
}

impl OperandPattern {
    /// Structural validity: a multiple constraint needs a nonzero modulus
    /// and a range must not be reversed.  Parsing only produces patterns
    /// for which this holds.
    pub open spec fn wf(self) -> bool {
        match self {
            OperandPattern::Wildcard => true,
            OperandPattern::MultipleOf(k) => k >= 1,
            OperandPattern::Constant(_) => true,
            OperandPattern::ConstantRange(lo, hi) => lo <= hi,
        }
    }
}

/// How the two operands of an expression are constrained.
#[derive(Clone, Copy, Debug, PartialEq, Eq, Structural)]
pub enum OperandConfig {
    /// Left and right operand each follow their own pattern.
    TwoOperand(OperandPattern, OperandPattern),
    /// Both operands are equal and follow one pattern.
    OneOperand(OperandPattern),
    /// The operands must sum (or differ) to the given target.
    FixedResult(u16),
}

impl OperandConfig {
    pub open spec fn wf(self) -> bool {
        match self {
            OperandConfig::TwoOperand(l, r) => l.wf() && r.wf(),
            OperandConfig::OneOperand(p) => p.wf(),
            OperandConfig::FixedResult(_) => true,
        }
    }
}

/// Options for an addition/subtraction sheet.
#[derive(Debug)]
pub struct AddMinusOpts {
    /// How many expressions to generate.
    pub count: u16,
    /// How many expressions share one line.
    pub column_per_page: u16,
    /// Operator category: a string starting with `+` selects addition,
    /// one starting with `_` subtraction, anything else a random mix.
    pub category: String,
    /// The operand-pattern string, e.g. `*,*` or `10*,5*` or `=10`.
    pub operand_pattern: String,
    /// Smallest operand value drawn.
    pub number_min_inclusive: u16,
    /// Largest operand value drawn.
    pub number_max_inclusive: u16,
    /// Smallest allowed signed result.
    pub result_min_inclusive: i16,
    /// Largest allowed signed result.
    pub result_max_inclusive: i16,
    /// Font size the surrounding document layer uses; not interpreted here.
    pub output_docx_font_size: u16,
}

impl AddMinusOpts {
    /// The bounds invariant every generation call requires.
    pub open spec fn bounds_wf(self) -> bool {
        &&& self.number_min_inclusive <= self.number_max_inclusive
        &&& self.result_min_inclusive <= self.result_max_inclusive
    }
}

/// Options for a missing-number sheet.
#[derive(Debug)]
pub struct MissingNumberOpts {
    /// How many sequence lines to generate.
    pub count: u16,
    /// Largest number of positions a single gap may hide.
    pub miss_max_per_gap: u16,
    /// How many gaps each line holds.
    pub gaps_per_line: u16,
    /// Signed stride between neighbouring numbers; its sign decides
    /// whether the run ascends or descends.
    pub step: i16,
    /// Whether the starting number must be a multiple of the stride.
    pub start_as_multiple_step: bool,
    /// Character budget of one rendered line.
    pub line_width: u16,
    /// Smallest number allowed in a run.
    pub number_min_inclusive: u16,
    /// Soft upper reference for the numbers of a run.
    pub number_max_inclusive: u16,
    /// Font size the surrounding document layer uses; not interpreted here.
    pub output_docx_font_size: u16,
}

impl MissingNumberOpts {
    /// The invariant every sequence generation call requires: a nonzero
    /// stride, ordered bounds, and at least one gap of at least one cell.
    pub open spec fn wf(self) -> bool {
        &&& self.step != 0
        &&& self.number_min_inclusive <= self.number_max_inclusive
        &&& self.miss_max_per_gap >= 1
        &&& self.gaps_per_line >= 1
    }
}

} // verus!
