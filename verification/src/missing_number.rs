//! The missing-number sequence builder.
//!
//! A line is an arithmetic run that fits a character budget, with a few
//! randomly placed gaps hidden behind underscores; at least one visible
//! number separates consecutive gaps, and each blank is as wide as the
//! number it conceals.

use crate::layout::{join_sep, lemma_join_sep_push, str_views};
use crate::rng::{rand_u16_inclusive, rand_usize_inclusive};
use crate::utils::{char_len, dec_spec, digit_count, push_char, repeat_char, repeat_char_string, u16_to_string};
use crate::{GenError, MissingNumberOpts};
use vstd::prelude::*;
use vstd::string::StringExecFns;

verus! {

/// The magnitude of the stride.
pub open spec fn spec_step_abs(step: i16) -> int {
    if step >= 0 {
        step as int
    } else {
        -(step as int)
    }
}

/// The value reached by walking down from `number` in strides of `step`
/// while the accumulated rendered width stays within `lw`: the lowest
/// start whose ascending run back up fits the budget.
pub open spec fn desc_probe(number: u16, width: int, lw: int, step: u16) -> u16
    decreases number,
{
    if width > lw || step == 0 || number < step {
        number
    } else {
        desc_probe(
            (number - step) as u16,
            width + digit_count((number - step) as nat) + 1,
            lw,
            step,
        )
    }
}

/// The value reached by walking up from `number` in strides of `step`
/// while the accumulated rendered width stays within `lw`, or nothing
/// when a stride would leave the 16-bit range: the highest start whose
/// descending run back down fits the budget.
pub open spec fn asc_probe(number: u16, width: int, lw: int, step: u16) -> Option<u16>
    decreases 65536 - number,
{
    if width > lw || step == 0 {
        Some(number)
    } else if number + step > 65535 {
        None
    } else {
        asc_probe(
            (number + step) as u16,
            width + digit_count((number + step) as nat) + 1,
            lw,
            step,
        )
    }
}

/// The interval of run starts an ascending configuration admits: the
/// start must leave `min_numbers` strides below the upper bound and the
/// run from it must fit the line width.
pub open spec fn asc_start_window(opts: MissingNumberOpts, min_numbers: u16) -> Option<(u16, u16)> {
    let stp = spec_step_abs(opts.step) as u16;
    let min = opts.number_min_inclusive;
    let max = opts.number_max_inclusive;
    if min_numbers as int * stp as int > max as int {
        None
    } else {
        let n = desc_probe(max, digit_count(max as nat) as int, opts.line_width as int, stp);
        if n as int + stp as int > 65535 {
            None
        } else {
            let upper = vstd::math::min(
                max as int - min_numbers as int * stp as int,
                n as int + stp as int,
            );
            if upper < min as int {
                None
            } else {
                Some((min, upper as u16))
            }
        }
    }
}

/// The interval of run starts a descending configuration admits: the
/// start must sit `min_numbers` strides above the lower bound; the upper
/// bound acts only as a soft reference.
pub open spec fn desc_start_window(opts: MissingNumberOpts, min_numbers: u16) -> Option<(u16, u16)> {
    let stp = spec_step_abs(opts.step) as u16;
    let min = opts.number_min_inclusive;
    let max = opts.number_max_inclusive;
    if min as int + min_numbers as int * stp as int > 65535 {
        None
    } else {
        match asc_probe(min, digit_count(min as nat) as int, opts.line_width as int, stp) {
            None => None,
            Some(n) => {
                if n < stp {
                    None
                } else {
                    let lower = vstd::math::max(
                        min as int + min_numbers as int * stp as int,
                        n as int - stp as int,
                    );
                    if lower > max as int {
                        None
                    } else {
                        Some((lower as u16, max))
                    }
                }
            },
        }
    }
}

/// The interval the chosen start is drawn from, or nothing when the
/// configuration is infeasible.
pub open spec fn start_window(opts: MissingNumberOpts, min_numbers: u16) -> Option<(u16, u16)> {
    if opts.step > 0 {
        asc_start_window(opts, min_numbers)
    } else {
        desc_start_window(opts, min_numbers)
    }
}

/// What holds of every start the selection returns: the feasibility
/// window exists; without the multiple-of-stride flag the start lies in
/// it, with the flag it is a stride multiple at or above the lower
/// bound.
pub open spec fn start_ok(opts: MissingNumberOpts, min_numbers: u16, s: u16) -> bool {
    &&& start_window(opts, min_numbers) is Some
    &&& s >= opts.number_min_inclusive
    &&& opts.start_as_multiple_step ==> s as int % spec_step_abs(opts.step) == 0
    &&& !opts.start_as_multiple_step ==> (start_window(opts, min_numbers) matches Some(w) && w.0
        <= s <= w.1)
}

/// The run grown from `number` with the rendered width already at
/// `width`: entries are appended stride by stride while the accumulated
/// width stays within the budget, and the growth also stops where a
/// stride would leave the 16-bit range.
pub open spec fn run_from_at(number: u16, width: int, opts: MissingNumberOpts) -> Seq<u16>
    decreases (if opts.step > 0 {
        65536 - number as int
    } else {
        number as int
    }),
{
    let stp = spec_step_abs(opts.step) as u16;
    if width > opts.line_width as int || stp == 0 {
        Seq::empty()
    } else if opts.step > 0 {
        if number + stp > 65535 {
            seq![number]
        } else {
            seq![number] + run_from_at(
                (number + stp) as u16,
                width + 1 + digit_count((number + stp) as nat),
                opts,
            )
        }
    } else {
        if number < stp {
            seq![number]
        } else {
            seq![number] + run_from_at(
                (number - stp) as u16,
                width + 1 + digit_count((number - stp) as nat),
                opts,
            )
        }
    }
}

/// The whole run grown from a chosen start.
pub open spec fn run_from(start: u16, opts: MissingNumberOpts) -> Seq<u16> {
    run_from_at(start, digit_count(start as nat) as int, opts)
}

impl MissingNumberOpts {
    /// Computes the magnitude of the stride.
    fn step_abs(&self) -> (s: u16)
        requires
            self.step != 0,
        ensures
            s == spec_step_abs(self.step),
            s >= 1,
    {
        if self.step >= 0 {
            self.step as u16
        } else {
            let v: i32 = -(self.step as i32);
            v as u16
        }
    }

    /// Draws the size of every gap of one line, each uniform between one
    /// and the configured maximum.
    pub fn gen_gaps(&self) -> (gaps: Vec<u16>)
        requires
            self.wf(),
        ensures
            gaps@.len() == self.gaps_per_line as nat,
            forall|i: int| 0 <= i < gaps@.len() ==> 1 <= #[trigger] gaps@[i] <= self.miss_max_per_gap,
    {
        let mut gaps: Vec<u16> = Vec::new();
        let mut i: u16 = 0;
        while i < self.gaps_per_line
            invariant
                self.wf(),
                i as nat == gaps@.len(),
                i <= self.gaps_per_line,
                forall|k: int|
                    0 <= k < gaps@.len() ==> 1 <= #[trigger] gaps@[k] <= self.miss_max_per_gap,
            decreases self.gaps_per_line - i,
        {
            let g = rand_u16_inclusive(1, self.miss_max_per_gap);
            gaps.push(g);
            i = i + 1;
        }
        gaps
    }

    /// Picks a run start that leaves room for `min_numbers` entries under
    /// both the stride and the line-width budget: for an ascending run
    /// the search walks down from the upper bound, for a descending run
    /// up from the lower bound, where the upper bound is only a soft
    /// reference.  Without the multiple-of-stride flag the start lies in
    /// the feasibility window and success is owed exactly when that
    /// window exists; rounding to a stride multiple may leave the window
    /// upward and can itself overflow, so with the flag only the lower
    /// bound and the multiple are promised.
    pub fn gen_num_start(&self, min_numbers: u16) -> (res: Result<u16, GenError>)
        requires
            self.wf(),
        ensures
            match res {
                Ok(s) => {
                    &&& start_ok(*self, min_numbers, s)
                    &&& (!self.start_as_multiple_step && self.step > 0) ==> s as int
                        + min_numbers as int * spec_step_abs(self.step)
                        <= self.number_max_inclusive as int
                    &&& (!self.start_as_multiple_step && self.step < 0) ==> s as int
                        >= self.number_min_inclusive as int + min_numbers as int * spec_step_abs(
                        self.step,
                    )
                },
                Err(e) => e == GenError::Infeasible,
            },
            !self.start_as_multiple_step && start_window(*self, min_numbers) is Some ==> res is Ok,
    {
        let step = self.step_abs();
        proof {
            assert(spec_step_abs(self.step) as u16 == step);
        }
        let min = self.number_min_inclusive;
        let max = self.number_max_inclusive;
        let lw = self.line_width;
        let lower: u16;
        let upper: u16;
        proof {
            assert((min_numbers as int) * (step as int) <= 65535 * 65535) by (nonlinear_arith)
                requires
                    0 <= min_numbers as int <= 65535,
                    0 <= step as int <= 65535,
            ;
        }
        if self.step > 0 {
            let need = (min_numbers as u32) * (step as u32);
            if need > max as u32 {
                return Err(GenError::Infeasible);
            }
            let mut up: u16 = max - (need as u16);
            let mut number: u16 = max;
            proof {
                crate::utils::lemma_digit_count_u16(number as nat);
            }
            let mut width: u32 = char_len(number) as u32;
            let ghost probe = desc_probe(max, digit_count(max as nat) as int, lw as int, step);
            while width <= lw as u32
                invariant
                    step >= 1,
                    number <= max,
                    width <= lw as u32 + 7,
                    probe == desc_probe(number, width as int, lw as int, step),
                ensures
                    probe == number,
                decreases lw as int + 7 - width as int,
            {
                if number < step {
                    proof {
                        assert(desc_probe(number, width as int, lw as int, step) == number);
                    }
                    break ;
                }
                number = number - step;
                let cl = char_len(number);
                proof {
                    crate::utils::lemma_digit_count_u16(number as nat);
                }
                width = width + cl as u32 + 1;
            }
            proof {
                assert(probe == number);
            }
            let number2: u32 = number as u32 + step as u32;
            if number2 > 65535 {
                return Err(GenError::Infeasible);
            }
            let nstart = number2 as u16;
            if nstart < up {
                up = nstart;
            }
            if up < min {
                return Err(GenError::Infeasible);
            }
            lower = min;
            upper = up;
        } else {
            let need = (min_numbers as u32) * (step as u32);
            let lower0: u32 = min as u32 + need;
            if lower0 > 65535 {
                return Err(GenError::Infeasible);
            }
            let mut low: u16 = lower0 as u16;
            let mut number: u16 = min;
            proof {
                crate::utils::lemma_digit_count_u16(number as nat);
            }
            let mut width: u32 = char_len(number) as u32;
            let ghost probe = asc_probe(min, digit_count(min as nat) as int, lw as int, step);
            while width <= lw as u32
                invariant
                    step >= 1,
                    width <= lw as u32 + 7,
                    self.step < 0,
                    spec_step_abs(self.step) as u16 == step,
                    min == self.number_min_inclusive,
                    lw == self.line_width,
                    min as int + min_numbers as int * step as int <= 65535,
                    probe == asc_probe(min, digit_count(min as nat) as int, lw as int, step),
                    probe == asc_probe(number, width as int, lw as int, step),
                decreases lw as int + 7 - width as int,
            {
                if (number as u32) + (step as u32) > 65535 {
                    proof {
                        assert(probe is None);
                        assert(desc_start_window(*self, min_numbers) is None);
                    }
                    return Err(GenError::Infeasible);
                }
                number = number + step;
                let cl = char_len(number);
                proof {
                    crate::utils::lemma_digit_count_u16(number as nat);
                }
                width = width + cl as u32 + 1;
            }
            proof {
                assert(probe == Some(number));
            }
            if number < step {
                proof {
                    assert(desc_start_window(*self, min_numbers) is None);
                }
                return Err(GenError::Infeasible);
            }
            number = number - step;
            if number > low {
                low = number;
            }
            lower = low;
            upper = max;
        }
        proof {
            if self.step > 0 {
                assert(start_window(*self, min_numbers) == Some((lower, upper)));
            } else {
                assert(lower <= upper ==> start_window(*self, min_numbers) == Some((
                    lower,
                    upper,
                )));
                assert(lower > upper ==> start_window(*self, min_numbers) is None);
            }
        }
        let start: u16;
        if lower == upper {
            start = lower;
        } else if lower > upper {
            return Err(GenError::Infeasible);
        } else {
            start = rand_u16_inclusive(lower, upper - 1);
        }
        proof {
            assert(start_window(*self, min_numbers) == Some((lower, upper)));
            assert(lower <= start <= upper);
        }
        if self.start_as_multiple_step {
            if start % step == 0 {
                return Ok(start);
            }
            let t0 = start / step;
            let r = start % step;
            proof {
                vstd::arithmetic::div_mod::lemma_fundamental_div_mod(start as int, step as int);
                vstd::arithmetic::div_mod::lemma_mod_bound(start as int, step as int);
                assert(t0 * step == step * t0) by (nonlinear_arith);
                assert((t0 as int + 1) * step == t0 * step + step) by (nonlinear_arith);
                assert((t0 as int + 2) * step == t0 * step + 2 * step) by (nonlinear_arith);
            }
            let t: u32 = if r >= step - r {
                t0 as u32 + 1
            } else {
                t0 as u32
            };
            proof {
                assert((t as int) * (step as int) <= 65536 * 65535) by (nonlinear_arith)
                    requires
                        0 <= t as int <= 65536,
                        0 <= step as int <= 65535,
                ;
                assert((t as int + 1) * (step as int) <= 65537 * 65535) by (nonlinear_arith)
                    requires
                        0 <= t as int <= 65536,
                        0 <= step as int <= 65535,
                ;
            }
            let cand: u32 = t * (step as u32);
            if cand > 65535 {
                return Err(GenError::Infeasible);
            }
            let s2: u16 = cand as u16;
            proof {
                vstd::arithmetic::div_mod::lemma_mod_multiples_basic(t as int, step as int);
            }
            if s2 < min {
                let cand2: u32 = (t + 1) * (step as u32);
                if cand2 > 65535 {
                    return Err(GenError::Infeasible);
                }
                let s3: u16 = cand2 as u16;
                proof {
                    vstd::arithmetic::div_mod::lemma_mod_multiples_basic(t as int + 1, step as int);
                    assert((t as int + 1) * step >= (t0 as int + 1) * step) by (nonlinear_arith)
                        requires
                            t as int >= t0 as int,
                            step as int >= 1,
                    ;
                    assert(s3 >= min);
                }
                return Ok(s3);
            }
            return Ok(s2);
        }
        Ok(start)
    }
}

/// The rendered width of a run: each number's digits plus one separating
/// space between neighbours.
pub open spec fn run_width(run: Seq<u16>) -> int
    decreases run.len(),
{
    if run.len() == 0 {
        0
    } else if run.len() == 1 {
        digit_count(run[0] as nat) as int
    } else {
        run_width(run.drop_last()) + 1 + digit_count(run.last() as nat) as int
    }
}

/// An arithmetic run under the options: neighbours differ by the signed
/// stride, the first entry respects the start constraints, and the
/// rendered width fits the line budget.
pub open spec fn run_ok(opts: MissingNumberOpts, run: Seq<u16>) -> bool {
    &&& forall|i: int|
        0 <= i < run.len() - 1 ==> (#[trigger] run[i]) as int + opts.step as int == run[i + 1] as int
    &&& run.len() >= 1 ==> run[0] >= opts.number_min_inclusive
    &&& (run.len() >= 1 && opts.start_as_multiple_step) ==> run[0] as int % spec_step_abs(opts.step)
        == 0
    &&& run.len() >= 1 ==> run_width(run) <= opts.line_width as int
}

impl MissingNumberOpts {
    /// Fills `numbers` with exactly the run grown from a drawn feasible
    /// start: maximal under the line budget, so no shorter stop is ever
    /// taken.  Success is owed whenever the feasibility window exists
    /// and the start need not be rounded to a stride multiple.
    pub fn gen_numbers(&self, numbers: &mut Vec<u16>, min_numbers: u16) -> (res: Result<
        (),
        GenError,
    >)
        requires
            self.wf(),
            old(numbers)@.len() == 0,
        ensures
            match res {
                Ok(()) => run_ok(*self, final(numbers)@) && exists|start: u16|
                    start_ok(*self, min_numbers, start) && final(numbers)@ == run_from(
                        start,
                        *self,
                    ),
                Err(e) => e == GenError::Infeasible,
            },
            !self.start_as_multiple_step && start_window(*self, min_numbers) is Some ==> res is Ok,
    {
        let start = match self.gen_num_start(min_numbers) {
            Ok(s) => s,
            Err(e) => {
                return Err(e);
            },
        };
        let step = self.step_abs();
        let mut number = start;
        proof {
            crate::utils::lemma_digit_count_u16(number as nat);
        }
        let mut width: u32 = char_len(number) as u32;
        while width <= self.line_width as u32
            invariant_except_break
                numbers@.len() == 0 ==> number == start,
                numbers@.len() == 0 ==> width as int == digit_count(number as nat),
                numbers@.len() >= 1 ==> width as int == run_width(numbers@) + 1 + digit_count(
                    number as nat,
                ),
                numbers@.len() >= 1 ==> numbers@.last() as int + self.step as int == number as int,
                run_from(start, *self) == numbers@ + run_from_at(number, width as int, *self),
            invariant
                self.wf(),
                step == spec_step_abs(self.step),
                step >= 1,
                width <= self.line_width as u32 + 7,
                start >= self.number_min_inclusive,
                self.start_as_multiple_step ==> start as int % spec_step_abs(self.step) == 0,
                numbers@.len() >= 1 ==> numbers@[0] == start,
                forall|i: int|
                    0 <= i < numbers@.len() - 1 ==> (#[trigger] numbers@[i]) as int
                        + self.step as int == numbers@[i + 1] as int,
                numbers@.len() >= 1 ==> run_width(numbers@) <= self.line_width as int,
            ensures
                run_ok(*self, numbers@),
                run_from(start, *self) == numbers@,
            decreases self.line_width as int + 7 - width as int,
        {
            proof {
                assert(run_from_at(number, width as int, *self) == (if self.step > 0 {
                    if number + step > 65535 {
                        seq![number]
                    } else {
                        seq![number] + run_from_at(
                            (number + step) as u16,
                            width as int + 1 + digit_count((number + step) as nat),
                            *self,
                        )
                    }
                } else {
                    if number < step {
                        seq![number]
                    } else {
                        seq![number] + run_from_at(
                            (number - step) as u16,
                            width as int + 1 + digit_count((number - step) as nat),
                            *self,
                        )
                    }
                }));
            }
            let ghost prev = numbers@;
            numbers.push(number);
            proof {
                if prev.len() == 0 {
                    assert(numbers@.len() == 1);
                    assert(numbers@[0] == number);
                    assert(run_width(numbers@) == digit_count(number as nat));
                } else {
                    assert(numbers@.drop_last() =~= prev);
                    assert(numbers@.last() == number);
                    assert(run_width(numbers@) == run_width(prev) + 1 + digit_count(number as nat));
                }
                assert(run_width(numbers@) == width as int);
                assert(run_width(numbers@) <= self.line_width as int);
                assert forall|i: int|
                    0 <= i < numbers@.len() - 1 implies (#[trigger] numbers@[i]) as int
                    + self.step as int == numbers@[i + 1] as int by {
                    if i < prev.len() - 1 {
                        assert(numbers@[i] == prev[i] && numbers@[i + 1] == prev[i + 1]);
                    } else {
                        assert(numbers@[i] == prev.last() && numbers@[i + 1] == number);
                    }
                }
            }
            if self.step > 0 {
                if (number as u32) + (step as u32) > 65535 {
                    proof {
                        assert(run_from(start, *self) =~= prev + seq![number]);
                        assert(run_from(start, *self) == numbers@);
                    }
                    break ;
                }
                number = number + step;
            } else {
                if number < step {
                    proof {
                        assert(run_from(start, *self) =~= prev + seq![number]);
                        assert(run_from(start, *self) == numbers@);
                    }
                    break ;
                }
                number = number - step;
            }
            proof {
                crate::utils::lemma_digit_count_u16(number as nat);
                assert(run_from(start, *self) =~= numbers@ + run_from_at(
                    number,
                    width as int + 1 + digit_count(number as nat),
                    *self,
                ));
            }
            width = width + 1 + char_len(number) as u32;
        }
        Ok(())
    }
}

/// The sum of the gap sizes.
pub open spec fn gap_sum(gaps: Seq<u16>) -> int
    decreases gaps.len(),
{
    if gaps.len() == 0 {
        0
    } else {
        gap_sum(gaps.drop_last()) + gaps.last()
    }
}

/// The fewest run entries that can host all gaps while keeping one
/// visible number between consecutive gaps.
pub open spec fn min_count_of(gaps: Seq<u16>) -> int {
    gap_sum(gaps) + gaps.len() - 1
}

/// The gap sum can also be peeled off the front.
proof fn lemma_gap_sum_first(s: Seq<u16>)
    requires
        s.len() >= 1,
    ensures
        gap_sum(s) == s[0] + gap_sum(s.drop_first()),
    decreases s.len(),
{
    if s.len() == 1 {
        assert(s.drop_first() =~= Seq::<u16>::empty());
        assert(s.drop_last() =~= Seq::<u16>::empty());
    } else {
        lemma_gap_sum_first(s.drop_last());
        assert(s.drop_last().drop_first() =~= s.drop_first().drop_last());
        assert(s.drop_last()[0] == s[0]);
        assert(s.drop_first().last() == s.last());
    }
}

/// Gaps of at least one cell each sum to at least their number.
proof fn lemma_gap_sum_lower(s: Seq<u16>)
    requires
        forall|g: int| 0 <= g < s.len() ==> #[trigger] s[g] >= 1,
    ensures
        gap_sum(s) >= s.len(),
    decreases s.len(),
{
    if s.len() >= 1 {
        assert(forall|g: int| 0 <= g < s.drop_last().len() ==> #[trigger] s.drop_last()[g] >= 1);
        lemma_gap_sum_lower(s.drop_last());
    }
}

/// Every run entry takes at least one character plus its separator.
proof fn lemma_run_width_min(run: Seq<u16>)
    ensures
        run_width(run) >= 2 * run.len() - 1,
    decreases run.len(),
{
    if run.len() > 1 {
        lemma_run_width_min(run.drop_last());
    }
}

/// Whether position `i` of the run falls inside one of the gaps.
pub open spec fn hidden_at(starts: Seq<usize>, gaps: Seq<u16>, i: int) -> bool {
    exists|g: int| 0 <= g < starts.len() && #[trigger] starts[g] <= i < starts[g] + gaps[g]
}

/// The rendered cells of a line: a hidden entry becomes underscores as
/// wide as the number it conceals, a visible entry its decimal digits.
pub open spec fn line_cells(numbers: Seq<u16>, starts: Seq<usize>, gaps: Seq<u16>) -> Seq<
    Seq<char>,
> {
    Seq::new(
        numbers.len(),
        |i: int|
            if hidden_at(starts, gaps, i) {
                repeat_char('_', digit_count(numbers[i] as nat))
            } else {
                dec_spec(numbers[i] as nat)
            },
    )
}

/// In-range gap intervals that never overlap: each gap ends inside the
/// run and at least one visible cell separates consecutive gaps.
pub open spec fn intervals_ok(starts: Seq<usize>, gaps: Seq<u16>, len: int) -> bool {
    &&& starts.len() == gaps.len()
    &&& forall|g: int| 0 <= g < starts.len() ==> #[trigger] starts[g] + gaps[g] <= len
    &&& forall|g: int| 0 <= g < starts.len() - 1 ==> #[trigger] starts[g] + gaps[g] < starts[g + 1]
}

/// The witness behind one generated line: its run, its gap sizes, and
/// where each gap was placed.
pub open spec fn line_witness_ok(
    opts: MissingNumberOpts,
    numbers: Seq<u16>,
    starts: Seq<usize>,
    gaps: Seq<u16>,
    line: Seq<char>,
) -> bool {
    &&& run_ok(opts, numbers)
    &&& gaps.len() == opts.gaps_per_line as nat
    &&& (forall|g: int| 0 <= g < gaps.len() ==> 1 <= #[trigger] gaps[g] <= opts.miss_max_per_gap)
    &&& numbers.len() >= min_count_of(gaps)
    &&& intervals_ok(starts, gaps, numbers.len() as int)
    &&& line == join_sep(line_cells(numbers, starts, gaps), seq![' '])
}

/// What one generated line satisfies: some run that fits the budget, cut
/// by as many non-overlapping gaps as configured, each blank as wide as
/// the number it hides, all joined by single spaces.
pub open spec fn single_line_ok(opts: MissingNumberOpts, line: Seq<char>) -> bool {
    exists|numbers: Seq<u16>, starts: Seq<usize>, gaps: Seq<u16>|
        line_witness_ok(opts, numbers, starts, gaps, line)
}

/// A start that fits the budget by itself grows a nonempty run that
/// begins with it.
pub proof fn lemma_run_from_head(start: u16, opts: MissingNumberOpts)
    requires
        opts.step != 0,
        digit_count(start as nat) <= opts.line_width as int,
    ensures
        run_from(start, opts).len() >= 1,
        run_from(start, opts)[0] == start,
{
    assert(spec_step_abs(opts.step) >= 1);
}

/// Whether one drawn set of gap sizes is harmless: its minimum count is
/// representable, the start window exists for it, and every start of the
/// window grows a run long enough to host the gaps.
pub open spec fn gap_draw_feasible(opts: MissingNumberOpts, gaps: Seq<u16>) -> bool {
    let mc = min_count_of(gaps);
    &&& 0 <= mc <= 65535
    &&& start_window(opts, mc as u16) is Some
    &&& forall|s: u16|
        #![trigger run_from(s, opts)]
        (start_window(opts, mc as u16) matches Some(w) && w.0 <= s <= w.1) ==> run_from(
            s,
            opts,
        ).len() >= mc
}

/// A configuration no draw can spoil: without the multiple-of-stride
/// flag (whose rounding may leave the window), every possible set of gap
/// sizes is harmless, so the builder is owed success.
pub open spec fn always_feasible(opts: MissingNumberOpts) -> bool {
    &&& !opts.start_as_multiple_step
    &&& forall|gaps: Seq<u16>|
        gaps.len() == opts.gaps_per_line as nat && (forall|g: int|
            0 <= g < gaps.len() ==> 1 <= #[trigger] gaps[g] <= opts.miss_max_per_gap)
            ==> #[trigger] gap_draw_feasible(opts, gaps)
}

/// Renders a run with its gaps: hidden entries as underscores, visible
/// entries as digits, single-space separated.
fn render_missing_line(numbers: &Vec<u16>, starts: &Vec<usize>, gaps: &Vec<u16>) -> (line: String)
    requires
        intervals_ok(starts@, gaps@, numbers@.len() as int),
    ensures
        line@ == join_sep(line_cells(numbers@, starts@, gaps@), seq![' ']),
{
    let ghost cells = line_cells(numbers@, starts@, gaps@);
    let _n = numbers.len();
    assert(numbers@.len() <= usize::MAX);
    let mut line = String::new();
    let mut i: usize = 0;
    while i < numbers.len()
        invariant
            i <= numbers@.len(),
            intervals_ok(starts@, gaps@, numbers@.len() as int),
            cells == line_cells(numbers@, starts@, gaps@),
            i == 0 ==> line@ == Seq::<char>::empty(),
            i >= 1 ==> line@ == join_sep(cells.take(i as int), seq![' ']),
        decreases numbers@.len() - i,
    {
        let mut found = false;
        let mut g: usize = 0;
        while g < starts.len()
            invariant
                g <= starts@.len(),
                numbers@.len() <= usize::MAX,
                intervals_ok(starts@, gaps@, numbers@.len() as int),
                found ==> hidden_at(starts@, gaps@, i as int),
                !found ==> forall|k: int|
                    #![trigger starts@[k]]
                    0 <= k < g ==> !(starts@[k] <= i as int && (i as int) < starts@[k] + gaps@[k]),
            decreases starts@.len() - g,
        {
            proof {
                assert(starts@[g as int] + gaps@[g as int] <= numbers@.len() as int);
            }
            if starts[g] <= i && i < starts[g] + gaps[g] as usize {
                found = true;
            }
            g = g + 1;
        }
        proof {
            if !found {
                assert(!hidden_at(starts@, gaps@, i as int));
            }
        }
        if i > 0 {
            push_char(&mut line, ' ');
        }
        let piece: String = if found {
            repeat_char_string('_', char_len(numbers[i]))
        } else {
            u16_to_string(numbers[i])
        };
        line.append(piece.as_str());
        proof {
            assert(cells[i as int] == piece@);
            assert(cells.take(i + 1) =~= cells.take(i as int).push(cells[i as int]));
            if i == 0 {
                assert(cells.take(1) =~= seq![cells[0]]);
                assert(join_sep(cells.take(1), seq![' ']) == cells[0]);
                assert(line@ =~= cells[0]);
            } else {
                lemma_join_sep_push(cells.take(i as int), seq![' '], cells[i as int]);
                assert(line@ =~= join_sep(cells.take(i as int), seq![' ']) + seq![' ']
                    + cells[i as int]);
            }
        }
        i = i + 1;
    }
    proof {
        if numbers@.len() == 0 {
            assert(cells.len() == 0);
            assert(join_sep(cells, seq![' ']) == Seq::<char>::empty());
        } else {
            assert(cells.take(numbers@.len() as int) =~= cells);
        }
    }
    line
}

impl MissingNumberOpts {
    /// Generates one missing-number line: gap sizes, a feasible run, and
    /// random gap positions that always fit and never collide.  Success
    /// is owed on a configuration no draw can spoil.
    pub fn gen_single_missing_numbers(&self) -> (res: Result<String, GenError>)
        requires
            self.wf(),
        ensures
            match res {
                Ok(line) => single_line_ok(*self, line@),
                Err(e) => e == GenError::Infeasible,
            },
            always_feasible(*self) ==> res is Ok,
    {
        let gaps = self.gen_gaps();
        let mut all_gap: u32 = 0;
        let mut i: usize = 0;
        while i < gaps.len()
            invariant
                i <= gaps@.len(),
                gaps@.len() <= 65535,
                forall|k: int| 0 <= k < gaps@.len() ==> 1 <= #[trigger] gaps@[k] <= 65535,
                all_gap as int == gap_sum(gaps@.take(i as int)),
                all_gap as int <= (i as int) * 65535,
            decreases gaps@.len() - i,
        {
            proof {
                assert(gaps@.take(i + 1).drop_last() =~= gaps@.take(i as int));
                assert(gaps@.take(i + 1).last() == gaps@[i as int]);
                assert((i as int) * 65535 + 65535 == (i as int + 1) * 65535) by (nonlinear_arith);
                assert((i as int + 1) * 65535 <= 65535 * 65535) by (nonlinear_arith)
                    requires
                        i as int + 1 <= 65535,
                ;
            }
            all_gap = all_gap + gaps[i] as u32;
            i = i + 1;
        }
        proof {
            assert(gaps@.take(gaps@.len() as int) =~= gaps@);
            lemma_gap_sum_lower(gaps@);
        }
        let min_numbers32: u32 = all_gap + (gaps.len() as u32) - 1;
        proof {
            if always_feasible(*self) {
                assert(gap_draw_feasible(*self, gaps@));
            }
        }
        if min_numbers32 > 65535 {
            return Err(GenError::Infeasible);
        }
        let min_numbers: u16 = min_numbers32 as u16;
        let mut numbers: Vec<u16> = Vec::new();
        match self.gen_numbers(&mut numbers, min_numbers) {
            Ok(_) => (),
            Err(e) => {
                proof {
                    if always_feasible(*self) {
                        assert(start_window(*self, min_numbers) is Some);
                        assert(false);
                    }
                }
                return Err(e);
            },
        }
        if numbers.len() < min_numbers as usize {
            proof {
                if always_feasible(*self) {
                    let st = choose|st: u16|
                        start_ok(*self, min_numbers, st) && numbers@ == run_from(st, *self);
                    assert(run_from(st, *self).len() >= min_count_of(gaps@));
                    assert(false);
                }
            }
            return Err(GenError::Infeasible);
        }
        proof {
            lemma_run_width_min(numbers@);
            assert(numbers@.len() >= 1);
            assert(numbers@.len() <= 32768);
        }
        proof {
            assert(gaps@.skip(0) =~= gaps@);
        }
        let mut starts: Vec<usize> = Vec::new();
        let mut pos: usize = 0;
        let mut reserve: u16 = min_numbers;
        let mut gi: usize = 0;
        while gi < gaps.len()
            invariant
                gi <= gaps@.len(),
                1 <= gaps@.len() <= 65535,
                forall|k: int| 0 <= k < gaps@.len() ==> 1 <= #[trigger] gaps@[k] <= 65535,
                numbers@.len() <= 32768,
                numbers@.len() >= min_count_of(gaps@),
                starts@.len() == gi,
                gi < gaps@.len() ==> reserve as int == gap_sum(gaps@.skip(gi as int)) + (
                gaps@.len() - gi) - 1,
                gi < gaps@.len() ==> pos as int + reserve as int <= numbers@.len(),
                forall|g: int|
                    0 <= g < gi ==> #[trigger] starts@[g] + gaps@[g] <= numbers@.len(),
                forall|g: int|
                    0 <= g < gi - 1 ==> #[trigger] starts@[g] + gaps@[g] < starts@[g + 1],
                gi >= 1 ==> starts@[gi - 1] + gaps@[gi - 1] < pos as int,
            decreases gaps@.len() - gi,
        {
            let gap = gaps[gi];
            proof {
                lemma_gap_sum_first(gaps@.skip(gi as int));
                assert(gaps@.skip(gi as int).drop_first() =~= gaps@.skip(gi as int + 1));
                assert(gaps@.skip(gi as int)[0] == gaps@[gi as int]);
                if gi as int + 1 < gaps@.len() {
                    assert(forall|k: int|
                        0 <= k < gaps@.skip(gi as int + 1).len() ==> #[trigger] gaps@.skip(
                            gi as int + 1,
                        )[k] >= 1);
                    lemma_gap_sum_lower(gaps@.skip(gi as int + 1));
                }
                assert(reserve >= gap);
            }
            let upper = numbers.len() - (reserve as usize);
            let gs = rand_usize_inclusive(pos, upper);
            let ghost prev_starts = starts@;
            starts.push(gs);
            pos = gs + (gap as usize) + 1;
            if reserve > gap {
                reserve = reserve - gap - 1;
            }
            proof {
                assert forall|g: int|
                    0 <= g < gi + 1 implies #[trigger] starts@[g] + gaps@[g]
                    <= numbers@.len() by {
                    if g < gi {
                        assert(starts@[g] == prev_starts[g]);
                    } else {
                        assert(starts@[g] == gs);
                    }
                }
                assert forall|g: int|
                    0 <= g < gi implies #[trigger] starts@[g] + gaps@[g] < starts@[g + 1] by {
                    if g < gi - 1 {
                        assert(starts@[g] == prev_starts[g] && starts@[g + 1] == prev_starts[g
                            + 1]);
                    } else {
                        assert(starts@[g] == prev_starts[g] && starts@[g + 1] == gs);
                    }
                }
            }
            gi = gi + 1;
        }
        let line = render_missing_line(&numbers, &starts, &gaps);
        proof {
            assert(line_witness_ok(*self, numbers@, starts@, gaps@, line@));
        }
        Ok(line)
    }

    /// Generates the rendered lines of one missing-number sheet.
    /// Success is owed on a configuration no draw can spoil.
    pub fn gen_missing_number_lines(&self) -> (res: Result<Vec<String>, GenError>)
        requires
            self.wf(),
        ensures
            match res {
                Ok(lines) => lines@.len() == self.count as nat && forall|i: int|
                    0 <= i < lines@.len() ==> single_line_ok(*self, #[trigger] str_views(lines@)[i]),
                Err(e) => e == GenError::Infeasible,
            },
            always_feasible(*self) ==> res is Ok,
    {
        let mut lines: Vec<String> = Vec::new();
        let mut i: u16 = 0;
        while i < self.count
            invariant
                self.wf(),
                i <= self.count,
                i as nat == lines@.len(),
                forall|k: int|
                    0 <= k < lines@.len() ==> single_line_ok(*self, #[trigger] str_views(lines@)[k]),
            decreases self.count - i,
        {
            let line = match self.gen_single_missing_numbers() {
                Ok(l) => l,
                Err(e) => {
                    return Err(e);
                },
            };
            let ghost prev = lines@;
            lines.push(line);
            proof {
                assert(str_views(lines@) =~= str_views(prev).push(line@));
                assert forall|k: int|
                    0 <= k < lines@.len() implies single_line_ok(
                    *self,
                    #[trigger] str_views(lines@)[k],
                ) by {
                    if k < prev.len() {
                        assert(str_views(lines@)[k] == str_views(prev)[k]);
                    } else {
                        assert(str_views(lines@)[k] == line@);
                    }
                }
            }
            i = i + 1;
        }
        Ok(lines)
    }
}

} // verus!
