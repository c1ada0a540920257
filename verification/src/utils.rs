//! Small numeric helpers shared by both generators: decimal widths,
//! decimal rendering, and rounding to the nearest multiple within a window.

use vstd::prelude::*;

verus! {

/// The number of decimal digits of `n` (1 for 0).
pub open spec fn digit_count(n: nat) -> nat
    decreases n,
{
    if n < 10 {
        1
    } else {
        1 + digit_count(n / 10)
    }
}

/// The character for one decimal digit (`d < 10`).
pub open spec fn digit_char(d: nat) -> char {
    if d == 0 {
        '0'
    } else if d == 1 {
        '1'
    } else if d == 2 {
        '2'
    } else if d == 3 {
        '3'
    } else if d == 4 {
        '4'
    } else if d == 5 {
        '5'
    } else if d == 6 {
        '6'
    } else if d == 7 {
        '7'
    } else if d == 8 {
        '8'
    } else {
        '9'
    }
}

/// The decimal rendering of `n`, most significant digit first.
pub open spec fn dec_spec(n: nat) -> Seq<char>
    decreases n,
{
    if n < 10 {
        seq![digit_char(n)]
    } else {
        dec_spec(n / 10).push(digit_char(n % 10))
    }
}

/// A decimal rendering is exactly as wide as the digit count says.
pub proof fn lemma_dec_spec_len(n: nat)
    ensures
        dec_spec(n).len() == digit_count(n),
    decreases n,
{
    if n >= 10 {
        lemma_dec_spec_len(n / 10);
    }
}

/// Every character of a decimal rendering is a digit.
pub proof fn lemma_dec_spec_digits(n: nat)
    ensures
        forall|i: int| 0 <= i < dec_spec(n).len() ==> is_digit_char(#[trigger] dec_spec(n)[i]),
    decreases n,
{
    if n < 10 {
        assert(dec_spec(n) =~= seq![digit_char(n)]);
        assert(is_digit_char(digit_char(n)));
    } else {
        lemma_dec_spec_digits(n / 10);
        let prefix = dec_spec(n / 10);
        assert forall|i: int| 0 <= i < dec_spec(n).len() implies is_digit_char(
            #[trigger] dec_spec(n)[i],
        ) by {
            if i < prefix.len() {
                assert(dec_spec(n)[i] == prefix[i]);
            } else {
                assert(dec_spec(n)[i] == digit_char(n % 10));
            }
        }
    }
}

/// Every 16-bit value is one to five digits wide.
pub proof fn lemma_digit_count_u16(n: nat)
    requires
        n <= 65535,
    ensures
        1 <= digit_count(n) <= 5,
{
    if n >= 10 {
        let n1 = n / 10;
        assert(digit_count(n) == 1 + digit_count(n1));
        assert(n1 <= 6553);
        if n1 >= 10 {
            let n2 = n1 / 10;
            assert(digit_count(n1) == 1 + digit_count(n2));
            assert(n2 <= 655);
            if n2 >= 10 {
                let n3 = n2 / 10;
                assert(digit_count(n2) == 1 + digit_count(n3));
                assert(n3 <= 65);
                if n3 >= 10 {
                    let n4 = n3 / 10;
                    assert(digit_count(n3) == 1 + digit_count(n4));
                    assert(n4 <= 6);
                    assert(digit_count(n4) == 1);
                } else {
                    assert(digit_count(n3) == 1);
                }
            } else {
                assert(digit_count(n2) == 1);
            }
        } else {
            assert(digit_count(n1) == 1);
        }
    } else {
        assert(digit_count(n) == 1);
    }
}

/// Whether `c` is a decimal digit character.
pub open spec fn is_digit_char(c: char) -> bool {
    '0' <= c <= '9'
}

/// `c` repeated `n` times.
pub open spec fn repeat_char(c: char, n: nat) -> Seq<char>
    decreases n,
{
    if n == 0 {
        Seq::empty()
    } else {
        repeat_char(c, (n - 1) as nat).push(c)
    }
}

/// Relies on String::push: it appends exactly the given character.
#[verifier::external_body]
pub(crate) fn push_char(s: &mut String, c: char)
    ensures
        final(s)@ == old(s)@.push(c),
{
    s.push(c);
}

/// Builds the string of `n` copies of `c`.
pub fn repeat_char_string(c: char, n: u16) -> (s: String)
    ensures
        s@ == repeat_char(c, n as nat),
{
    let mut s = String::new();
    let mut i: u16 = 0;
    while i < n
        invariant
            i <= n,
            s@ == repeat_char(c, i as nat),
        decreases n - i,
    {
        push_char(&mut s, c);
        i = i + 1;
    }
    s
}

/// Renders `n` in decimal.
pub fn u16_to_string(n: u16) -> (s: String)
    ensures
        s@ == dec_spec(n as nat),
    decreases n,
{
    if n < 10 {
        let mut s = String::new();
        push_char(&mut s, digit_to_char(n));
        assert(s@ =~= dec_spec(n as nat));
        s
    } else {
        let mut s = u16_to_string(n / 10);
        push_char(&mut s, digit_to_char(n % 10));
        assert(s@ =~= dec_spec(n as nat));
        s
    }
}

/// The character for the digit `d`.
fn digit_to_char(d: u16) -> (c: char)
    requires
        d < 10,
    ensures
        c == digit_char(d as nat),
{
    if d == 0 {
        '0'
    } else if d == 1 {
        '1'
    } else if d == 2 {
        '2'
    } else if d == 3 {
        '3'
    } else if d == 4 {
        '4'
    } else if d == 5 {
        '5'
    } else if d == 6 {
        '6'
    } else if d == 7 {
        '7'
    } else if d == 8 {
        '8'
    } else {
        '9'
    }
}

/// The decimal width of `number`, computed without rendering it.
pub fn char_len(number: u16) -> (len: u16)
    ensures
        len == digit_count(number as nat),
{
    proof {
        lemma_digit_count_u16(number as nat);
    }
    let mut n = number;
    let mut len: u16 = 0;
    if n == 0 {
        len = 1;
    }
    while n != 0
        invariant
            digit_count(number as nat) <= 5,
            n == 0 ==> len == digit_count(number as nat),
            n > 0 ==> len + digit_count(n as nat) == digit_count(number as nat),
        decreases n,
    {
        proof {
            lemma_digit_count_u16(n as nat);
        }
        len = len + 1;
        n = n / 10;
    }
    len
}

/// What `round_to` returns: the nearest multiple, then one corrective step
/// down if that lands at or above `end`, then one corrective step up from
/// the nearest multiple if the value so far falls below `start`.
pub open spec fn round_to_spec(number: int, multiple: int, start: int, end: int) -> int {
    let times = if (number % multiple) * 2 >= multiple {
        number / multiple + 1
    } else {
        number / multiple
    };
    let a0 = times * multiple;
    let a1 = if a0 >= end {
        (times - 1) * multiple
    } else {
        a0
    };
    if a1 < start {
        (times + 1) * multiple
    } else {
        a1
    }
}

/// A multiple of `d` that is at most `d * t0 + r0` with `0 <= r0 < d` is
/// at most `d * t0`.
proof fn lemma_multiple_le(x: int, d: int, t0: int, r0: int)
    requires
        d >= 1,
        x % d == 0,
        0 <= r0 < d,
        x <= d * t0 + r0,
    ensures
        x <= d * t0,
{
    vstd::arithmetic::div_mod::lemma_fundamental_div_mod(x, d);
    let q = x / d;
    assert(d * q <= d * t0 + r0);
    assert(q <= t0) by (nonlinear_arith)
        requires
            d >= 1,
            0 <= r0 < d,
            d * q <= d * t0 + r0,
    ;
    assert(d * q <= d * t0) by (nonlinear_arith)
        requires
            d >= 1,
            q <= t0,
    ;
}

/// A multiple of `d` that exceeds `d * t0 + r0` with `0 <= r0 < d` is at
/// least `d * (t0 + 1)`.
proof fn lemma_multiple_ge(x: int, d: int, t0: int, r0: int)
    requires
        d >= 1,
        x % d == 0,
        0 <= r0 < d,
        x > d * t0 + r0,
    ensures
        x >= d * (t0 + 1),
{
    vstd::arithmetic::div_mod::lemma_fundamental_div_mod(x, d);
    let q = x / d;
    assert(d * q > d * t0 + r0);
    assert(q >= t0 + 1) by (nonlinear_arith)
        requires
            d >= 1,
            0 <= r0 < d,
            d * q > d * t0 + r0,
    ;
    assert(d * q >= d * (t0 + 1)) by (nonlinear_arith)
        requires
            d >= 1,
            q >= t0 + 1,
    ;
}

/// The law behind the multiple-of pattern: whenever the raw value and at
/// least one multiple of `multiple` lie inside the window `[start, end)`,
/// the adjusted value is the multiple inside the window nearest to the raw
/// value, with ties between two equally near multiples resolved upward.
pub proof fn lemma_round_to_nearest(number: int, multiple: int, start: int, end: int, m: int)
    requires
        multiple >= 1,
        start <= number < end,
        m % multiple == 0,
        start <= m < end,
    ensures
        ({
            let r = round_to_spec(number, multiple, start, end);
            &&& r % multiple == 0
            &&& start <= r < end
            &&& forall|x: int|
                #![trigger vstd::math::abs(x - number)]
                x % multiple == 0 && start <= x < end ==> vstd::math::abs(r - number)
                    <= vstd::math::abs(x - number)
            &&& forall|x: int|
                #![trigger vstd::math::abs(x - number)]
                x % multiple == 0 && start <= x < end && vstd::math::abs(x - number)
                    == vstd::math::abs(r - number) ==> x <= r
        }),
{
    let d = multiple;
    vstd::arithmetic::div_mod::lemma_fundamental_div_mod(number, d);
    vstd::arithmetic::div_mod::lemma_mod_bound(number, d);
    let t0 = number / d;
    let r0 = number % d;
    let low = d * t0;
    let high = d * (t0 + 1);
    assert(t0 * d == d * t0) by (nonlinear_arith);
    assert((t0 + 1) * d == d * t0 + d) by (nonlinear_arith);
    assert((t0 + 2) * d == d * t0 + 2 * d) by (nonlinear_arith);
    assert((t0 - 1) * d == d * t0 - d) by (nonlinear_arith);
    vstd::arithmetic::div_mod::lemma_mod_multiples_basic(t0, d);
    vstd::arithmetic::div_mod::lemma_mod_multiples_basic(t0 + 1, d);
    assert(low % d == 0);
    assert(high % d == 0);
    assert(low <= number < high);
    let r = round_to_spec(number, d, start, end);
    let tie = r0 * 2 >= d;
    let a0 = if tie {
        high
    } else {
        low
    };
    if a0 >= end {
        // Only the upper candidate can stick out the top; one step down
        // lands on `low`, which the witness `m` keeps inside the window.
        assert(tie);
        if m <= number {
            lemma_multiple_le(m, d, t0, r0);
        } else {
            lemma_multiple_ge(m, d, t0, r0);
        }
        assert(m <= low);
        assert(start <= low < end);
        assert(r == low);
    } else if a0 >= start {
        // The nearest multiple already lies inside the window.
        assert(r == a0);
        assert(start <= r < end);
    } else {
        // Only the lower candidate can fall short; one step up from the
        // nearest multiple lands on `high`, kept inside by the witness.
        assert(!tie);
        if m <= number {
            lemma_multiple_le(m, d, t0, r0);
        } else {
            lemma_multiple_ge(m, d, t0, r0);
        }
        assert(m >= high);
        assert(start <= high < end);
        assert(r == high);
    }
    assert(start <= r < end);
    assert(r == low || r == high);
    assert forall|x: int|
        #![trigger vstd::math::abs(x - number)]
        x % d == 0 && start <= x < end implies vstd::math::abs(r - number) <= vstd::math::abs(
        x - number,
    ) by {
        if x <= number {
            lemma_multiple_le(x, d, t0, r0);
            assert(x <= low);
        } else {
            lemma_multiple_ge(x, d, t0, r0);
            assert(x >= high);
        }
        if r == high {
            // `r` is `high` only when rounding went up or the window forced
            // the step up; either way no in-window multiple is nearer.
            if x <= number {
                if a0 < start {
                    assert(false);
                } else {
                    assert(tie);
                }
            }
        }
    }
    assert forall|x: int|
        #![trigger vstd::math::abs(x - number)]
        x % d == 0 && start <= x < end && vstd::math::abs(x - number) == vstd::math::abs(
        r - number,
    ) implies x <= r by {
        if x <= number {
            lemma_multiple_le(x, d, t0, r0);
            assert(x <= low);
        } else {
            lemma_multiple_ge(x, d, t0, r0);
            assert(x >= high);
            if r == low {
                // Equal distance with the value above means a tie, and a
                // tie rounds up, so `r` would have been `high`.
                assert(x == high);
                assert(r0 * 2 == d);
                assert(false);
            } else {
                assert(x == high);
            }
        }
    }
}

/// Rounds `number` to a multiple of `multiple`, nearest first and ties up,
/// then nudged one multiple toward the window `[start, end)` if the nearest
/// multiple lies outside it.
pub fn round_to(number: u16, multiple: u16, start: u16, end: u32) -> (r: u16)
    requires
        multiple >= 1,
        end >= 1,
        number + 2 * multiple <= u16::MAX,
    ensures
        r == round_to_spec(number as int, multiple as int, start as int, end as int),
{
    let times0 = number / multiple;
    let rem = number % multiple;
    proof {
        vstd::arithmetic::div_mod::lemma_fundamental_div_mod(number as int, multiple as int);
        vstd::arithmetic::div_mod::lemma_mod_bound(number as int, multiple as int);
        assert(times0 * multiple == multiple * times0) by (nonlinear_arith);
        assert((times0 + 1) * multiple == times0 * multiple + multiple) by (nonlinear_arith);
        assert((times0 + 2) * multiple == times0 * multiple + 2 * multiple) by (nonlinear_arith);
    }
    let times = if rem >= multiple - rem {
        times0 + 1
    } else {
        times0
    };
    let mut ans = times * multiple;
    if (ans as u32) >= end {
        assert(times >= 1) by {
            assert(times == 0 ==> times * multiple == 0) by (nonlinear_arith);
        }
        proof {
            assert((times - 1) * multiple == times * multiple - multiple) by (nonlinear_arith);
        }
        ans = (times - 1) * multiple;
    }
    if ans < start {
        proof {
            assert((times + 1) * multiple == times * multiple + multiple) by (nonlinear_arith);
        }
        ans = (times + 1) * multiple;
    }
    ans
}

} // verus!
