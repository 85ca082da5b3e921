//! The bounded-precision number accumulator.
//!
//! A number literal is validated and accumulated byte by byte against the RFC
//! 8259 grammar `[-]int[.frac][(e|E)[+-]exp]`.  Only a bounded window of the
//! most significant digits is retained — enough to represent any 64-bit
//! integer exactly — together with a running exponent correction, so literals
//! of unbounded textual length are processed in constant extra memory.
//! Dropped leading zero digits are free; dropped non-zero trailing digits mark
//! the result as imprecise.

use vstd::prelude::*;

use crate::JsonError;
use crate::reader::{PeekableRead, SliceError};

verus! {

/// Digits retained: enough for the longer of an exact `i64` (19 digits, plus
/// one for overflow detection) and a round-trippable `f64` (15 digits).
pub const SIGNIFICANT_DIGITS: usize = 20;

/// One extra slot for a single retained leading zero.
pub const DIGITS_LEN: usize = 21;

/// Digits kept when printing for `f64` consumption.
pub const F64_DIGITS: usize = 15;

/// Whether `c` terminates a number literal: a separator, a structure close,
/// or RFC 8259 whitespace.
pub open spec fn is_num_delim(c: u8) -> bool {
    c == 44 || c == 93 || c == 125 || c == 32 || c == 9 || c == 10 || c == 13
}

/// Whether `c` is an ASCII decimal digit.
pub open spec fn is_ascii_digit(c: u8) -> bool {
    48 <= c <= 57
}

/// The first position at or after `i` whose byte terminates a number literal,
/// or the length of `s` when none does.
pub open spec fn num_end(s: Seq<u8>, i: int) -> int
    decreases s.len() - i,
{
    if i < 0 || i >= s.len() {
        s.len() as int
    } else if is_num_delim(s[i]) {
        i
    } else {
        num_end(s, i + 1)
    }
}

/// A number literal never ends before its start, nor past the input.
pub proof fn lemma_num_end_bounds(s: Seq<u8>, i: int)
    requires
        0 <= i <= s.len(),
    ensures
        i <= num_end(s, i) <= s.len(),
    decreases s.len() - i,
{
    if i < s.len() && !is_num_delim(s[i]) {
        lemma_num_end_bounds(s, i + 1);
    }
}

/// The mathematical state of a [`NumberSink`].
pub ghost struct SinkModel {
    /// Whether a sign character is currently allowed.
    pub sign_character_allowed: bool,
    /// Whether any digit of the current part has been read.
    pub digits_in_current_part: bool,
    /// The sign of the number.
    pub negative: bool,
    /// The retained significant digits, always `DIGITS_LEN` ASCII digits.
    pub digits: Seq<u8>,
    /// How many retained digits are in use.
    pub i: int,
    /// Whether the decimal point is still ahead.
    pub before_decimal: bool,
    /// Whether the exponent marker is still ahead.
    pub before_exponent: bool,
    /// Whether the exponent carries a minus sign.
    pub negative_exponent: bool,
    /// The absolute value of the written exponent; `None` once it overflows.
    pub absolute_exponent: Option<i16>,
    /// The shift the retained digits need; kept within `i64` bounds.
    pub exponent_correction: int,
    /// Whether a non-zero digit was truncated.
    pub imprecise: bool,
    /// Whether the literal broke the RFC 8259 number grammar.
    pub invalid: bool,
}

/// Incrementing the exponent correction, clamped at the `i64` bound.
pub open spec fn sat_inc(x: int) -> int {
    if x < i64::MAX {
        x + 1
    } else {
        x
    }
}

/// Decrementing the exponent correction, clamped at the `i64` bound.
pub open spec fn sat_dec(x: int) -> int {
    if x > i64::MIN {
        x - 1
    } else {
        x
    }
}

/// Accumulating one decimal digit into the written exponent; overflow of the
/// `i16` capacity collapses it to `None`.
pub open spec fn exp_acc(ae: Option<i16>, c: u8) -> Option<i16> {
    match ae {
        None => None,
        Some(a) => if a * 10 < i16::MIN || a * 10 > i16::MAX {
            None
        } else if a * 10 + (c - 48) > i16::MAX || a * 10 + (c - 48) < i16::MIN {
            None
        } else {
            Some((a * 10 + (c - 48)) as i16)
        },
    }
}

/// The state of a sink before any byte has been pushed.
pub open spec fn sink_init() -> SinkModel {
    SinkModel {
        sign_character_allowed: true,
        digits_in_current_part: false,
        negative: false,
        digits: Seq::new(DIGITS_LEN as nat, |k: int| 48u8),
        i: 0,
        before_decimal: true,
        before_exponent: true,
        negative_exponent: false,
        absolute_exponent: Some(0i16),
        exponent_correction: 0,
        imprecise: false,
        invalid: false,
    }
}

/// The transition a sink makes on one byte.
///
/// Mirrors the grammar `[ minus ] [ 0 / 1-9 *DIGIT ] [ . 1*DIGIT ]
/// [ e [ minus / plus ] 1*DIGIT ]`: a digit is retained while the precision
/// window has room and otherwise folded into the correction, a stray byte
/// marks the literal invalid, and a delimiter changes nothing further.
pub open spec fn sink_push(m: SinkModel, c: u8) -> SinkModel {
    let m0 = SinkModel { sign_character_allowed: false, ..m };
    if m.sign_character_allowed && c == 45 {
        SinkModel {
            negative: m.negative || m.before_exponent,
            negative_exponent: m.negative_exponent || !m.before_exponent,
            ..m0
        }
    } else if m.sign_character_allowed && c == 43 {
        SinkModel { invalid: m.invalid || m.before_exponent, ..m0 }
    } else if m.before_decimal {
        if is_ascii_digit(c) {
            let inv = m.invalid || (m.digits_in_current_part && m.digits[0] == 48);
            if m.i != DIGITS_LEN {
                SinkModel {
                    invalid: inv,
                    digits_in_current_part: true,
                    digits: m.digits.update(m.i, c),
                    i: m.i + 1,
                    ..m0
                }
            } else {
                SinkModel {
                    invalid: inv,
                    digits_in_current_part: true,
                    exponent_correction: sat_inc(m.exponent_correction),
                    imprecise: m.imprecise || c != 48,
                    ..m0
                }
            }
        } else if is_num_delim(c) {
            m0
        } else if c == 46 {
            SinkModel {
                invalid: m.invalid || !m.digits_in_current_part,
                digits_in_current_part: false,
                before_decimal: false,
                ..m0
            }
        } else if c == 101 || c == 69 {
            SinkModel {
                invalid: m.invalid || !m.digits_in_current_part,
                sign_character_allowed: true,
                digits_in_current_part: false,
                before_decimal: false,
                before_exponent: false,
                ..m0
            }
        } else {
            SinkModel { invalid: true, ..m0 }
        }
    } else if m.before_exponent {
        if is_ascii_digit(c) {
            if m.i != DIGITS_LEN {
                let leading_zero = c == 48 && (m.i == 0 || (m.i == 1 && m.digits[0] == 48));
                SinkModel {
                    digits_in_current_part: true,
                    digits: m.digits.update(m.i, c),
                    i: m.i + (if leading_zero {
                        0int
                    } else {
                        1int
                    }),
                    exponent_correction: sat_dec(m.exponent_correction),
                    ..m0
                }
            } else {
                SinkModel { digits_in_current_part: true, imprecise: true, ..m0 }
            }
        } else if is_num_delim(c) {
            m0
        } else if c == 101 || c == 69 {
            SinkModel {
                invalid: m.invalid || !m.digits_in_current_part,
                sign_character_allowed: true,
                digits_in_current_part: false,
                before_decimal: false,
                before_exponent: false,
                ..m0
            }
        } else {
            SinkModel { invalid: true, ..m0 }
        }
    } else {
        if is_ascii_digit(c) {
            SinkModel {
                digits_in_current_part: true,
                absolute_exponent: exp_acc(m.absolute_exponent, c),
                ..m0
            }
        } else if is_num_delim(c) {
            m0
        } else {
            SinkModel { invalid: true, ..m0 }
        }
    }
}

/// The sink state after pushing every byte of `s` in order.
pub open spec fn sink_fold(m: SinkModel, s: Seq<u8>) -> SinkModel
    decreases s.len(),
{
    if s.len() == 0 {
        m
    } else {
        sink_push(sink_fold(m, s.drop_last()), s.last())
    }
}

/// Well-formedness of a sink state: the digit window is full-sized, in use
/// only up to its length, holds ASCII digits, and the written exponent is
/// never negative.
pub open spec fn sink_wf(m: SinkModel) -> bool {
    &&& m.digits.len() == DIGITS_LEN
    &&& 0 <= m.i <= DIGITS_LEN
    &&& (forall|k: int| 0 <= k < DIGITS_LEN ==> is_ascii_digit(#[trigger] m.digits[k]))
    &&& (match m.absolute_exponent {
        Some(a) => a >= 0,
        None => true,
    })
}

/// Pushing a byte preserves well-formedness.
pub proof fn lemma_sink_push_wf(m: SinkModel, c: u8)
    requires
        sink_wf(m),
    ensures
        sink_wf(sink_push(m, c)),
{
}

/// Folding any byte sequence preserves well-formedness.
pub proof fn lemma_sink_fold_wf(m: SinkModel, s: Seq<u8>)
    requires
        sink_wf(m),
    ensures
        sink_wf(sink_fold(m, s)),
    decreases s.len(),
{
    if s.len() > 0 {
        lemma_sink_fold_wf(m, s.drop_last());
        lemma_sink_push_wf(sink_fold(m, s.drop_last()), s.last());
    }
}

/// Dropping trailing zero digits while the exponent is negative.
pub open spec fn norm(digits: Seq<u8>, sd: int, e: int) -> (int, int)
    decreases sd,
{
    if e < 0 && sd > 0 && digits[sd - 1] == 48 {
        norm(digits, sd - 1, e + 1)
    } else {
        (sd, e)
    }
}

/// The significant digit count and normalized exponent of a sink state, or
/// `None` when the written exponent overflowed its capacity.
pub open spec fn sde_spec(m: SinkModel) -> Option<(int, int)> {
    match m.absolute_exponent {
        None => None,
        Some(ae) => {
            let emb: int = if m.negative_exponent {
                -(ae as int)
            } else {
                ae as int
            };
            let e0 = emb + m.exponent_correction;
            if e0 < i64::MIN || e0 > i64::MAX {
                None
            } else {
                Some(norm(m.digits, m.i, e0))
            }
        },
    }
}

/// The value of a sequence of ASCII digits read in base ten.
pub open spec fn digits_val(ds: Seq<u8>) -> int
    decreases ds.len(),
{
    if ds.len() == 0 {
        0
    } else {
        digits_val(ds.drop_last()) * 10 + (ds.last() - 48)
    }
}

/// Multiplying by ten `e` times within `i64` bounds; `None` on overflow.
pub open spec fn shift10(v: int, e: int) -> Option<int>
    decreases e,
{
    if e <= 0 {
        Some(v)
    } else if i64::MIN <= v * 10 <= i64::MAX {
        shift10(v * 10, e - 1)
    } else {
        None
    }
}

/// The exact integer a sink state denotes: defined when the exponent
/// normalizes to a non-negative value, no precision was lost, and the shifted
/// digit value fits in an `i64`.
pub open spec fn i64_spec(m: SinkModel) -> Option<i64> {
    match sde_spec(m) {
        None => None,
        Some((sd, e)) => if m.imprecise || e < 0 {
            None
        } else {
            let mag = digits_val(m.digits.take(sd));
            let v = if m.negative {
                -mag
            } else {
                mag
            };
            if v < i64::MIN || v > i64::MAX {
                None
            } else {
                match shift10(v, e) {
                    Some(w) => Some(w as i64),
                    None => None,
                }
            }
        },
    }
}

/// Whether a completed sink saw a syntactically valid literal: never marked
/// invalid, and the final part non-empty.
pub open spec fn strictly_valid_spec(m: SinkModel) -> bool {
    !m.invalid && m.digits_in_current_part
}

/// A sink for a number literal.
///
/// Bytes are pushed one at a time; pushing reports whether the byte was part
/// of the literal (a delimiter is refused).  The sink never fails: invalid
/// bytes merely mark the state, to be checked once the literal ends.
#[derive(Debug)]
pub struct NumberSink {
    sign_character_allowed: bool,
    digits_in_current_part: bool,
    negative: bool,
    digits: Vec<u8>,
    i: usize,
    before_decimal: bool,
    before_exponent: bool,
    negative_exponent: bool,
    absolute_exponent: Option<i16>,
    exponent_correction: i64,
    imprecise: bool,
    invalid: bool,
}

impl NumberSink {
    /// The mathematical state of this sink.
    pub closed spec fn model(&self) -> SinkModel {
        SinkModel {
            sign_character_allowed: self.sign_character_allowed,
            digits_in_current_part: self.digits_in_current_part,
            negative: self.negative,
            digits: self.digits@,
            i: self.i as int,
            before_decimal: self.before_decimal,
            before_exponent: self.before_exponent,
            negative_exponent: self.negative_exponent,
            absolute_exponent: self.absolute_exponent,
            exponent_correction: self.exponent_correction as int,
            imprecise: self.imprecise,
            invalid: self.invalid,
        }
    }

    /// Well-formedness, established by [`NumberSink::new`] and preserved by
    /// every push.
    pub open spec fn wf(&self) -> bool {
        sink_wf(self.model())
    }

    /// Create a new number sink.
    pub fn new() -> (r: Self)
        ensures
            r.wf(),
            r.model() == sink_init(),
    {
        let mut digits: Vec<u8> = Vec::new();
        while digits.len() < DIGITS_LEN
            invariant
                digits@.len() <= DIGITS_LEN,
                forall|k: int| 0 <= k < digits@.len() ==> digits@[k] == 48u8,
            decreases DIGITS_LEN - digits@.len(),
        {
            digits.push(48);
        }
        let r = NumberSink {
            sign_character_allowed: true,
            digits_in_current_part: false,
            negative: false,
            digits,
            i: 0,
            before_decimal: true,
            before_exponent: true,
            negative_exponent: false,
            absolute_exponent: Some(0),
            exponent_correction: 0,
            imprecise: false,
            invalid: false,
        };
        proof {
            assert(r.model().digits =~= sink_init().digits);
        }
        r
    }

    /// Push a byte, intended to be an ASCII character, into the sink.
    ///
    /// Returns `false`, refusing the byte, exactly when it terminates a
    /// number literal; every other byte is folded into the state.
    #[verifier::rlimit(100)]
    pub fn push_byte(&mut self, c: u8) -> (r: bool)
        requires
            old(self).wf(),
        ensures
            final(self).wf(),
            final(self).model() == sink_push(old(self).model(), c),
            r == !is_num_delim(c),
    {
        proof {
            lemma_sink_push_wf(self.model(), c);
        }
        if self.sign_character_allowed {
            // Sign characters are only allowed in the initial positions.
            self.sign_character_allowed = false;

            if c == 45 {
                self.negative = self.negative || self.before_exponent;
                self.negative_exponent = self.negative_exponent || !self.before_exponent;
                return true;
            }
            if c == 43 {
                // `+` is only allowed with the exponent, not for the integer.
                self.invalid = self.invalid || self.before_exponent;
                return true;
            }
        }

        if self.before_decimal {
            if 48 <= c && c <= 57 {
                // No leading zeroes for the integer part, unless solely zero.
                self.invalid = self.invalid || (self.digits_in_current_part && self.digits[0]
                    == 48);
                self.digits_in_current_part = true;

                if self.i != DIGITS_LEN {
                    self.digits[self.i] = c;
                    self.i = self.i + 1;
                } else {
                    // Truncated before the decimal point: shift up by one.
                    if self.exponent_correction != i64::MAX {
                        self.exponent_correction = self.exponent_correction + 1;
                    }
                    // Truncating a zero stays precise thanks to the shift.
                    self.imprecise = self.imprecise || c != 48;
                }
                return true;
            }
            if c == 44 || c == 93 || c == 125 || c == 32 || c == 9 || c == 10 || c == 13 {
                return false;
            }
            if c == 46 {
                self.invalid = self.invalid || !self.digits_in_current_part;
                self.digits_in_current_part = false;
                self.before_decimal = false;
                return true;
            }
            if c == 101 || c == 69 {
                self.invalid = self.invalid || !self.digits_in_current_part;
                // Allow the sign character immediately following the marker.
                self.sign_character_allowed = true;
                self.digits_in_current_part = false;
                self.before_decimal = false;
                self.before_exponent = false;
                return true;
            }
            self.invalid = true;
            return true;
        }

        if self.before_exponent {
            if 48 <= c && c <= 57 {
                self.digits_in_current_part = true;

                if self.i != DIGITS_LEN {
                    self.digits[self.i] = c;
                    // Only keep the digit if it is not a leading zero.
                    let leading_zero = c == 48 && (self.i == 0 || (self.i == 1 && self.digits[0]
                        == 48));
                    if !leading_zero {
                        self.i = self.i + 1;
                    }
                    // After the decimal yet within precision: shift down.
                    if self.exponent_correction != i64::MIN {
                        self.exponent_correction = self.exponent_correction - 1;
                    }
                } else {
                    self.imprecise = true;
                }
                return true;
            }
            if c == 44 || c == 93 || c == 125 || c == 32 || c == 9 || c == 10 || c == 13 {
                return false;
            }
            if c == 101 || c == 69 {
                self.invalid = self.invalid || !self.digits_in_current_part;
                self.sign_character_allowed = true;
                self.digits_in_current_part = false;
                self.before_decimal = false;
                self.before_exponent = false;
                return true;
            }
            self.invalid = true;
            return true;
        }

        if 48 <= c && c <= 57 {
            self.digits_in_current_part = true;
            // Accumulate into the exponent, collapsing on overflow.
            self.absolute_exponent = match self.absolute_exponent {
                Some(a) => match a.checked_mul(10) {
                    Some(a10) => a10.checked_add((c - 48) as i16),
                    None => None,
                },
                None => None,
            };
            return true;
        }
        if c == 44 || c == 93 || c == 125 || c == 32 || c == 9 || c == 10 || c == 13 {
            return false;
        }
        self.invalid = true;
        true
    }

    /// The significant digit count and normalized exponent.
    ///
    /// An unnecessarily large negative exponent is reduced by discarding
    /// trailing zero digits, so `100e-1` is still detected as integral.
    fn significant_digits_and_exponent(&self) -> (r: Option<(usize, i64)>)
        requires
            self.wf(),
        ensures
            match r {
                Some(p) => sde_spec(self.model()) == Some((p.0 as int, p.1 as int)),
                None => sde_spec(self.model()) is None,
            },
    {
        let ae = match self.absolute_exponent {
            Some(a) => a,
            None => {
                return None;
            },
        };
        let emb: i16 = if self.negative_exponent {
            -ae
        } else {
            ae
        };
        let mut exponent: i64 = match (emb as i64).checked_add(self.exponent_correction) {
            Some(e) => e,
            None => {
                return None;
            },
        };

        let mut sd = self.i;
        while exponent < 0 && sd > 0 && self.digits[sd - 1] == 48
            invariant
                self.wf(),
                sd <= DIGITS_LEN,
                norm(self.model().digits, self.model().i, sde_e0(self.model())) == norm(
                    self.model().digits,
                    sd as int,
                    exponent as int,
                ),
            decreases sd,
        {
            sd = sd - 1;
            exponent = exponent + 1;
        }
        Some((sd, exponent))
    }

    /// Whether the completed literal was valid RFC 8259 syntax.
    fn strictly_valid(&self) -> (r: bool)
        ensures
            r == strictly_valid_spec(self.model()),
    {
        !self.invalid && self.digits_in_current_part
    }

    /// Extract the exact number as an integer, if possible.
    pub fn i64(&self) -> (r: Option<i64>)
        requires
            self.wf(),
        ensures
            r == i64_spec(self.model()),
    {
        let (sd, e) = match self.significant_digits_and_exponent() {
            Some(p) => p,
            None => {
                return None;
            },
        };

        // Lost precision or a fractional part: not an exact integer.
        if self.imprecise || e < 0 {
            return None;
        }

        proof {
            lemma_norm_bounds(self.model().digits, self.model().i, sde_e0(self.model()));
        }
        let ghost ds = self.model().digits.take(sd as int);
        let mut accum: i64 = 0;
        let mut j: usize = 0;
        while j < sd
            invariant
                self.wf(),
                j <= sd,
                sd <= DIGITS_LEN,
                sde_spec(self.model()) == Some((sd as int, e as int)),
                !self.model().imprecise,
                e >= 0,
                ds == self.model().digits.take(sd as int),
                accum as int == (if self.negative {
                    -digits_val(ds.take(j as int))
                } else {
                    digits_val(ds.take(j as int))
                }),
            decreases sd - j,
        {
            proof {
                lemma_digits_val_step(ds, j as int);
                lemma_digits_val_bounds_step(ds, j as int);
            }
            let d = self.digits[j] - 48;
            let a10 = match accum.checked_mul(10) {
                Some(a) => a,
                None => {
                    proof {
                        lemma_digits_val_overflow(self.model(), sd as int, j as int + 1);
                    }
                    return None;
                },
            };
            let a2 = if self.negative {
                a10.checked_sub(d as i64)
            } else {
                a10.checked_add(d as i64)
            };
            accum = match a2 {
                Some(a) => a,
                None => {
                    proof {
                        lemma_digits_val_overflow(self.model(), sd as int, j as int + 1);
                    }
                    return None;
                },
            };
            j = j + 1;
        }
        proof {
            assert(ds.take(sd as int) =~= ds);
        }

        // Shift corresponding to the exponent.
        let mut k: i64 = 0;
        while k < e
            invariant
                0 <= k <= e,
                i64_spec(self.model()) == (match shift10(accum as int, e as int - k as int) {
                    Some(w) => Some(w as i64),
                    None => None,
                }),
            decreases e - k,
        {
            accum = match accum.checked_mul(10) {
                Some(a) => a,
                None => {
                    return None;
                },
            };
            k = k + 1;
        }

        Some(accum)
    }
}

/// The pre-normalization exponent of a sink state, assuming the written
/// exponent did not overflow.
pub open spec fn sde_e0(m: SinkModel) -> int {
    match m.absolute_exponent {
        None => 0,
        Some(ae) => (if m.negative_exponent {
            -(ae as int)
        } else {
            ae as int
        }) + m.exponent_correction,
    }
}

/// Normalization only discards digits: the count stays within its bound.
pub proof fn lemma_norm_bounds(digits: Seq<u8>, sd: int, e: int)
    requires
        0 <= sd,
    ensures
        0 <= norm(digits, sd, e).0 <= sd,
    decreases sd,
{
    if e < 0 && sd > 0 && digits[sd - 1] == 48 {
        lemma_norm_bounds(digits, sd - 1, e + 1);
    }
}

/// Taking one more digit multiplies the value by ten and adds that digit.
pub proof fn lemma_digits_val_step(ds: Seq<u8>, j: int)
    requires
        0 <= j < ds.len(),
    ensures
        digits_val(ds.take(j + 1)) == digits_val(ds.take(j)) * 10 + (ds[j] - 48),
{
    assert(ds.take(j + 1).drop_last() =~= ds.take(j));
    assert(ds.take(j + 1).last() == ds[j]);
}

/// A digit prefix value is non-negative and grows with each digit taken.
pub proof fn lemma_digits_val_nonneg(ds: Seq<u8>)
    requires
        forall|k: int| 0 <= k < ds.len() ==> is_ascii_digit(#[trigger] ds[k]),
    ensures
        digits_val(ds) >= 0,
    decreases ds.len(),
{
    if ds.len() > 0 {
        assert(forall|k: int|
            0 <= k < ds.drop_last().len() ==> is_ascii_digit(#[trigger] ds.drop_last()[k]));
        lemma_digits_val_nonneg(ds.drop_last());
    }
}

/// Bounds used at each accumulation step.
proof fn lemma_digits_val_bounds_step(ds: Seq<u8>, j: int)
    requires
        0 <= j < ds.len(),
        forall|k: int| 0 <= k < ds.len() ==> is_ascii_digit(#[trigger] ds[k]),
    ensures
        digits_val(ds.take(j)) >= 0,
        digits_val(ds.take(j + 1)) >= digits_val(ds.take(j)),
        0 <= ds[j] - 48 <= 9,
{
    assert(forall|k: int| 0 <= k < ds.take(j).len() ==> is_ascii_digit(#[trigger] ds.take(j)[k]));
    lemma_digits_val_nonneg(ds.take(j));
    lemma_digits_val_step(ds, j);
}

/// Monotonicity of digit prefix values.
proof fn lemma_digits_val_mono(ds: Seq<u8>, j: int, k: int)
    requires
        0 <= j <= k <= ds.len(),
        forall|t: int| 0 <= t < ds.len() ==> is_ascii_digit(#[trigger] ds[t]),
    ensures
        digits_val(ds.take(j)) <= digits_val(ds.take(k)),
    decreases k - j,
{
    if j < k {
        lemma_digits_val_bounds_step(ds, k - 1);
        lemma_digits_val_mono(ds, j, k - 1);
    }
}

/// If the value of a digit prefix already falls outside the `i64` range, the
/// full digit value does as well, so the extraction is `None` either way.
proof fn lemma_digits_val_overflow(m: SinkModel, sd: int, j: int)
    requires
        sink_wf(m),
        0 <= j <= sd <= m.digits.len(),
        ({
            let v = if m.negative {
                -digits_val(m.digits.take(sd).take(j))
            } else {
                digits_val(m.digits.take(sd).take(j))
            };
            v < i64::MIN || v > i64::MAX
        }),
    ensures
        ({
            let v = if m.negative {
                -digits_val(m.digits.take(sd))
            } else {
                digits_val(m.digits.take(sd))
            };
            v < i64::MIN || v > i64::MAX
        }),
{
    let ds = m.digits.take(sd);
    assert(forall|t: int| 0 <= t < ds.len() ==> is_ascii_digit(#[trigger] ds[t]));
    assert(ds.take(j) =~= m.digits.take(sd).take(j));
    assert(forall|t: int| 0 <= t < ds.take(j).len() ==> is_ascii_digit(#[trigger] ds.take(j)[t]));
    lemma_digits_val_nonneg(ds.take(j));
    lemma_digits_val_nonneg(ds);
    lemma_digits_val_mono(ds, j, sd);
    assert(ds.take(sd) =~= ds);
}

/// The decimal digits of `n`, most significant first.
pub open spec fn dec_digits(n: nat) -> Seq<u8>
    decreases n,
{
    if n < 10 {
        seq![(48 + n) as u8]
    } else {
        dec_digits(n / 10).push((48 + n % 10) as u8)
    }
}

/// The decimal representation of `v`, with a leading minus when negative.
pub open spec fn dec_rep(v: int) -> Seq<u8> {
    if v < 0 {
        seq![45u8] + dec_digits((-v) as nat)
    } else {
        dec_digits(v as nat)
    }
}

/// Write the decimal digits of `n`.
pub(crate) fn dec_of_u64(n: u64) -> (v: Vec<u8>)
    ensures
        v@ == dec_digits(n as nat),
    decreases n,
{
    if n < 10 {
        let mut v: Vec<u8> = Vec::new();
        v.push(48 + (n as u8));
        proof {
            assert(v@ =~= dec_digits(n as nat));
        }
        v
    } else {
        let mut v = dec_of_u64(n / 10);
        v.push(48 + ((n % 10) as u8));
        v
    }
}

/// Write the decimal digits of a wide unsigned integer.
pub(crate) fn dec_of_u128(n: u128) -> (v: Vec<u8>)
    ensures
        v@ == dec_digits(n as nat),
    decreases n,
{
    if n < 10 {
        let mut v: Vec<u8> = Vec::new();
        v.push(48 + (n as u8));
        proof {
            assert(v@ =~= dec_digits(n as nat));
        }
        v
    } else {
        let mut v = dec_of_u128(n / 10);
        v.push(48 + ((n % 10) as u8));
        v
    }
}

/// Write the decimal representation of a wide signed integer.
pub(crate) fn dec_of_i128(n: i128) -> (v: Vec<u8>)
    ensures
        v@ == dec_rep(n as int),
{
    if n >= 0 {
        dec_of_u128(n as u128)
    } else {
        // The magnitude of the smallest value overflows `i128`: step through
        // the unsigned type.
        let mag: u128 = ((-(n + 1)) as u128) + 1;
        let mut v: Vec<u8> = Vec::new();
        v.push(45);
        let mut digits = dec_of_u128(mag);
        v.append(&mut digits);
        proof {
            assert(v@ =~= dec_rep(n as int));
        }
        v
    }
}

/// Write the decimal representation of `n`.
pub(crate) fn dec_of_i64(n: i64) -> (v: Vec<u8>)
    ensures
        v@ == dec_rep(n as int),
{
    if n >= 0 {
        dec_of_u64(n as u64)
    } else {
        // The magnitude of `i64::MIN` overflows `i64`, so step through `u64`.
        let mag: u64 = ((-(n + 1)) as u64) + 1;
        let mut v: Vec<u8> = Vec::new();
        v.push(45);
        let mut digits = dec_of_u64(mag);
        v.append(&mut digits);
        proof {
            assert(v@ =~= dec_rep(n as int));
        }
        v
    }
}

/// The bounded-precision printing of a sink state: the significant digits
/// (the `f64`-round-trip count of them, plus one retained leading zero) and
/// a decimal exponent where one is needed.
pub open spec fn imprecise_str_spec(m: SinkModel) -> Option<Seq<u8>> {
    match sde_spec(m) {
        None => None,
        Some((osd, e)) => if osd == 0 {
            Some(seq![48u8])
        } else {
            let cap = (if m.digits[0] == 48 {
                1int
            } else {
                0int
            }) + F64_DIGITS;
            let sd2 = if osd < cap {
                osd
            } else {
                cap
            };
            let e2 = e + (osd - sd2);
            if e2 < i64::MIN || e2 > i64::MAX {
                None
            } else {
                let digs = if sd2 > 1 && m.digits[0] == 48 {
                    m.digits.subrange(1, sd2)
                } else {
                    m.digits.take(sd2)
                };
                let sign: Seq<u8> = if m.negative {
                    seq![45u8]
                } else {
                    Seq::<u8>::empty()
                };
                let tail: Seq<u8> = if e2 != 0 {
                    seq![101u8] + dec_rep(e2)
                } else {
                    Seq::<u8>::empty()
                };
                Some(sign + digs + tail)
            }
        },
    }
}

impl NumberSink {
    /// The imprecise string representing this number.
    ///
    /// The string is RFC 8259 compliant.  While the sink retains enough
    /// digits for exact integer conversion, only the digits an `f64` can
    /// round-trip are printed, the remainder being folded into the exponent.
    #[verifier::rlimit(100)]
    pub fn imprecise_str(&self) -> (r: Option<Vec<u8>>)
        requires
            self.wf(),
        ensures
            match r {
                Some(v) => imprecise_str_spec(self.model()) == Some(v@),
                None => imprecise_str_spec(self.model()) is None,
            },
    {
        let (osd, exponent0) = match self.significant_digits_and_exponent() {
            Some(p) => p,
            None => {
                return None;
            },
        };

        // Without any digits, the number is zero.
        if osd == 0 {
            let mut v: Vec<u8> = Vec::new();
            v.push(48);
            proof {
                assert(v@ =~= seq![48u8]);
            }
            return Some(v);
        }

        proof {
            lemma_norm_bounds(self.model().digits, self.model().i, sde_e0(self.model()));
        }

        // Print only the digits an `f64` can round-trip, plus one leading
        // zero where it was retained; the rest shifts into the exponent.
        let cap: usize = if self.digits[0] == 48 {
            1 + F64_DIGITS
        } else {
            F64_DIGITS
        };
        let sd2: usize = if osd < cap {
            osd
        } else {
            cap
        };
        let further = (osd - sd2) as i64;
        let exponent = match exponent0.checked_add(further) {
            Some(x) => x,
            None => {
                return None;
            },
        };

        let mut out: Vec<u8> = Vec::new();
        if self.negative {
            out.push(45);
        }
        let ghost sign: Seq<u8> = if self.model().negative {
            seq![45u8]
        } else {
            Seq::<u8>::empty()
        };
        let start: usize = if sd2 > 1 && self.digits[0] == 48 {
            1
        } else {
            0
        };
        let ghost digs = if start == 1 {
            self.model().digits.subrange(1, sd2 as int)
        } else {
            self.model().digits.take(sd2 as int)
        };
        let mut j: usize = start;
        proof {
            assert(out@ =~= sign);
        }
        while j < sd2
            invariant
                self.wf(),
                start <= j <= sd2,
                sd2 <= DIGITS_LEN,
                (start == 0 || start == 1) && start < 1 + sd2,
                digs == self.model().digits.subrange(start as int, sd2 as int),
                out@ == sign + self.model().digits.subrange(start as int, j as int),
            decreases sd2 - j,
        {
            let b = self.digits[j];
            out.push(b);
            j = j + 1;
            proof {
                assert(out@ =~= sign + self.model().digits.subrange(start as int, j as int));
            }
        }

        if exponent != 0 {
            out.push(101);
            let mut e_digits = dec_of_i64(exponent);
            out.append(&mut e_digits);
            proof {
                assert(out@ =~= sign + digs + (seq![101u8] + dec_rep(exponent as int)));
            }
        } else {
            proof {
                assert(out@ =~= sign + digs + Seq::<u8>::empty());
            }
        }
        Some(out)
    }
}

/// A number deserialized from JSON: an immutable, already validated
/// accumulator state.
#[derive(Debug)]
pub struct Number(pub(crate) NumberSink);

impl Number {
    /// The mathematical state of the accumulator behind this number.
    pub closed spec fn model(&self) -> SinkModel {
        self.0.model()
    }

    /// Well-formedness, carried from the sink that produced the number.
    pub open spec fn wf(&self) -> bool {
        sink_wf(self.model())
    }

    /// Get the current number as an `i64`.
    ///
    /// The literal is constrained to have no fractional part once
    /// normalized, and the value is yielded only if it is representable
    /// within an `i64`.  Normalization truncates `10.0`, so this is lossy as
    /// to whether the original encoding had a fractional part.
    ///
    /// This is exact: it does not go through a float.
    pub fn i64(&self) -> (r: Option<i64>)
        requires
            self.wf(),
        ensures
            r == i64_spec(self.model()),
    {
        self.0.i64()
    }

    /// The imprecise decimal string for this number, for float extraction.
    pub fn imprecise_str(&self) -> (r: Option<Vec<u8>>)
        requires
            self.wf(),
        ensures
            match r {
                Some(v) => imprecise_str_spec(self.model()) == Some(v@),
                None => imprecise_str_spec(self.model()) is None,
            },
    {
        self.0.imprecise_str()
    }
}

/// The sink state after consuming the number literal that starts at `i` and
/// runs to the delimiter at `e`, the delimiter's push included.
pub open spec fn num_sink_at(s: Seq<u8>, i: int, e: int) -> SinkModel {
    sink_push(sink_fold(sink_init(), s.subrange(i, e)), s[e])
}

/// Handle the immediate value within the reader as a number.
///
/// Bytes are sunk until the first delimiter, which is left unconsumed; the
/// literal is then checked against the RFC 8259 grammar.  When the input ends
/// before any delimiter, the final refill fails and the read error shows
/// through.
pub(crate) fn to_number_str(reader: &mut PeekableRead) -> (r: Result<Number, JsonError>)
    requires
        old(reader).wf(),
    ensures
        final(reader).wf(),
        final(reader).input() == old(reader).input(),
        final(reader).pos() >= old(reader).pos(),
        ({
            let s = old(reader).input();
            let p = old(reader).pos();
            let e = num_end(s, p);
            if e == s.len() {
                &&& r == Err::<Number, JsonError>(
                    JsonError::ReadError(SliceError::Short(1usize)),
                )
                &&& final(reader).pos() == s.len() - 1
            } else {
                &&& final(reader).pos() == e
                &&& (match r {
                    Ok(num) => num.model() == num_sink_at(s, p, e) && strictly_valid_spec(
                        num_sink_at(s, p, e),
                    ) && num.wf(),
                    Err(err) => err == JsonError::InvalidValue && !strictly_valid_spec(
                        num_sink_at(s, p, e),
                    ),
                })
            }
        }),
{
    let ghost s = reader.input();
    let ghost p0 = reader.pos();
    let mut result = NumberSink::new();

    // Read until a byte which is not part of the number, sinking on the way.
    loop
        invariant_except_break
            reader.wf(),
            s == old(reader).input(),
            p0 == old(reader).pos(),
            reader.input() == s,
            result.wf(),
            0 <= p0 <= reader.pos() < s.len(),
            num_end(s, p0) == num_end(s, reader.pos()),
            result.model() == sink_fold(sink_init(), s.subrange(p0, reader.pos())),
        ensures
            reader.wf(),
            s == old(reader).input(),
            p0 == old(reader).pos(),
            reader.input() == s,
            result.wf(),
            0 <= p0 <= reader.pos() < s.len(),
            num_end(s, p0) == reader.pos(),
            is_num_delim(s[reader.pos()]),
            result.model() == num_sink_at(s, p0, reader.pos()),
        decreases s.len() - reader.pos(),
    {
        let ghost pos_before = reader.pos();
        let b = reader.peek();
        let keep = result.push_byte(b);
        proof {
            assert(s.subrange(p0, pos_before + 1).drop_last() =~= s.subrange(p0, pos_before));
            assert(s.subrange(p0, pos_before + 1).last() == s[pos_before]);
        }
        if !keep {
            break;
        }
        match reader.read_byte() {
            Ok(_) => {},
            Err(err) => {
                // The whole remaining input is one literal: the refill at the
                // final byte fails, so the number cannot be completed.
                proof {
                    assert(num_end(s, pos_before + 1) == s.len() as int);
                    assert(num_end(s, pos_before) == s.len() as int);
                }
                return Err(JsonError::ReadError(err));
            },
        }
    }

    if !result.strictly_valid() {
        return Err(JsonError::InvalidValue);
    }

    Ok(Number(result))
}

/// Ten to the `k`.
pub open spec fn pow10(k: nat) -> int
    decreases k,
{
    if k == 0 {
        1
    } else {
        10 * pow10((k - 1) as nat)
    }
}

/// The decimal digits of `n` are ASCII digits, at least one of them, their
/// value is `n`, and only zero itself starts with a zero digit.
pub proof fn lemma_dec_digits_props(m: nat)
    ensures
        dec_digits(m).len() >= 1,
        forall|k: int|
            0 <= k < dec_digits(m).len() ==> is_ascii_digit(#[trigger] dec_digits(m)[k]),
        digits_val(dec_digits(m)) == m,
        m >= 1 ==> dec_digits(m)[0] != 48,
        m < 10 ==> dec_digits(m).len() == 1,
    decreases m,
{
    if m < 10 {
        assert(digits_val(dec_digits(m).drop_last()) == 0) by {
            assert(dec_digits(m).drop_last() =~= Seq::<u8>::empty());
        }
    } else {
        lemma_dec_digits_props(m / 10);
        assert(dec_digits(m).drop_last() =~= dec_digits(m / 10));
        assert(dec_digits(m).last() == (48 + m % 10) as u8);
    }
}

/// A number below ten to the `k` has at most `k` decimal digits.
pub proof fn lemma_dec_digits_len(m: nat, k: nat)
    requires
        k >= 1,
        m < pow10(k),
    ensures
        dec_digits(m).len() <= k,
    decreases m,
{
    if m >= 10 {
        assert(pow10(k) == 10 * pow10((k - 1) as nat));
        assert(m / 10 < pow10((k - 1) as nat));
        assert(k - 1 >= 1) by {
            if k == 1 {
                assert(pow10(1nat) == 10);
            }
        }
        lemma_dec_digits_len(m / 10, (k - 1) as nat);
    }
}

/// Folding a byte sequence decomposes over concatenation.
pub proof fn lemma_sink_fold_append(m: SinkModel, a: Seq<u8>, b: Seq<u8>)
    ensures
        sink_fold(m, a + b) == sink_fold(sink_fold(m, a), b),
    decreases b.len(),
{
    if b.len() == 0 {
        assert(a + b =~= a);
    } else {
        assert((a + b).drop_last() =~= a + b.drop_last());
        assert((a + b).last() == b.last());
        lemma_sink_fold_append(m, a, b.drop_last());
    }
}

/// An integer-ready sink state: fresh but for an optional sign.
pub open spec fn int_ready(m: SinkModel) -> bool {
    &&& sink_wf(m)
    &&& !m.digits_in_current_part
    &&& m.i == 0
    &&& m.before_decimal
    &&& m.before_exponent
    &&& !m.negative_exponent
    &&& m.absolute_exponent == Some(0i16)
    &&& m.exponent_correction == 0
    &&& !m.imprecise
    &&& !m.invalid
}

/// Feeding a plain run of digits, without a leading zero unless it is the
/// single digit zero, accumulates exactly those digits.
pub proof fn lemma_fold_digits(m0: SinkModel, ds: Seq<u8>)
    requires
        int_ready(m0),
        1 <= ds.len() <= SIGNIFICANT_DIGITS,
        forall|k: int| 0 <= k < ds.len() ==> is_ascii_digit(#[trigger] ds[k]),
        ds.len() > 1 ==> ds[0] != 48,
    ensures
        ({
            let mf = sink_fold(m0, ds);
            &&& mf.digits.take(ds.len() as int) == ds
            &&& mf.digits.len() == DIGITS_LEN
            &&& mf.i == ds.len()
            &&& mf.digits_in_current_part
            &&& !mf.sign_character_allowed
            &&& mf.negative == m0.negative
            &&& mf.before_decimal
            &&& mf.before_exponent
            &&& !mf.negative_exponent
            &&& mf.absolute_exponent == Some(0i16)
            &&& mf.exponent_correction == 0
            &&& !mf.imprecise
            &&& !mf.invalid
        }),
    decreases ds.len(),
{
    if ds.len() == 1 {
        assert(ds.drop_last() =~= Seq::<u8>::empty());
        assert(sink_fold(m0, ds.drop_last()) == m0);
        assert(sink_fold(m0, ds) == sink_push(m0, ds.last()));
        let mf = sink_push(m0, ds[0]);
        assert(mf.digits.take(1) =~= ds);
    } else {
        let prefix = ds.drop_last();
        assert(forall|k: int| 0 <= k < prefix.len() ==> is_ascii_digit(#[trigger] prefix[k]));
        lemma_fold_digits(m0, prefix);
        let mp = sink_fold(m0, prefix);
        assert(sink_fold(m0, ds) == sink_push(mp, ds.last()));
        let mf = sink_push(mp, ds.last());
        assert(mp.digits[0] == ds[0]) by {
            assert(mp.digits.take(prefix.len() as int)[0] == ds[0]);
        }
        assert(mf.digits.take(ds.len() as int) =~= ds) by {
            assert(forall|k: int|
                0 <= k < prefix.len() ==> #[trigger] mp.digits[k] == mp.digits.take(
                    prefix.len() as int,
                )[k]);
        }
    }
}

/// A literal whose exponent stays negative after normalization has a
/// non-zero fractional part: exact-integer extraction must fail on it.
pub proof fn lemma_fractional_not_integer(m: SinkModel)
    requires
        (match sde_spec(m) {
            Some((sd, e)) => e < 0,
            None => false,
        }),
    ensures
        i64_spec(m) is None,
{
}

/// Exact-integer extraction is the inverse of decimal printing: for every
/// integer representable in 64 bits, feeding the accumulator the decimal
/// representation of the integer and extracting the exact integer yields
/// the integer itself.
///
/// Together with the contract of the decimal writer, this is the
/// integer-exact half of the decode-then-re-encode round trip.
pub proof fn lemma_exact_integer_round_trip(n: i64)
    ensures
        i64_spec(sink_fold(sink_init(), dec_rep(n as int))) == Some(n),
{
    let mag: nat = if n >= 0 {
        n as nat
    } else {
        (-(n as int)) as nat
    };
    lemma_dec_digits_props(mag);
    assert(pow10(19nat) == 10000000000000000000) by {
        reveal_with_fuel(pow10, 21);
    }
    lemma_dec_digits_len(mag, 19nat);
    let ds = dec_digits(mag);

    let m0 = if n >= 0 {
        sink_init()
    } else {
        sink_push(sink_init(), 45)
    };
    assert(int_ready(m0));
    assert(m0.negative == (n < 0));

    if n < 0 {
        assert(dec_rep(n as int) == seq![45u8] + ds);
        lemma_sink_fold_append(sink_init(), seq![45u8], ds);
        let one = seq![45u8];
        assert(one.len() == 1 && one[0] == 45u8);
        assert(one.drop_last() =~= Seq::<u8>::empty());
        assert(sink_fold(sink_init(), one.drop_last()) == sink_init());
        assert(sink_fold(sink_init(), one) == sink_push(sink_init(), one.last()));
        assert(sink_fold(sink_init(), one) == m0);
    }

    lemma_fold_digits(m0, ds);
    let mf = sink_fold(m0, ds);
    assert(sink_fold(sink_init(), dec_rep(n as int)) == mf);

    // The exponent normalizes to zero, so extraction divides nothing away.
    assert(sde_spec(mf) == Some((ds.len() as int, 0int)));
    assert(mf.digits.take(ds.len() as int) == ds);
    assert(digits_val(ds) == mag);
    assert(shift10((if mf.negative { -(mag as int) } else { mag as int }), 0) == Some(
        if mf.negative {
            -(mag as int)
        } else {
            mag as int
        },
    ));
}

} // verus!
