//! The escape-decoding string reader.
//!
//! Operating on raw bytes just after an opening quote, the reader yields one
//! Unicode scalar value at a time: unescaped ASCII directly, multi-byte UTF-8
//! runs combined from their continuation bytes, and `\uXXXX` escapes decoded
//! from hex, pairing UTF-16 surrogates into a single scalar.  A malformed
//! escape value fails only the string being decoded — the raw bytes can still
//! be skipped so the surrounding document survives — while structural errors
//! (a stray control byte, a bad escape letter, truncated input) end the
//! parse.

use vstd::prelude::*;

use crate::JsonError;
use crate::reader::{PeekableRead, SliceError};
use vstd::utf8::{
    codepoint_width_2, codepoint_width_3, codepoint_width_4, is_scalar,
};

verus! {

/// Whether `c` is an ASCII hexadecimal digit.
pub open spec fn is_hex_digit(c: u8) -> bool {
    (48 <= c <= 57) || (97 <= c <= 102) || (65 <= c <= 70)
}

/// The value of one hexadecimal digit.
pub open spec fn hex_val(c: u8) -> int
    recommends
        is_hex_digit(c),
{
    if 48 <= c <= 57 {
        c - 48
    } else if 97 <= c <= 102 {
        c - 87
    } else if 65 <= c <= 70 {
        c - 55
    } else {
        0
    }
}

/// The value of four hexadecimal digits read big-endian.
pub open spec fn hex4_val(a: u8, b: u8, c: u8, d: u8) -> int {
    hex_val(a) * 4096 + hex_val(b) * 256 + hex_val(c) * 16 + hex_val(d)
}

/// Check that all four bytes are ASCII hexadecimal digits.
pub fn validate_hex(bytes: [u8; 4]) -> (r: bool)
    ensures
        r == (is_hex_digit(bytes@[0]) && is_hex_digit(bytes@[1]) && is_hex_digit(bytes@[2])
            && is_hex_digit(bytes@[3])),
{
    hex_digit(bytes[0]) && hex_digit(bytes[1]) && hex_digit(bytes[2]) && hex_digit(bytes[3])
}

/// Check one byte for being an ASCII hexadecimal digit.
fn hex_digit(c: u8) -> (r: bool)
    ensures
        r == is_hex_digit(c),
{
    (48 <= c && c <= 57) || (97 <= c && c <= 102) || (65 <= c && c <= 70)
}

/// The value of one hexadecimal digit byte.
fn hex_char(c: u8) -> (r: Result<u16, JsonError>)
    ensures
        match r {
            Ok(v) => is_hex_digit(c) && v as int == hex_val(c) && v <= 15,
            Err(e) => !is_hex_digit(c) && e == JsonError::InternalError,
        },
{
    if 48 <= c && c <= 57 {
        Ok((c - 48) as u16)
    } else if 97 <= c && c <= 102 {
        Ok((c - 87) as u16)
    } else if 65 <= c && c <= 70 {
        Ok((c - 55) as u16)
    } else {
        Err(JsonError::InternalError)
    }
}

/// Read a `u16` from its big-endian hexadecimal encoding.
pub fn read_hex(hex: [u8; 4]) -> (r: Result<u32, JsonError>)
    ensures
        match r {
            Ok(v) => {
                &&& is_hex_digit(hex@[0]) && is_hex_digit(hex@[1]) && is_hex_digit(hex@[2])
                    && is_hex_digit(hex@[3])
                &&& v as int == hex4_val(hex@[0], hex@[1], hex@[2], hex@[3])
                &&& v <= 0xFFFF
            },
            Err(e) => {
                &&& !(is_hex_digit(hex@[0]) && is_hex_digit(hex@[1]) && is_hex_digit(hex@[2])
                    && is_hex_digit(hex@[3]))
                &&& e == JsonError::InternalError
            },
        },
{
    let a = hex_char(hex[0])?;
    let b = hex_char(hex[1])?;
    let c = hex_char(hex[2])?;
    let d = hex_char(hex[3])?;
    Ok(((a * 4096 + b * 256 + c * 16 + d) as u32))
}

/// The byte length of a non-ASCII UTF-8 codepoint, from its leading byte.
///
/// The value is meaningful only for a valid non-ASCII leading byte.
pub open spec fn utf8_len_spec(b: u8) -> int {
    if b >= 0xF0 {
        4
    } else if b >= 0xE0 {
        3
    } else {
        2
    }
}

/// Calculate the length of the non-ASCII UTF-8 codepoint from its first byte.
///
/// Returns an undefined value if the codepoint is ASCII.
pub fn non_ascii_utf8_codepoint_len(b: u8) -> (r: usize)
    ensures
        r as int == utf8_len_spec(b),
{
    if b >= 0xF0 {
        4
    } else if b >= 0xE0 {
        3
    } else {
        2
    }
}

/// The codepoint encoded by the first `len` bytes of `bytes`, following the
/// UTF-8 data-bit layout; the leading byte's high bits are ignored for a
/// single byte.
pub open spec fn cp_of(bytes: Seq<u8>) -> u32
    recommends
        1 <= bytes.len() <= 4,
{
    if bytes.len() == 1 {
        bytes[0] as u32
    } else if bytes.len() == 2 {
        codepoint_width_2(bytes[0], bytes[1])
    } else if bytes.len() == 3 {
        codepoint_width_3(bytes[0], bytes[1], bytes[2])
    } else {
        codepoint_width_4(bytes[0], bytes[1], bytes[2], bytes[3])
    }
}

/// Relies on `char::from_u32` of core: yields the `char` of exactly the
/// Unicode scalar values — codepoints outside the surrogate range and at most
/// `0x10FFFF` — and `None` for every other value.
pub assume_specification[ char::from_u32 ](i: u32) -> (r: Option<char>)
    ensures
        match r {
            Some(c) => is_scalar(i) && c as u32 == i,
            None => !is_scalar(i),
        },
;

/// Convert a UTF-8 codepoint to a `char`.
///
/// The continuation bytes contribute their six data bits each; their leading
/// bits are not validated, mirroring that only the assembled codepoint is
/// checked for being a Unicode scalar value.
pub fn utf8_codepoint_to_char(c: &[u8]) -> (r: Result<char, JsonError>)
    requires
        1 <= c@.len() <= 4,
    ensures
        match r {
            Ok(ch) => is_scalar(cp_of(c@)) && ch as u32 == cp_of(c@),
            Err(e) => !is_scalar(cp_of(c@)) && e == JsonError::InvalidValue,
        },
{
    let cp: u32 = if c.len() == 1 {
        c[0] as u32
    } else if c.len() == 2 {
        (((c[0] & 0x1F) as u32) << 6u32) | ((c[1] & 0x3F) as u32)
    } else if c.len() == 3 {
        (((c[0] & 0x0F) as u32) << 12u32) | (((c[1] & 0x3F) as u32) << 6u32) | ((c[2]
            & 0x3F) as u32)
    } else {
        (((c[0] & 0x07) as u32) << 18u32) | (((c[1] & 0x3F) as u32) << 12u32) | (((c[2]
            & 0x3F) as u32) << 6u32) | ((c[3] & 0x3F) as u32)
    };
    match char::from_u32(cp) {
        Some(ch) => Ok(ch),
        None => Err(JsonError::InvalidValue),
    }
}

/// One raw item read from an open string: a decoded character, the value of
/// a `\uXXXX` escape (surrogates not yet paired), or the closing quote.
pub(crate) enum RawItem {
    /// A character, from unescaped bytes or a simple escape.
    Character(char),
    /// The value of a `\uXXXX` escape, at most `0xFFFF`.
    EscapedUnicode(u16),
    /// The unescaped closing quote.
    End,
}

/// The outcome of scanning one raw item at position `i`: the codepoint or
/// escape value, and the position after it.
pub ghost enum RawSpec {
    /// A character of codepoint `cp` was read; the reader stands at `next`.
    Character { cp: u32, next: int },
    /// A `\uXXXX` escape of value `v` was read.
    Escaped { v: int, next: int },
    /// The closing quote was read.
    End { next: int },
    /// The item was malformed or the input ended.
    Fail { err: JsonError, next: int },
}

/// Scan one raw string item at position `i` of `s`.
///
/// Positions mirror the one-byte-lookahead reader: reading the byte at `p`
/// succeeds only when `p + 1 < s.len()`, so a run into the end of the input
/// fails with a read error at the final byte.
pub open spec fn raw_item_spec(s: Seq<u8>, i: int) -> RawSpec {
    if i + 1 >= s.len() {
        RawSpec::Fail { err: JsonError::ReadError(SliceError::Short(1usize)), next: i }
    } else {
        let b = s[i];
        if b == 34 {
            RawSpec::End { next: i + 1 }
        } else if b == 92 {
            raw_escape_spec(s, i + 1)
        } else if b >= 0x80 {
            let len = utf8_len_spec(b);
            if i + len < s.len() {
                let cp = cp_of(s.subrange(i, i + len));
                if is_scalar(cp) {
                    RawSpec::Character { cp, next: i + len }
                } else {
                    RawSpec::Fail { err: JsonError::InvalidValue, next: i + len }
                }
            } else {
                RawSpec::Fail {
                    err: JsonError::ReadError(SliceError::Short(1usize)),
                    next: s.len() - 1,
                }
            }
        } else if 0x20 <= b <= 0x7F {
            // 0x22 and 0x5C are handled above; all else is unescaped ASCII.
            RawSpec::Character { cp: b as u32, next: i + 1 }
        } else {
            RawSpec::Fail { err: JsonError::InvalidValue, next: i + 1 }
        }
    }
}

/// Scan the remainder of an escape, the backslash already read: `i` points at
/// the escape letter.
pub open spec fn raw_escape_spec(s: Seq<u8>, i: int) -> RawSpec {
    if i + 1 >= s.len() {
        RawSpec::Fail { err: JsonError::ReadError(SliceError::Short(1usize)), next: i }
    } else {
        let e = s[i];
        if e == 34 || e == 92 || e == 47 {
            RawSpec::Character { cp: e as u32, next: i + 1 }
        } else if e == 98 {
            RawSpec::Character { cp: 8, next: i + 1 }
        } else if e == 102 {
            RawSpec::Character { cp: 12, next: i + 1 }
        } else if e == 110 {
            RawSpec::Character { cp: 10, next: i + 1 }
        } else if e == 114 {
            RawSpec::Character { cp: 13, next: i + 1 }
        } else if e == 116 {
            RawSpec::Character { cp: 9, next: i + 1 }
        } else if e == 117 {
            if i + 5 < s.len() {
                let (h0, h1, h2, h3) = (s[i + 1], s[i + 2], s[i + 3], s[i + 4]);
                if is_hex_digit(h0) && is_hex_digit(h1) && is_hex_digit(h2) && is_hex_digit(
                    h3,
                ) {
                    RawSpec::Escaped { v: hex4_val(h0, h1, h2, h3), next: i + 5 }
                } else {
                    RawSpec::Fail { err: JsonError::InvalidValue, next: i + 5 }
                }
            } else {
                RawSpec::Fail {
                    err: JsonError::ReadError(SliceError::Short(1usize)),
                    next: s.len() - 1,
                }
            }
        } else {
            RawSpec::Fail { err: JsonError::InvalidValue, next: i + 1 }
        }
    }
}

/// Read one raw item from an open string.
pub(crate) fn read_raw_item(reader: &mut PeekableRead) -> (r: Result<RawItem, JsonError>)
    requires
        old(reader).wf(),
    ensures
        final(reader).wf(),
        final(reader).input() == old(reader).input(),
        ({
            let spec = raw_item_spec(old(reader).input(), old(reader).pos());
            match r {
                Ok(RawItem::Character(ch)) => {
                    &&& spec matches RawSpec::Character { cp, next }
                    &&& ch as u32 == cp
                    &&& final(reader).pos() == next
                },
                Ok(RawItem::EscapedUnicode(v)) => {
                    &&& spec matches RawSpec::Escaped { v: sv, next }
                    &&& v as int == sv
                    &&& final(reader).pos() == next
                },
                Ok(RawItem::End) => {
                    &&& spec matches RawSpec::End { next }
                    &&& final(reader).pos() == next
                },
                Err(e) => {
                    &&& spec matches RawSpec::Fail { err, next }
                    &&& e == err
                    &&& final(reader).pos() == next
                },
            }
        }),
{
    let b = match reader.read_byte() {
        Ok(b) => b,
        Err(e) => {
            return Err(JsonError::ReadError(e));
        },
    };
    if b == 34 {
        return Ok(RawItem::End);
    }
    if b == 92 {
        return read_raw_escape(reader);
    }
    if b >= 0x80 {
        let ghost s0 = old(reader).input();
        let ghost i0 = old(reader).pos();
        let len = non_ascii_utf8_codepoint_len(b);
        let mut cp_bytes: Vec<u8> = Vec::new();
        cp_bytes.push(b);
        let b1 = match reader.read_byte() {
            Ok(nb) => nb,
            Err(e) => {
                return Err(JsonError::ReadError(e));
            },
        };
        cp_bytes.push(b1);
        if len >= 3 {
            let b2 = match reader.read_byte() {
                Ok(nb) => nb,
                Err(e) => {
                    return Err(JsonError::ReadError(e));
                },
            };
            cp_bytes.push(b2);
        }
        if len == 4 {
            let b3 = match reader.read_byte() {
                Ok(nb) => nb,
                Err(e) => {
                    return Err(JsonError::ReadError(e));
                },
            };
            cp_bytes.push(b3);
        }
        proof {
            assert(cp_bytes@ =~= s0.subrange(i0, i0 + utf8_len_spec(b)));
        }
        let ch = match utf8_codepoint_to_char(cp_bytes.as_slice()) {
            Ok(ch) => ch,
            Err(e) => {
                return Err(e);
            },
        };
        return Ok(RawItem::Character(ch));
    }
    if 0x20 <= b {
        // `b <= 0x7F` here, since the high bit was handled above.
        return Ok(RawItem::Character(ascii_char(b)));
    }
    Err(JsonError::InvalidValue)
}

/// Read the remainder of an escape sequence, the backslash already consumed.
fn read_raw_escape(reader: &mut PeekableRead) -> (r: Result<RawItem, JsonError>)
    requires
        old(reader).wf(),
    ensures
        final(reader).wf(),
        final(reader).input() == old(reader).input(),
        ({
            let spec = raw_escape_spec(old(reader).input(), old(reader).pos());
            match r {
                Ok(RawItem::Character(ch)) => {
                    &&& spec matches RawSpec::Character { cp, next }
                    &&& ch as u32 == cp
                    &&& final(reader).pos() == next
                },
                Ok(RawItem::EscapedUnicode(v)) => {
                    &&& spec matches RawSpec::Escaped { v: sv, next }
                    &&& v as int == sv
                    &&& final(reader).pos() == next
                },
                Ok(RawItem::End) => false,
                Err(e) => {
                    &&& spec matches RawSpec::Fail { err, next }
                    &&& e == err
                    &&& final(reader).pos() == next
                },
            }
        }),
{
    let e = match reader.read_byte() {
        Ok(e) => e,
        Err(err) => {
            return Err(JsonError::ReadError(err));
        },
    };
    if e == 34 || e == 92 || e == 47 {
        return Ok(RawItem::Character(ascii_char(e)));
    }
    if e == 98 {
        return Ok(RawItem::Character('\u{8}'));
    }
    if e == 102 {
        return Ok(RawItem::Character('\u{c}'));
    }
    if e == 110 {
        return Ok(RawItem::Character('\n'));
    }
    if e == 114 {
        return Ok(RawItem::Character('\r'));
    }
    if e == 116 {
        return Ok(RawItem::Character('\t'));
    }
    if e == 117 {
        let mut hex: [u8; 4] = [0, 0, 0, 0];
        let h0 = match reader.read_byte() {
            Ok(h) => h,
            Err(err) => {
                return Err(JsonError::ReadError(err));
            },
        };
        let h1 = match reader.read_byte() {
            Ok(h) => h,
            Err(err) => {
                return Err(JsonError::ReadError(err));
            },
        };
        let h2 = match reader.read_byte() {
            Ok(h) => h,
            Err(err) => {
                return Err(JsonError::ReadError(err));
            },
        };
        let h3 = match reader.read_byte() {
            Ok(h) => h,
            Err(err) => {
                return Err(JsonError::ReadError(err));
            },
        };
        hex[0] = h0;
        hex[1] = h1;
        hex[2] = h2;
        hex[3] = h3;
        if !validate_hex(hex) {
            return Err(JsonError::InvalidValue);
        }
        let v = match read_hex(hex) {
            Ok(v) => v,
            Err(err) => {
                return Err(err);
            },
        };
        return Ok(RawItem::EscapedUnicode(v as u16));
    }
    Err(JsonError::InvalidValue)
}

/// The character of an ASCII byte.
pub(crate) fn ascii_char(b: u8) -> (c: char)
    requires
        b < 0x80,
    ensures
        c as u32 == b as u32,
{
    match char::from_u32(b as u32) {
        Some(c) => c,
        None => {
            proof {
                assert(false);
            }
            ' '
        },
    }
}

/// A decoded string element handed to callers: a character, the end of the
/// string, or a string-local failure (`closed` tells whether the closing
/// quote was consumed while detecting it).
pub(crate) enum CharRead {
    /// The next character of the string.
    Char(char),
    /// The closing quote.
    End,
    /// A `\uXXXX` value that does not decode to a Unicode scalar value.
    Invalid { closed: bool },
}

/// The outcome of decoding one character at position `i`, surrogate pairs
/// combined.
pub ghost enum CharSpec {
    /// A character of codepoint `cp` was decoded.
    Character { cp: int, next: int },
    /// The closing quote was read.
    End { next: int },
    /// The escape values at `i` name no Unicode scalar value: only this
    /// string's decoding fails.
    Bad { next: int, closed: bool },
    /// A structural failure: the document cannot continue.
    Fail { err: JsonError, next: int },
}

/// Decode one character at position `i` of `s`.
///
/// An escape value in the high-surrogate range must be followed immediately
/// by another escape in the low-surrogate range; the pair combines into
/// `(high - 0xD800) * 0x400 + (low - 0xDC00) + 0x10000`.
pub open spec fn char_step(s: Seq<u8>, i: int) -> CharSpec {
    match raw_item_spec(s, i) {
        RawSpec::End { next } => CharSpec::End { next },
        RawSpec::Fail { err, next } => CharSpec::Fail { err, next },
        RawSpec::Character { cp, next } => CharSpec::Character { cp: cp as int, next },
        RawSpec::Escaped { v, next } => if 0xD800 <= v < 0xDC00 {
            match raw_item_spec(s, next) {
                RawSpec::Escaped { v: l, next: k } => if 0xDC00 <= l <= 0xDFFF {
                    CharSpec::Character {
                        cp: (v - 0xD800) * 0x400 + (l - 0xDC00) + 0x10000,
                        next: k,
                    }
                } else {
                    CharSpec::Bad { next: k, closed: false }
                },
                RawSpec::Character { cp: _, next: k } => CharSpec::Bad { next: k, closed: false },
                RawSpec::End { next: k } => CharSpec::Bad { next: k, closed: true },
                RawSpec::Fail { err, next: k } => CharSpec::Fail { err, next: k },
            }
        } else {
            if v < 0xD800 || v >= 0xE000 {
                CharSpec::Character { cp: v, next }
            } else {
                CharSpec::Bad { next, closed: false }
            }
        },
    }
}

/// A raw item always ends before the end of the input, and past its start.
pub proof fn lemma_raw_next_bounds(s: Seq<u8>, i: int)
    ensures
        (match raw_item_spec(s, i) {
            RawSpec::Character { cp, next } => i < next < s.len(),
            RawSpec::Escaped { v, next } => i < next < s.len(),
            RawSpec::End { next } => next == i + 1 && i + 1 < s.len(),
            RawSpec::Fail { err, next } => true,
        }),
{
    let r = raw_item_spec(s, i);
    let e = raw_escape_spec(s, i + 1);
}

/// For a position within the input, a raw item never moves backwards and
/// stays within the input, whatever it reports.
pub proof fn lemma_raw_next_in_range(s: Seq<u8>, i: int)
    requires
        0 <= i < s.len(),
    ensures
        (match raw_item_spec(s, i) {
            RawSpec::Character { cp, next } => i < next < s.len(),
            RawSpec::Escaped { v, next } => i < next < s.len(),
            RawSpec::End { next } => next == i + 1 && i + 1 < s.len(),
            RawSpec::Fail { err, next } => i <= next < s.len(),
        }),
{
    let r = raw_item_spec(s, i);
    let e = raw_escape_spec(s, i + 1);
}

/// A decoded character always ends before the end of the input, and past its
/// start.
pub proof fn lemma_char_step_bounds(s: Seq<u8>, i: int)
    ensures
        (match char_step(s, i) {
            CharSpec::Character { cp, next } => i < next < s.len(),
            CharSpec::End { next } => next == i + 1 && i + 1 < s.len(),
            CharSpec::Bad { next, closed } => i < next < s.len(),
            CharSpec::Fail { err, next } => true,
        }),
{
    lemma_raw_next_bounds(s, i);
    match raw_item_spec(s, i) {
        RawSpec::Escaped { v, next } => {
            lemma_raw_next_bounds(s, next);
        },
        _ => {},
    }
}

/// Read and decode one character from an open string.
pub(crate) fn next_string_char(reader: &mut PeekableRead) -> (r: Result<CharRead, JsonError>)
    requires
        old(reader).wf(),
    ensures
        final(reader).wf(),
        final(reader).input() == old(reader).input(),
        ({
            let spec = char_step(old(reader).input(), old(reader).pos());
            match r {
                Ok(CharRead::Char(ch)) => {
                    &&& spec matches CharSpec::Character { cp, next }
                    &&& ch as u32 == cp
                    &&& final(reader).pos() == next
                },
                Ok(CharRead::End) => {
                    &&& spec matches CharSpec::End { next }
                    &&& final(reader).pos() == next
                },
                Ok(CharRead::Invalid { closed }) => {
                    &&& spec matches CharSpec::Bad { next, closed: c2 }
                    &&& closed == c2
                    &&& final(reader).pos() == next
                },
                Err(e) => {
                    &&& spec matches CharSpec::Fail { err, next }
                    &&& e == err
                    &&& final(reader).pos() == next
                },
            }
        }),
{
    let first = match read_raw_item(reader) {
        Ok(item) => item,
        Err(e) => {
            return Err(e);
        },
    };
    match first {
        RawItem::End => Ok(CharRead::End),
        RawItem::Character(ch) => Ok(CharRead::Char(ch)),
        RawItem::EscapedUnicode(v) => {
            if 0xD800 <= v && v < 0xDC00 {
                // A high surrogate: the low half must follow immediately.
                let second = match read_raw_item(reader) {
                    Ok(item) => item,
                    Err(e) => {
                        return Err(e);
                    },
                };
                match second {
                    RawItem::EscapedUnicode(l) => {
                        if 0xDC00 <= l && l <= 0xDFFF {
                            let cp: u32 = ((v as u32) - 0xD800) * 0x400 + ((l as u32) - 0xDC00)
                                + 0x10000;
                            match char::from_u32(cp) {
                                Some(ch) => Ok(CharRead::Char(ch)),
                                None => Ok(CharRead::Invalid { closed: false }),
                            }
                        } else {
                            // The second escape is no low surrogate: only
                            // this string's decoding fails.
                            Ok(CharRead::Invalid { closed: false })
                        }
                    },
                    RawItem::Character(_) => Ok(CharRead::Invalid { closed: false }),
                    RawItem::End => Ok(CharRead::Invalid { closed: true }),
                }
            } else {
                // Not a high surrogate: the value is the codepoint itself,
                // invalid exactly when it is an unpaired low surrogate.
                match char::from_u32(v as u32) {
                    Some(ch) => Ok(CharRead::Char(ch)),
                    None => Ok(CharRead::Invalid { closed: false }),
                }
            }
        },
    }
}

/// The position just past the closing quote of the string opened at `i`,
/// or the structural error that interrupts the scan and where it strikes.
///
/// Surrogate pairing is not checked here: a string whose escapes name no
/// scalar value can still be skipped.
pub open spec fn string_end(s: Seq<u8>, i: int) -> Result<int, (JsonError, int)>
    decreases s.len() - i,
    via string_end_dec
{
    match raw_item_spec(s, i) {
        RawSpec::End { next } => Ok(next),
        RawSpec::Fail { err, next } => Err((err, next)),
        RawSpec::Character { cp, next } => string_end(s, next),
        RawSpec::Escaped { v, next } => string_end(s, next),
    }
}

#[via_fn]
proof fn string_end_dec(s: Seq<u8>, i: int) {
    lemma_raw_next_bounds(s, i);
}

/// Skip to the end of an open string, validating its syntax but not its
/// escape values.
pub(crate) fn skip_string(reader: &mut PeekableRead) -> (r: Result<(), JsonError>)
    requires
        old(reader).wf(),
    ensures
        final(reader).wf(),
        final(reader).input() == old(reader).input(),
        final(reader).pos() >= old(reader).pos(),
        ({
            match string_end(old(reader).input(), old(reader).pos()) {
                Ok(j) => r == Ok::<(), JsonError>(()) && final(reader).pos() == j,
                Err((e, j)) => r == Err::<(), JsonError>(e) && final(reader).pos() == j,
            }
        }),
{
    let ghost s = old(reader).input();
    let ghost i0 = old(reader).pos();
    loop
        invariant_except_break
            reader.wf(),
            reader.input() == s,
            s == old(reader).input(),
            i0 == old(reader).pos(),
            i0 <= reader.pos(),
            string_end(s, i0) == string_end(s, reader.pos()),
        ensures
            reader.wf(),
            reader.input() == s,
            s == old(reader).input(),
            i0 == old(reader).pos(),
            i0 <= reader.pos(),
            string_end(s, i0) == Ok::<int, (JsonError, int)>(reader.pos() as int),
        decreases s.len() - reader.pos(),
    {
        proof {
            lemma_raw_next_in_range(s, reader.pos());
        }
        match read_raw_item(reader) {
            Ok(RawItem::End) => {
                break;
            },
            Ok(_) => {},
            Err(e) => {
                return Err(e);
            },
        }
    }
    Ok(())
}

/// The decoding of the whole string opened at `i`: its characters as
/// codepoints and the position after the closing quote, or how it failed.
pub ghost enum DecodeSpec {
    /// The string decodes to `cps`, the closing quote consumed.
    Done { cps: Seq<int>, next: int },
    /// Decoding fails at a malformed escape value after `cps`; `closed`
    /// tells whether the failure consumed the closing quote.
    Broken { next: int, closed: bool },
    /// A structural failure interrupts the string.
    Fail { err: JsonError, next: int },
}

/// Decode the string opened at `i` of `s` to its end.
pub open spec fn decode_string(s: Seq<u8>, i: int) -> DecodeSpec
    decreases s.len() - i,
    via decode_string_dec
{
    match char_step(s, i) {
        CharSpec::End { next } => DecodeSpec::Done { cps: Seq::empty(), next },
        CharSpec::Fail { err, next } => DecodeSpec::Fail { err, next },
        CharSpec::Bad { next, closed } => DecodeSpec::Broken { next, closed },
        CharSpec::Character { cp, next } => match decode_string(s, next) {
            DecodeSpec::Done { cps, next: n2 } => DecodeSpec::Done {
                cps: seq![cp] + cps,
                next: n2,
            },
            DecodeSpec::Broken { next: n2, closed } => DecodeSpec::Broken { next: n2, closed },
            DecodeSpec::Fail { err, next: n2 } => DecodeSpec::Fail { err, next: n2 },
        },
    }
}

#[via_fn]
proof fn decode_string_dec(s: Seq<u8>, i: int) {
    lemma_char_step_bounds(s, i);
}

/// Relies on `String`'s `FromIterator<char>` implementation: collecting an
/// iterator of characters yields the string of exactly those characters.
#[verifier::external_body]
pub(crate) fn chars_to_string(v: &Vec<char>) -> (r: String)
    ensures
        r@ == v@,
{
    v.iter().collect()
}

/// How reading a whole string ended, short of a structural failure.
pub(crate) enum StringOutcome {
    /// The full decoded string, the closing quote consumed.
    Full(String),
    /// A malformed escape value: only this string's decoding fails, and the
    /// rest of it can still be skipped unless `closed` already holds.
    Broken { closed: bool },
}

/// Read an open string to its closing quote, decoding escapes.
pub(crate) fn read_string_chars(reader: &mut PeekableRead) -> (r: Result<
    StringOutcome,
    JsonError,
>)
    requires
        old(reader).wf(),
    ensures
        final(reader).wf(),
        final(reader).input() == old(reader).input(),
        final(reader).pos() >= old(reader).pos(),
        ({
            match decode_string(old(reader).input(), old(reader).pos()) {
                DecodeSpec::Done { cps, next } => (match r {
                    Ok(StringOutcome::Full(st)) => st@.map_values(|c: char| c as int) == cps
                        && final(reader).pos() == next,
                    _ => false,
                }),
                DecodeSpec::Broken { next, closed } => r == Ok::<StringOutcome, JsonError>(
                    StringOutcome::Broken { closed },
                ) && final(reader).pos() == next,
                DecodeSpec::Fail { err, next } => r == Err::<StringOutcome, JsonError>(err)
                    && final(reader).pos() == next,
            }
        }),
{
    let ghost s = old(reader).input();
    let ghost i0 = old(reader).pos();
    let mut chars: Vec<char> = Vec::new();
    loop
        invariant_except_break
            reader.wf(),
            reader.input() == s,
            s == old(reader).input(),
            i0 == old(reader).pos(),
            i0 <= reader.pos(),
            ({
                match decode_string(s, reader.pos()) {
                    DecodeSpec::Done { cps, next } => decode_string(s, i0) == (DecodeSpec::Done {
                        cps: chars@.map_values(|c: char| c as int) + cps,
                        next,
                    }),
                    DecodeSpec::Broken { next, closed } => decode_string(s, i0)
                        == (DecodeSpec::Broken { next, closed }),
                    DecodeSpec::Fail { err, next } => decode_string(s, i0) == (DecodeSpec::Fail {
                        err,
                        next,
                    }),
                }
            }),
        ensures
            reader.wf(),
            reader.input() == s,
            s == old(reader).input(),
            i0 == old(reader).pos(),
            i0 <= reader.pos(),
            decode_string(s, i0) == (DecodeSpec::Done {
                cps: chars@.map_values(|c: char| c as int),
                next: reader.pos() as int,
            }),
        decreases s.len() - reader.pos(),
    {
        proof {
            lemma_char_step_bounds(s, reader.pos());
        }
        let ghost pos0 = reader.pos();
        match next_string_char(reader) {
            Ok(CharRead::End) => {
                proof {
                    assert(chars@.map_values(|c: char| c as int) + Seq::<int>::empty()
                        =~= chars@.map_values(|c: char| c as int));
                }
                break;
            },
            Ok(CharRead::Char(ch)) => {
                let ghost prev = chars@;
                chars.push(ch);
                proof {
                    let f = |c: char| c as int;
                    assert(chars@.map_values(f) =~= prev.map_values(f) + seq![ch as int]);
                    match decode_string(s, reader.pos()) {
                        DecodeSpec::Done { cps, next } => {
                            assert(prev.map_values(f) + (seq![ch as int] + cps)
                                =~= chars@.map_values(f) + cps);
                        },
                        _ => {},
                    }
                }
            },
            Ok(CharRead::Invalid { closed }) => {
                return Ok(StringOutcome::Broken { closed });
            },
            Err(e) => {
                return Err(e);
            },
        }
    }
    Ok(StringOutcome::Full(chars_to_string(&chars)))
}

/// A valid surrogate pair decodes to the single scalar value
/// `(high - 0xD800) * 0x400 + (low - 0xDC00) + 0x10000`: two `\uXXXX`
/// escapes whose values fall in the high- and low-surrogate ranges combine
/// into exactly that codepoint.
pub proof fn lemma_surrogate_pair(s: Seq<u8>, i: int, h: int, l: int, j: int, k: int)
    requires
        raw_item_spec(s, i) == (RawSpec::Escaped { v: h, next: j }),
        raw_item_spec(s, j) == (RawSpec::Escaped { v: l, next: k }),
        0xD800 <= h < 0xDC00,
        0xDC00 <= l <= 0xDFFF,
    ensures
        char_step(s, i) == (CharSpec::Character {
            cp: (h - 0xD800) * 0x400 + (l - 0xDC00) + 0x10000,
            next: k,
        }),
{
}

/// An unpaired high surrogate fails only the string being decoded: when the
/// next item is a plain character, the closing quote, or an escape whose
/// value lies outside the low-surrogate range, the decode reports a local
/// failure, never a structural one — the raw bytes can still be skipped and
/// the rest of the document parsed.
pub proof fn lemma_unpaired_high_surrogate(s: Seq<u8>, i: int, h: int, j: int)
    requires
        raw_item_spec(s, i) == (RawSpec::Escaped { v: h, next: j }),
        0xD800 <= h < 0xDC00,
        (match raw_item_spec(s, j) {
            RawSpec::Escaped { v: l, next } => !(0xDC00 <= l <= 0xDFFF),
            RawSpec::Fail { err, next } => false,
            _ => true,
        }),
    ensures
        char_step(s, i) is Bad,
{
}

/// Skipping a string reaches exactly where decoding it fully does: when the
/// string opened at `i` decodes completely, the raw skip ends at the same
/// position past the closing quote.  Disposing a string value and then
/// continuing therefore reads the same subsequent bytes as consuming it
/// would have.
pub proof fn lemma_skip_matches_decode(s: Seq<u8>, i: int)
    ensures
        (match decode_string(s, i) {
            DecodeSpec::Done { cps, next } => string_end(s, i) == Ok::<int, (JsonError, int)>(
                next,
            ),
            _ => true,
        }),
    decreases s.len() - i,
{
    lemma_char_step_bounds(s, i);
    match char_step(s, i) {
        CharSpec::Character { cp, next } => {
            match raw_item_spec(s, i) {
                RawSpec::Escaped { v, next: j } => {
                    lemma_raw_next_bounds(s, i);
                    assert(string_end(s, i) == string_end(s, j));
                    if 0xD800 <= v < 0xDC00 {
                        lemma_raw_next_bounds(s, j);
                        assert(raw_item_spec(s, j) matches RawSpec::Escaped { v: l, next: k }
                            && k == next);
                        assert(string_end(s, j) == string_end(s, next));
                    } else {
                        assert(j == next);
                    }
                },
                RawSpec::Character { cp: c0, next: j } => {
                    assert(string_end(s, i) == string_end(s, j));
                },
                _ => {},
            }
            lemma_skip_matches_decode(s, next);
        },
        _ => {},
    }
}

/// A raw-item failure is a read error or an invalid value, never another
/// error kind.
pub proof fn lemma_raw_fail_kind(s: Seq<u8>, i: int)
    ensures
        (match raw_item_spec(s, i) {
            RawSpec::Fail { err, next } => err == JsonError::ReadError(SliceError::Short(1usize))
                || err == JsonError::InvalidValue,
            _ => true,
        }),
{
    let r = raw_item_spec(s, i);
    let e = raw_escape_spec(s, i + 1);
}

/// A character-decoding failure is a read error or an invalid value.
pub proof fn lemma_char_fail_kind(s: Seq<u8>, i: int)
    ensures
        (match char_step(s, i) {
            CharSpec::Fail { err, next } => err == JsonError::ReadError(SliceError::Short(1usize))
                || err == JsonError::InvalidValue,
            _ => true,
        }),
{
    lemma_raw_fail_kind(s, i);
    match raw_item_spec(s, i) {
        RawSpec::Escaped { v, next } => {
            lemma_raw_fail_kind(s, next);
        },
        _ => {},
    }
}

/// A whole-string decoding failure is a read error or an invalid value.
pub proof fn lemma_decode_fail_kind(s: Seq<u8>, i: int)
    ensures
        (match decode_string(s, i) {
            DecodeSpec::Fail { err, next } => err == JsonError::ReadError(
                SliceError::Short(1usize),
            ) || err == JsonError::InvalidValue,
            _ => true,
        }),
    decreases s.len() - i,
{
    lemma_char_step_bounds(s, i);
    lemma_char_fail_kind(s, i);
    match char_step(s, i) {
        CharSpec::Character { cp, next } => {
            lemma_decode_fail_kind(s, next);
        },
        _ => {},
    }
}

/// A skip of a string opened within the input ends strictly past its start
/// and within the input.
pub proof fn lemma_string_end_bounds(s: Seq<u8>, i: int)
    requires
        0 <= i < s.len(),
    ensures
        (match string_end(s, i) {
            Ok(j) => i < j < s.len(),
            Err((e, j)) => true,
        }),
    decreases s.len() - i,
{
    lemma_raw_next_in_range(s, i);
    match raw_item_spec(s, i) {
        RawSpec::Character { cp, next } => {
            lemma_string_end_bounds(s, next);
        },
        RawSpec::Escaped { v, next } => {
            lemma_string_end_bounds(s, next);
        },
        _ => {},
    }
}

/// A string-skip failure is a read error or an invalid value, never another
/// error kind — in particular never a stack error, as skipping reads no
/// stack.
pub proof fn lemma_string_end_fail_kind(s: Seq<u8>, i: int)
    ensures
        (match string_end(s, i) {
            Err((e, j)) => e == JsonError::ReadError(SliceError::Short(1usize)) || e
                == JsonError::InvalidValue,
            Ok(j) => true,
        }),
    decreases s.len() - i,
{
    lemma_raw_next_bounds(s, i);
    lemma_raw_fail_kind(s, i);
    match raw_item_spec(s, i) {
        RawSpec::Character { cp, next } => {
            lemma_string_end_fail_kind(s, next);
        },
        RawSpec::Escaped { v, next } => {
            lemma_string_end_fail_kind(s, next);
        },
        _ => {},
    }
}

} // verus!
