//! Serialization into JSON text, and typed deserialization glue.
//!
//! The encoder writes scalars and containers back out as RFC 8259 text:
//! integers in plain decimal, strings with the two mandatory escapes and
//! `\u00XX` for control characters, containers by joining their members.
//! The typed layer maps JSON values into plain Rust values through the
//! cursor operations; it consumes only the public surface of the engine.

use vstd::prelude::*;

use crate::{JsonError, Type};
use crate::deserializer::{Deserializer, Value};
use crate::number::{dec_digits, dec_of_i128, dec_of_i64, dec_of_u128, dec_of_u64, dec_rep};
use crate::stack::Stack;
use crate::strings::{ascii_char, chars_to_string};

verus! {

/// Whether a character sequence spells exactly the given ASCII bytes.
pub open spec fn chars_match_bytes(cs: Seq<char>, bs: Seq<u8>) -> bool {
    cs.len() == bs.len() && (forall|k: int| 0 <= k < cs.len() ==> (#[trigger] cs[k]) as int
        == bs[k] as int)
}

/// Turn a vector of ASCII bytes into the string of those characters.
fn ascii_bytes_to_string(v: &Vec<u8>) -> (r: String)
    requires
        forall|k: int| 0 <= k < v@.len() ==> v@[k] < 0x80,
    ensures
        chars_match_bytes(r@, v@),
{
    let mut chars: Vec<char> = Vec::new();
    let mut j: usize = 0;
    while j < v.len()
        invariant
            j <= v@.len(),
            forall|k: int| 0 <= k < v@.len() ==> v@[k] < 0x80,
            chars@.len() == j,
            forall|k: int| 0 <= k < j ==> (#[trigger] chars@[k]) as int == v@[k] as int,
        decreases v@.len() - j,
    {
        let c = ascii_char(v[j]);
        chars.push(c);
        j = j + 1;
    }
    chars_to_string(&chars)
}

/// Serialize an unsigned integer as its decimal digits.
pub fn serialize_u64(n: u64) -> (r: String)
    ensures
        chars_match_bytes(r@, dec_digits(n as nat)),
{
    let digits = dec_of_u64(n);
    proof {
        crate::number::lemma_dec_digits_props(n as nat);
        assert(forall|k: int|
            0 <= k < digits@.len() ==> crate::number::is_ascii_digit(#[trigger] digits@[k]));
    }
    ascii_bytes_to_string(&digits)
}

/// Serialize a signed integer as its decimal representation.
pub fn serialize_i64(n: i64) -> (r: String)
    ensures
        chars_match_bytes(r@, dec_rep(n as int)),
{
    let digits = dec_of_i64(n);
    proof {
        if n >= 0 {
            crate::number::lemma_dec_digits_props(n as nat);
        } else {
            crate::number::lemma_dec_digits_props((-(n as int)) as nat);
        }
        assert(forall|k: int| 0 <= k < digits@.len() ==> digits@[k] < 0x80);
    }
    ascii_bytes_to_string(&digits)
}

/// Serialize a wide unsigned integer as its decimal digits.
pub fn serialize_u128(n: u128) -> (r: String)
    ensures
        chars_match_bytes(r@, dec_digits(n as nat)),
{
    let digits = dec_of_u128(n);
    proof {
        crate::number::lemma_dec_digits_props(n as nat);
        assert(forall|k: int|
            0 <= k < digits@.len() ==> crate::number::is_ascii_digit(#[trigger] digits@[k]));
    }
    ascii_bytes_to_string(&digits)
}

/// Serialize a wide signed integer as its decimal representation.
pub fn serialize_i128(n: i128) -> (r: String)
    ensures
        chars_match_bytes(r@, dec_rep(n as int)),
{
    let digits = dec_of_i128(n);
    proof {
        if n >= 0 {
            crate::number::lemma_dec_digits_props(n as nat);
        } else {
            crate::number::lemma_dec_digits_props((-(n as int)) as nat);
        }
        assert(forall|k: int| 0 <= k < digits@.len() ==> digits@[k] < 0x80);
    }
    ascii_bytes_to_string(&digits)
}

/// The lowercase hexadecimal character of a value below sixteen.
pub open spec fn hex_digit_char(v: int) -> char {
    if v == 0 {
        '0'
    } else if v == 1 {
        '1'
    } else if v == 2 {
        '2'
    } else if v == 3 {
        '3'
    } else if v == 4 {
        '4'
    } else if v == 5 {
        '5'
    } else if v == 6 {
        '6'
    } else if v == 7 {
        '7'
    } else if v == 8 {
        '8'
    } else if v == 9 {
        '9'
    } else if v == 10 {
        'a'
    } else if v == 11 {
        'b'
    } else if v == 12 {
        'c'
    } else if v == 13 {
        'd'
    } else if v == 14 {
        'e'
    } else {
        'f'
    }
}

/// The lowercase hexadecimal character of a value below sixteen.
fn hex_digit_char_exec(v: u32) -> (r: char)
    requires
        v < 16,
    ensures
        r == hex_digit_char(v as int),
{
    if v == 0 {
        '0'
    } else if v == 1 {
        '1'
    } else if v == 2 {
        '2'
    } else if v == 3 {
        '3'
    } else if v == 4 {
        '4'
    } else if v == 5 {
        '5'
    } else if v == 6 {
        '6'
    } else if v == 7 {
        '7'
    } else if v == 8 {
        '8'
    } else if v == 9 {
        '9'
    } else if v == 10 {
        'a'
    } else if v == 11 {
        'b'
    } else if v == 12 {
        'c'
    } else if v == 13 {
        'd'
    } else if v == 14 {
        'e'
    } else {
        'f'
    }
}

/// The JSON escaping of one character: quotes and backslashes get their
/// two-character escapes, control characters a `\u00XX` escape, and
/// everything else stands for itself.
pub open spec fn esc_char(c: char) -> Seq<char> {
    if c == '"' {
        seq!['\\', '"']
    } else if c == '\\' {
        seq!['\\', '\\']
    } else if (c as u32) < 0x20 {
        seq![
            '\\',
            'u',
            '0',
            '0',
            hex_digit_char((c as u32) as int / 16),
            hex_digit_char((c as u32) as int % 16),
        ]
    } else {
        seq![c]
    }
}

/// The JSON escaping of a character sequence.
pub open spec fn json_escape(cs: Seq<char>) -> Seq<char>
    decreases cs.len(),
{
    if cs.len() == 0 {
        Seq::empty()
    } else {
        json_escape(cs.drop_last()) + esc_char(cs.last())
    }
}

/// Serialize string contents between quotes, escaping as JSON requires.
pub fn serialize_str(s: &String) -> (r: String)
    ensures
        r@ == seq!['"'] + json_escape(s@) + seq!['"'],
{
    let mut out: Vec<char> = Vec::new();
    out.push('"');
    let n = s.as_str().unicode_len();
    let mut j: usize = 0;
    proof {
        assert(out@ =~= seq!['"'] + json_escape(s@.take(0)));
    }
    while j < n
        invariant
            j <= n,
            n == s@.len(),
            out@ == seq!['"'] + json_escape(s@.take(j as int)),
        decreases n - j,
    {
        let c = s.as_str().get_char(j);
        if c == '"' {
            out.push('\\');
            out.push('"');
        } else if c == '\\' {
            out.push('\\');
            out.push('\\');
        } else {
            let v = c as u32;
            if v < 0x20 {
                out.push('\\');
                out.push('u');
                out.push('0');
                out.push('0');
                out.push(hex_digit_char_exec(v / 16));
                out.push(hex_digit_char_exec(v % 16));
            } else {
                out.push(c);
            }
        }
        j = j + 1;
        proof {
            assert(s@.take(j as int).drop_last() =~= s@.take(j as int - 1));
            assert(s@.take(j as int).last() == s@[j as int - 1]);
            assert(out@ =~= seq!['"'] + json_escape(s@.take(j as int)));
        }
    }
    proof {
        assert(s@.take(n as int) =~= s@);
    }
    out.push('"');
    proof {
        assert(out@ =~= seq!['"'] + json_escape(s@) + seq!['"']);
    }
    chars_to_string(&out)
}

/// The decimal character of a digit value.
pub open spec fn digit_char(v: int) -> char {
    if v == 0 {
        '0'
    } else if v == 1 {
        '1'
    } else if v == 2 {
        '2'
    } else if v == 3 {
        '3'
    } else if v == 4 {
        '4'
    } else if v == 5 {
        '5'
    } else if v == 6 {
        '6'
    } else if v == 7 {
        '7'
    } else if v == 8 {
        '8'
    } else {
        '9'
    }
}

/// The decimal digits of `n` as characters, most significant first.
pub open spec fn dec_chars(n: nat) -> Seq<char>
    decreases n,
{
    if n < 10 {
        seq![digit_char(n as int)]
    } else {
        dec_chars(n / 10).push(digit_char((n % 10) as int))
    }
}

/// The decimal representation of `v` as characters, with a leading minus
/// when negative.
pub open spec fn dec_rep_chars(v: int) -> Seq<char> {
    if v < 0 {
        seq!['-'] + dec_chars((-v) as nat)
    } else {
        dec_chars(v as nat)
    }
}

/// The decimal character sequence spells the decimal byte sequence.
proof fn lemma_dec_chars_digits(n: nat)
    ensures
        dec_chars(n).len() == dec_digits(n).len(),
        forall|k: int|
            0 <= k < dec_chars(n).len() ==> (#[trigger] dec_chars(n)[k]) as int == dec_digits(
                n,
            )[k] as int,
    decreases n,
{
    if n >= 10 {
        lemma_dec_chars_digits(n / 10);
    }
}

/// Characters that spell the decimal bytes of `n` are its decimal
/// characters.
proof fn lemma_serialized_digits(cs: Seq<char>, n: nat)
    requires
        chars_match_bytes(cs, dec_digits(n)),
    ensures
        cs == dec_chars(n),
{
    lemma_dec_chars_digits(n);
    assert(cs =~= dec_chars(n));
}

/// Characters that spell the decimal representation of `v` are its decimal
/// characters, the sign included.
proof fn lemma_serialized_rep(cs: Seq<char>, v: int)
    requires
        chars_match_bytes(cs, dec_rep(v)),
    ensures
        cs == dec_rep_chars(v),
{
    if v < 0 {
        lemma_dec_chars_digits((-v) as nat);
        assert(cs =~= dec_rep_chars(v));
    } else {
        lemma_serialized_digits(cs, v as nat);
    }
}

/// The members of a container, joined by commas.
pub open spec fn join_comma(items: Seq<Seq<char>>) -> Seq<char>
    decreases items.len(),
{
    if items.len() == 0 {
        Seq::empty()
    } else if items.len() == 1 {
        items[0]
    } else {
        join_comma(items.drop_last()) + seq![','] + items.last()
    }
}

/// An item which can be serialized as JSON text.
pub trait JsonSerialize {
    /// The JSON text this item serializes to.
    spec fn json_chars(&self) -> Seq<char>;

    /// Serialize this item as JSON.
    fn serialize(&self) -> (r: String)
        ensures
            r@ == self.json_chars(),
    ;
}

impl JsonSerialize for u8 {
    open spec fn json_chars(&self) -> Seq<char> {
        dec_chars(*self as nat)
    }

    fn serialize(&self) -> (r: String)
        ensures
            r@ == self.json_chars(),
    {
        let r = serialize_u64(*self as u64);
        proof {
            lemma_serialized_digits(r@, *self as nat);
        }
        r
    }
}

impl JsonSerialize for u16 {
    open spec fn json_chars(&self) -> Seq<char> {
        dec_chars(*self as nat)
    }

    fn serialize(&self) -> (r: String)
        ensures
            r@ == self.json_chars(),
    {
        let r = serialize_u64(*self as u64);
        proof {
            lemma_serialized_digits(r@, *self as nat);
        }
        r
    }
}

impl JsonSerialize for u32 {
    open spec fn json_chars(&self) -> Seq<char> {
        dec_chars(*self as nat)
    }

    fn serialize(&self) -> (r: String)
        ensures
            r@ == self.json_chars(),
    {
        let r = serialize_u64(*self as u64);
        proof {
            lemma_serialized_digits(r@, *self as nat);
        }
        r
    }
}

impl JsonSerialize for u64 {
    open spec fn json_chars(&self) -> Seq<char> {
        dec_chars(*self as nat)
    }

    fn serialize(&self) -> (r: String)
        ensures
            r@ == self.json_chars(),
    {
        let r = serialize_u64(*self);
        proof {
            lemma_serialized_digits(r@, *self as nat);
        }
        r
    }
}

impl JsonSerialize for i64 {
    open spec fn json_chars(&self) -> Seq<char> {
        dec_rep_chars(*self as int)
    }

    fn serialize(&self) -> (r: String)
        ensures
            r@ == self.json_chars(),
    {
        let r = serialize_i64(*self);
        proof {
            lemma_serialized_rep(r@, *self as int);
        }
        r
    }
}

impl JsonSerialize for usize {
    open spec fn json_chars(&self) -> Seq<char> {
        dec_chars(*self as nat)
    }

    fn serialize(&self) -> (r: String)
        ensures
            r@ == self.json_chars(),
    {
        let r = serialize_u64(*self as u64);
        proof {
            lemma_serialized_digits(r@, *self as nat);
        }
        r
    }
}

impl JsonSerialize for u128 {
    open spec fn json_chars(&self) -> Seq<char> {
        dec_chars(*self as nat)
    }

    fn serialize(&self) -> (r: String)
        ensures
            r@ == self.json_chars(),
    {
        let r = serialize_u128(*self);
        proof {
            lemma_serialized_digits(r@, *self as nat);
        }
        r
    }
}

impl JsonSerialize for i8 {
    open spec fn json_chars(&self) -> Seq<char> {
        dec_rep_chars(*self as int)
    }

    fn serialize(&self) -> (r: String)
        ensures
            r@ == self.json_chars(),
    {
        let r = serialize_i64(*self as i64);
        proof {
            lemma_serialized_rep(r@, *self as int);
        }
        r
    }
}

impl JsonSerialize for i16 {
    open spec fn json_chars(&self) -> Seq<char> {
        dec_rep_chars(*self as int)
    }

    fn serialize(&self) -> (r: String)
        ensures
            r@ == self.json_chars(),
    {
        let r = serialize_i64(*self as i64);
        proof {
            lemma_serialized_rep(r@, *self as int);
        }
        r
    }
}

impl JsonSerialize for i32 {
    open spec fn json_chars(&self) -> Seq<char> {
        dec_rep_chars(*self as int)
    }

    fn serialize(&self) -> (r: String)
        ensures
            r@ == self.json_chars(),
    {
        let r = serialize_i64(*self as i64);
        proof {
            lemma_serialized_rep(r@, *self as int);
        }
        r
    }
}

impl JsonSerialize for isize {
    open spec fn json_chars(&self) -> Seq<char> {
        dec_rep_chars(*self as int)
    }

    fn serialize(&self) -> (r: String)
        ensures
            r@ == self.json_chars(),
    {
        let r = serialize_i64(*self as i64);
        proof {
            lemma_serialized_rep(r@, *self as int);
        }
        r
    }
}

impl JsonSerialize for i128 {
    open spec fn json_chars(&self) -> Seq<char> {
        dec_rep_chars(*self as int)
    }

    fn serialize(&self) -> (r: String)
        ensures
            r@ == self.json_chars(),
    {
        let r = serialize_i128(*self);
        proof {
            lemma_serialized_rep(r@, *self as int);
        }
        r
    }
}

impl JsonSerialize for bool {
    open spec fn json_chars(&self) -> Seq<char> {
        if *self {
            seq!['t', 'r', 'u', 'e']
        } else {
            seq!['f', 'a', 'l', 's', 'e']
        }
    }

    fn serialize(&self) -> (r: String)
        ensures
            r@ == self.json_chars(),
    {
        let mut out: Vec<char> = Vec::new();
        if *self {
            out.push('t');
            out.push('r');
            out.push('u');
            out.push('e');
            proof {
                assert(out@ =~= seq!['t', 'r', 'u', 'e']);
            }
        } else {
            out.push('f');
            out.push('a');
            out.push('l');
            out.push('s');
            out.push('e');
            proof {
                assert(out@ =~= seq!['f', 'a', 'l', 's', 'e']);
            }
        }
        chars_to_string(&out)
    }
}

impl JsonSerialize for String {
    open spec fn json_chars(&self) -> Seq<char> {
        seq!['"'] + json_escape(self@) + seq!['"']
    }

    fn serialize(&self) -> (r: String)
        ensures
            r@ == self.json_chars(),
    {
        serialize_str(self)
    }
}

impl<T: JsonSerialize> JsonSerialize for Option<T> {
    /// `Some(value)` serializes as `value`, `None` as `null`.
    open spec fn json_chars(&self) -> Seq<char> {
        match self {
            Some(value) => value.json_chars(),
            None => seq!['n', 'u', 'l', 'l'],
        }
    }

    fn serialize(&self) -> (r: String)
        ensures
            r@ == self.json_chars(),
    {
        match self {
            Some(value) => value.serialize(),
            None => {
                let mut out: Vec<char> = Vec::new();
                out.push('n');
                out.push('u');
                out.push('l');
                out.push('l');
                proof {
                    assert(out@ =~= seq!['n', 'u', 'l', 'l']);
                }
                chars_to_string(&out)
            },
        }
    }
}

impl<T: JsonSerialize> JsonSerialize for Vec<T> {
    /// The elements, comma-joined between square brackets.
    open spec fn json_chars(&self) -> Seq<char> {
        seq!['['] + join_comma(self@.map_values(|t: T| t.json_chars())) + seq![']']
    }

    fn serialize(&self) -> (r: String)
        ensures
            r@ == self.json_chars(),
    {
        let ghost items = self@.map_values(|t: T| t.json_chars());
        let mut out = String::new();
        out.append("[");
        proof {
            reveal_strlit("[");
            reveal_strlit("]");
            reveal_strlit(",");
            assert(out@ =~= seq!['['] + join_comma(items.take(0)));
        }
        let mut j: usize = 0;
        while j < self.len()
            invariant
                j <= self@.len(),
                items == self@.map_values(|t: T| t.json_chars()),
                out@ == seq!['['] + join_comma(items.take(j as int)),
            decreases self@.len() - j,
        {
            proof {
                reveal_strlit(",");
            }
            if j != 0 {
                out.append(",");
            }
            let piece = self[j].serialize();
            out.append(piece.as_str());
            j = j + 1;
            proof {
                assert(items.take(j as int).drop_last() =~= items.take(j as int - 1));
                assert(items.take(j as int).last() == items[j as int - 1]);
                assert(out@ =~= seq!['['] + join_comma(items.take(j as int)));
            }
        }
        proof {
            reveal_strlit("]");
            assert(items.take(self@.len() as int) =~= items);
        }
        out.append("]");
        proof {
            assert(out@ =~= seq!['['] + join_comma(items) + seq![']']);
        }
        out
    }
}

/// An item which can be deserialized from a [`Value`].
pub trait JsonDeserialize: Sized {
    /// Decode this item from a `Value`, consuming it.
    fn deserialize<S: Stack>(value: Value, d: &mut Deserializer<S>) -> (r: Result<
        Self,
        JsonError,
    >)
        requires
            old(d).wf(),
        ensures
            final(d).wf(),
            final(d).input() == old(d).input(),
            final(d).pos() >= old(d).pos(),
            r is Ok ==> final(d).pos() > old(d).pos(),
    ;
}

impl JsonDeserialize for bool {
    /// On a value whose step reports a boolean literal, exactly that boolean
    /// comes back.
    fn deserialize<S: Stack>(value: Value, d: &mut Deserializer<S>) -> (r: Result<
        Self,
        JsonError,
    >)
        ensures
            (old(d).lent() == value.token() && old(d).ready()) ==> (match
            crate::deserializer::step_spec(old(d).input(), old(d).pos(), old(d).states()).res {
                Ok(ev) => (ev matches crate::deserializer::EventSpec::Bool(b) ==> r == Ok::<
                    bool,
                    JsonError,
                >(b)),
                Err(e) => true,
            }),
    {
        value.to_bool(d)
    }
}

/// Deserialize `null` as `()`.
impl JsonDeserialize for () {
    /// On a value whose step reports the null literal, the unit comes back.
    fn deserialize<S: Stack>(value: Value, d: &mut Deserializer<S>) -> (r: Result<
        Self,
        JsonError,
    >)
        ensures
            (old(d).lent() == value.token() && old(d).ready()) ==> (match
            crate::deserializer::step_spec(old(d).input(), old(d).pos(), old(d).states()).res {
                Ok(ev) => (ev is Null ==> r == Ok::<(), JsonError>(())),
                Err(e) => true,
            }),
    {
        value.to_null(d)
    }
}

impl JsonDeserialize for i64 {
    /// The exact integer of the literal; a fractional or out-of-range
    /// number is a type error.
    fn deserialize<S: Stack>(value: Value, d: &mut Deserializer<S>) -> (r: Result<
        Self,
        JsonError,
    >)
        ensures
            (old(d).lent() == value.token() && old(d).ready()) ==> (match
            crate::deserializer::step_spec(old(d).input(), old(d).pos(), old(d).states()).res {
                Ok(ev) => (match ev {
                    crate::deserializer::EventSpec::Number(m) => (match crate::number::i64_spec(
                        m,
                    ) {
                        Some(n) => r == Ok::<i64, JsonError>(n),
                        None => r == Err::<i64, JsonError>(JsonError::TypeError),
                    }),
                    _ => true,
                }),
                Err(e) => true,
            }),
    {
        let number = value.to_number(d)?;
        match number.i64() {
            Some(n) => Ok(n),
            None => Err(JsonError::TypeError),
        }
    }
}

impl JsonDeserialize for u64 {
    fn deserialize<S: Stack>(value: Value, d: &mut Deserializer<S>) -> (r: Result<
        Self,
        JsonError,
    >) {
        let n = i64::deserialize(value, d)?;
        if n < 0 {
            return Err(JsonError::TypeError);
        }
        Ok(n as u64)
    }
}

impl JsonDeserialize for u32 {
    fn deserialize<S: Stack>(value: Value, d: &mut Deserializer<S>) -> (r: Result<
        Self,
        JsonError,
    >) {
        let n = i64::deserialize(value, d)?;
        if n < 0 || n > 0xFFFF_FFFFi64 {
            return Err(JsonError::TypeError);
        }
        Ok(n as u32)
    }
}

impl JsonDeserialize for u16 {
    fn deserialize<S: Stack>(value: Value, d: &mut Deserializer<S>) -> (r: Result<
        Self,
        JsonError,
    >) {
        let n = i64::deserialize(value, d)?;
        if n < 0 || n > 0xFFFFi64 {
            return Err(JsonError::TypeError);
        }
        Ok(n as u16)
    }
}

impl JsonDeserialize for u8 {
    fn deserialize<S: Stack>(value: Value, d: &mut Deserializer<S>) -> (r: Result<
        Self,
        JsonError,
    >) {
        let n = i64::deserialize(value, d)?;
        if n < 0 || n > 0xFFi64 {
            return Err(JsonError::TypeError);
        }
        Ok(n as u8)
    }
}

impl JsonDeserialize for i8 {
    fn deserialize<S: Stack>(value: Value, d: &mut Deserializer<S>) -> (r: Result<
        Self,
        JsonError,
    >) {
        let n = i64::deserialize(value, d)?;
        if n < -128i64 || n > 127i64 {
            return Err(JsonError::TypeError);
        }
        Ok(n as i8)
    }
}

impl JsonDeserialize for i16 {
    fn deserialize<S: Stack>(value: Value, d: &mut Deserializer<S>) -> (r: Result<
        Self,
        JsonError,
    >) {
        let n = i64::deserialize(value, d)?;
        if n < -32768i64 || n > 32767i64 {
            return Err(JsonError::TypeError);
        }
        Ok(n as i16)
    }
}

impl JsonDeserialize for i32 {
    fn deserialize<S: Stack>(value: Value, d: &mut Deserializer<S>) -> (r: Result<
        Self,
        JsonError,
    >) {
        let n = i64::deserialize(value, d)?;
        if n < -2147483648i64 || n > 2147483647i64 {
            return Err(JsonError::TypeError);
        }
        Ok(n as i32)
    }
}

impl JsonDeserialize for isize {
    fn deserialize<S: Stack>(value: Value, d: &mut Deserializer<S>) -> (r: Result<
        Self,
        JsonError,
    >) {
        let n = i64::deserialize(value, d)?;
        if n < (isize::MIN as i64) || n > (isize::MAX as i64) {
            return Err(JsonError::TypeError);
        }
        Ok(n as isize)
    }
}

impl JsonDeserialize for usize {
    fn deserialize<S: Stack>(value: Value, d: &mut Deserializer<S>) -> (r: Result<
        Self,
        JsonError,
    >) {
        let n = u64::deserialize(value, d)?;
        if n > (usize::MAX as u64) {
            return Err(JsonError::TypeError);
        }
        Ok(n as usize)
    }
}

impl JsonDeserialize for u128 {
    /// Bounded by the accumulator's exact-integer range, as in every
    /// integer decode.
    fn deserialize<S: Stack>(value: Value, d: &mut Deserializer<S>) -> (r: Result<
        Self,
        JsonError,
    >) {
        let n = u64::deserialize(value, d)?;
        Ok(n as u128)
    }
}

impl JsonDeserialize for i128 {
    /// Bounded by the accumulator's exact-integer range, as in every
    /// integer decode.
    fn deserialize<S: Stack>(value: Value, d: &mut Deserializer<S>) -> (r: Result<
        Self,
        JsonError,
    >) {
        let n = i64::deserialize(value, d)?;
        Ok(n as i128)
    }
}

impl JsonDeserialize for String {
    fn deserialize<S: Stack>(value: Value, d: &mut Deserializer<S>) -> (r: Result<
        Self,
        JsonError,
    >) {
        value.to_str(d)
    }
}

impl<T: JsonDeserialize> JsonDeserialize for Option<T> {
    /// `null` is accepted as a representation of `None`.
    fn deserialize<S: Stack>(value: Value, d: &mut Deserializer<S>) -> (r: Result<
        Self,
        JsonError,
    >) {
        let t = value.kind(d)?;
        match t {
            Type::Null => {
                value.to_null(d)?;
                Ok(None)
            },
            _ => {
                match T::deserialize(value, d) {
                    Ok(inner) => Ok(Some(inner)),
                    Err(e) => Err(e),
                }
            },
        }
    }
}

impl<T: JsonDeserialize> JsonDeserialize for Vec<T> {
    /// A JSON array of any length, elements in order.
    fn deserialize<S: Stack>(value: Value, d: &mut Deserializer<S>) -> (r: Result<
        Self,
        JsonError,
    >) {
        let mut it = value.iterate(d)?;
        let mut out: Vec<T> = Vec::new();
        loop
            invariant
                d.wf(),
                d.input() == old(d).input(),
                d.pos() > old(d).pos(),
            decreases d.input().len() - d.pos(),
        {
            match it.next(d) {
                None => {
                    return Ok(out);
                },
                Some(Ok(element)) => {
                    match T::deserialize(element, d) {
                        Ok(t) => out.push(t),
                        Err(e) => {
                            return Err(e);
                        },
                    }
                },
                Some(Err(e)) => {
                    return Err(e);
                },
            }
            proof {
                d.lemma_wf_bounds();
            }
        }
    }
}

/// Deserialize a structure from a JSON-serialized blob.
pub fn deserialize_structure<T: JsonDeserialize, S: Stack>(json: Vec<u8>) -> (r: Result<
    T,
    JsonError,
>) {
    let mut d = Deserializer::<S>::new(json)?;
    let value = d.value()?;
    T::deserialize(value, &mut d)
}

/// A structure which can be deserialized from a whole JSON serialization:
/// any deserializable item, handed the document rather than a cursor.
pub trait JsonStructure: JsonDeserialize {
    /// Deserialize this structure from a JSON-serialized blob.
    fn deserialize_structure<S: Stack>(json: Vec<u8>) -> (r: Result<Self, JsonError>) {
        deserialize_structure::<Self, S>(json)
    }
}

impl<T: JsonDeserialize> JsonStructure for T {
}

/// Deserialize a JSON array of exactly `n` elements; a shorter or longer
/// array is a distinct type and rejected as a type error.
pub fn deserialize_array<T: JsonDeserialize, S: Stack>(
    value: Value,
    d: &mut Deserializer<S>,
    n: usize,
) -> (r: Result<Vec<T>, JsonError>)
    requires
        old(d).wf(),
    ensures
        final(d).wf(),
        match r {
            Ok(v) => v@.len() == n,
            Err(_) => true,
        },
{
    let mut it = value.iterate(d)?;
    let mut out: Vec<T> = Vec::new();
    loop
        invariant
            d.wf(),
            d.input() == old(d).input(),
            d.pos() >= old(d).pos(),
            out@.len() <= n,
        decreases d.input().len() - d.pos(),
    {
        match it.next(d) {
            None => {
                if out.len() != n {
                    return Err(JsonError::TypeError);
                }
                return Ok(out);
            },
            Some(Ok(element)) => {
                if out.len() == n {
                    // Too many elements: drain the rest via disposal.
                    element.dispose(d);
                    it.dispose(d);
                    return Err(JsonError::TypeError);
                }
                match T::deserialize(element, d) {
                    Ok(t) => out.push(t),
                    Err(e) => {
                        return Err(e);
                    },
                }
            },
            Some(Err(e)) => {
                return Err(e);
            },
        }
        proof {
            d.lemma_wf_bounds();
        }
    }
}

/// Deserialize a JSON object into its fields, keys paired with values in
/// the order they appear; a key present twice appears twice.
pub fn deserialize_map<T: JsonDeserialize, S: Stack>(value: Value, d: &mut Deserializer<S>) -> (r:
    Result<Vec<(String, T)>, JsonError>)
    requires
        old(d).wf(),
    ensures
        final(d).wf(),
{
    let mut it = value.fields(d)?;
    let mut out: Vec<(String, T)> = Vec::new();
    loop
        invariant
            d.wf(),
            d.input() == old(d).input(),
            d.pos() >= old(d).pos(),
        decreases d.input().len() - d.pos(),
    {
        match it.next(d) {
            None => {
                return Ok(out);
            },
            Some(Ok(field)) => {
                let mut field = field;
                let key = match field.key(d) {
                    Ok(key) => key,
                    Err(e) => {
                        return Err(e);
                    },
                };
                let element = match field.value(d) {
                    Ok(element) => element,
                    Err(e) => {
                        return Err(e);
                    },
                };
                match T::deserialize(element, d) {
                    Ok(t) => out.push((key, t)),
                    Err(e) => {
                        return Err(e);
                    },
                }
            },
            Some(Err(e)) => {
                return Err(e);
            },
        }
        proof {
            d.lemma_wf_bounds();
        }
    }
}

/// One object member: the quoted, escaped key, a colon, and the value's
/// serialization.
pub open spec fn field_chars<T: JsonSerialize>(key: Seq<char>, value: T) -> Seq<char> {
    seq!['"'] + json_escape(key) + seq!['"'] + seq![':'] + value.json_chars()
}

/// Serialize one key and value as a JSON object member.
pub fn serialize_field<T: JsonSerialize>(key: &String, value: &T) -> (r: String)
    ensures
        r@ == field_chars(key@, *value),
{
    let mut out = serialize_str(key);
    proof {
        reveal_strlit(":");
    }
    out.append(":");
    let piece = value.serialize();
    out.append(piece.as_str());
    proof {
        assert(out@ =~= field_chars(key@, *value));
    }
    out
}

/// Serialize key-value pairs as a JSON object, members in the given order:
/// an opening brace, the members comma-joined, a closing brace.  The empty
/// sequence of pairs gives exactly the two braces.
pub fn serialize_map<T: JsonSerialize>(pairs: &Vec<(String, T)>) -> (r: String)
    ensures
        r@ == seq!['{'] + join_comma(
            pairs@.map_values(|p: (String, T)| field_chars(p.0@, p.1)),
        ) + seq!['}'],
{
    let ghost items = pairs@.map_values(|p: (String, T)| field_chars(p.0@, p.1));
    let mut out = String::new();
    out.append("{");
    proof {
        reveal_strlit("{");
        assert(out@ =~= seq!['{'] + join_comma(items.take(0)));
    }
    let mut j: usize = 0;
    while j < pairs.len()
        invariant
            j <= pairs@.len(),
            items == pairs@.map_values(|p: (String, T)| field_chars(p.0@, p.1)),
            out@ == seq!['{'] + join_comma(items.take(j as int)),
        decreases pairs@.len() - j,
    {
        proof {
            reveal_strlit(",");
        }
        if j != 0 {
            out.append(",");
        }
        let piece = serialize_field(&pairs[j].0, &pairs[j].1);
        out.append(piece.as_str());
        j = j + 1;
        proof {
            assert(items.take(j as int).drop_last() =~= items.take(j as int - 1));
            assert(items.take(j as int).last() == items[j as int - 1]);
            assert(out@ =~= seq!['{'] + join_comma(items.take(j as int)));
        }
    }
    proof {
        reveal_strlit("}");
        assert(items.take(pairs@.len() as int) =~= items);
    }
    out.append("}");
    proof {
        assert(out@ =~= seq!['{'] + join_comma(items) + seq!['}']);
    }
    out
}

/// A three-state variable comparable to a flattened nested option.
///
/// When deserializing, this preserves the distinction between a field
/// present as `null` and a field not present at all, which a plain `Option`
/// collapses into one case.
#[derive(Clone, Copy, Debug, PartialEq, Eq, Default)]
pub enum Tri<T> {
    /// A value present.
    Present(T),
    /// A value present as `null`.
    Null,
    /// A value not present.
    #[default]
    Absent,
}

impl<T: JsonDeserialize> JsonDeserialize for Tri<T> {
    /// `null` decodes to the explicit null state; anything else decodes as
    /// the inner type.  The absent state never arises from a present value.
    fn deserialize<S: Stack>(value: Value, d: &mut Deserializer<S>) -> (r: Result<
        Self,
        JsonError,
    >) {
        let t = value.kind(d)?;
        match t {
            Type::Null => {
                value.to_null(d)?;
                Ok(Tri::Null)
            },
            _ => {
                match T::deserialize(value, d) {
                    Ok(inner) => Ok(Tri::Present(inner)),
                    Err(e) => Err(e),
                }
            },
        }
    }
}

} // verus!
