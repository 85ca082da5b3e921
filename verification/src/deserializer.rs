//! The step automaton and the deserializer that drives it.
//!
//! One step consumes exactly one logical unit, guided by the state on top of
//! the parser stack: inside an object it opens a field or closes the object,
//! inside an array it announces a value or closes the array, and on an
//! unclassified value it reads the opening token of whatever comes next.
//! The automaton is explicitly iterative — no recursion — so arbitrarily deep
//! documents cannot exhaust a call stack.
//!
//! The deserializer owns the byte source and the stack, together with the
//! pending-skip queue: disposal of a cursor only records what skip work is
//! owed, and the record is drained at the top of the next operation.

use vstd::prelude::*;

use crate::{JsonError, Type};
use crate::number::{
    lemma_num_end_bounds, num_end, num_sink_at, strictly_valid_spec, to_number_str, Number,
    SinkModel,
};
use crate::reader::{PeekableRead, SliceError};
use crate::stack::{Stack, State};
use crate::strings::{decode_string, read_string_chars, skip_string, string_end, DecodeSpec, StringOutcome};

verus! {

/// Whether `b` is RFC 8259 whitespace.
pub open spec fn is_ws(b: u8) -> bool {
    b == 0x20 || b == 0x09 || b == 0x0A || b == 0x0D
}

/// The first position at or after `i` holding a byte that is not whitespace,
/// or the length of `s` when whitespace runs to the end.
pub open spec fn ws_end(s: Seq<u8>, i: int) -> int
    decreases s.len() - i,
{
    if i < 0 || i >= s.len() {
        s.len() as int
    } else if is_ws(s[i]) {
        ws_end(s, i + 1)
    } else {
        i
    }
}

/// Skipping whitespace stays within bounds and stops at non-whitespace.
pub proof fn lemma_ws_end(s: Seq<u8>, i: int)
    requires
        0 <= i <= s.len(),
    ensures
        i <= ws_end(s, i) <= s.len(),
        ws_end(s, i) < s.len() ==> !is_ws(s[ws_end(s, i)]),
    decreases s.len() - i,
{
    if i < s.len() && is_ws(s[i]) {
        lemma_ws_end(s, i + 1);
    }
}

/// The type of the value a byte opens.
pub open spec fn classify(b: u8) -> Type {
    if b == 123 {
        Type::Object
    } else if b == 91 {
        Type::Array
    } else if b == 34 {
        Type::String
    } else if b == 116 || b == 102 {
        Type::Bool
    } else if b == 110 {
        Type::Null
    } else {
        Type::Number
    }
}

/// Get the type of the current item.
///
/// This does not assert it is a valid instance of this class of items; it
/// solely asserts that if this is a valid item, it will be of this type.
pub(crate) fn kind(reader: &PeekableRead) -> (t: Type)
    requires
        reader.wf(),
    ensures
        t == classify(reader.input()[reader.pos()]),
{
    let b = reader.peek();
    if b == 123 {
        Type::Object
    } else if b == 91 {
        Type::Array
    } else if b == 34 {
        Type::String
    } else if b == 116 || b == 102 {
        Type::Bool
    } else if b == 110 {
        Type::Null
    } else {
        Type::Number
    }
}

/// The outcome of skipping whitespace from `i`: whether it succeeded and the
/// position reached.  Whitespace running to the end of the input exhausts the
/// reader, which stops at the final byte.
pub open spec fn ws_spec(s: Seq<u8>, i: int) -> (Result<(), JsonError>, int) {
    let e = ws_end(s, i);
    if e < s.len() {
        (Ok(()), e)
    } else {
        (Err(JsonError::ReadError(SliceError::Short(1usize))), s.len() - 1)
    }
}

/// The outcome of advancing past a colon at `i`: whitespace, one `:`, then
/// whitespace again.
pub open spec fn colon_spec(s: Seq<u8>, i: int) -> (Result<(), JsonError>, int) {
    let e = ws_end(s, i);
    if e >= s.len() {
        (Err(JsonError::ReadError(SliceError::Short(1usize))), s.len() - 1)
    } else if e + 1 >= s.len() {
        (Err(JsonError::ReadError(SliceError::Short(1usize))), e)
    } else if s[e] != 58 {
        (Err(JsonError::InvalidKeyValueDelimiter), e + 1)
    } else {
        ws_spec(s, e + 1)
    }
}

/// The outcome of advancing past a comma, or to the close of the structure:
/// after whitespace, a comma is consumed (a close straight after it being a
/// trailing comma), a close is left for the parent frame, and anything else
/// is invalid.
pub open spec fn comma_close_spec(s: Seq<u8>, i: int) -> (Result<(), JsonError>, int) {
    let e = ws_end(s, i);
    if e >= s.len() {
        (Err(JsonError::ReadError(SliceError::Short(1usize))), s.len() - 1)
    } else if s[e] == 44 {
        if e + 1 >= s.len() {
            (Err(JsonError::ReadError(SliceError::Short(1usize))), e)
        } else {
            let e2 = ws_end(s, e + 1);
            if e2 >= s.len() {
                (Err(JsonError::ReadError(SliceError::Short(1usize))), s.len() - 1)
            } else if s[e2] == 93 || s[e2] == 125 {
                (Err(JsonError::TrailingComma), e2)
            } else {
                (Ok(()), e2)
            }
        }
    } else if s[e] == 93 || s[e] == 125 {
        (Ok(()), e)
    } else {
        (Err(JsonError::InvalidValue), e)
    }
}


/// A successful colon consumption strictly advances, staying in the input.
pub proof fn lemma_colon_spec_bounds(s: Seq<u8>, i: int)
    requires
        0 <= i < s.len(),
    ensures
        (match colon_spec(s, i) {
            (Ok(u), cp) => i < cp < s.len(),
            (Err(e), cp) => i <= cp < s.len(),
        }),
{
    lemma_ws_end(s, i);
    let e = ws_end(s, i);
    if e < s.len() && e + 1 < s.len() && s[e] == 58 {
        lemma_ws_end(s, e + 1);
    }
}

/// Advancing past a comma-or-close never moves backwards, staying in the
/// input.
pub proof fn lemma_comma_close_bounds(s: Seq<u8>, i: int)
    requires
        0 <= i < s.len(),
    ensures
        (match comma_close_spec(s, i) {
            (Ok(u), cp) => i <= cp < s.len(),
            (Err(e), cp) => i <= cp < s.len(),
        }),
{
    lemma_ws_end(s, i);
    let e = ws_end(s, i);
    if e < s.len() && s[e] == 44 && e + 1 < s.len() {
        lemma_ws_end(s, e + 1);
    }
}

/// Advance the reader until there is a non-whitespace character.
pub(crate) fn advance_whitespace(reader: &mut PeekableRead) -> (r: Result<(), JsonError>)
    requires
        old(reader).wf(),
    ensures
        final(reader).wf(),
        final(reader).input() == old(reader).input(),
        final(reader).pos() >= old(reader).pos(),
        ({
            let (sr, sp) = ws_spec(old(reader).input(), old(reader).pos());
            r == sr && final(reader).pos() == sp
        }),
{
    let ghost s = old(reader).input();
    loop
        invariant_except_break
            reader.wf(),
            s == old(reader).input(),
            reader.input() == s,
            old(reader).pos() <= reader.pos(),
            ws_end(s, old(reader).pos()) == ws_end(s, reader.pos()),
        ensures
            reader.wf(),
            s == old(reader).input(),
            reader.input() == s,
            old(reader).pos() <= reader.pos(),
            ws_end(s, old(reader).pos()) == ws_end(s, reader.pos()),
            !is_ws(s[reader.pos()]),
        decreases s.len() - reader.pos(),
    {
        let next = reader.peek();
        if !(next == 0x20 || next == 0x09 || next == 0x0A || next == 0x0D) {
            break;
        }
        match reader.read_byte() {
            Ok(_) => {},
            Err(e) => {
                // Whitespace runs to the end of the input: the refill fails.
                proof {
                    assert(ws_end(s, reader.pos() + 1) == s.len() as int);
                    assert(ws_end(s, reader.pos()) == s.len() as int);
                }
                return Err(JsonError::ReadError(e));
            },
        }
    }
    proof {
        lemma_ws_end(s, reader.pos());
    }
    Ok(())
}

/// Advance past a colon.
pub(crate) fn advance_past_colon(reader: &mut PeekableRead) -> (r: Result<(), JsonError>)
    requires
        old(reader).wf(),
    ensures
        final(reader).wf(),
        final(reader).input() == old(reader).input(),
        final(reader).pos() >= old(reader).pos(),
        r is Ok ==> final(reader).pos() > old(reader).pos(),
        ({
            let (sr, sp) = colon_spec(old(reader).input(), old(reader).pos());
            r == sr && final(reader).pos() == sp
        }),
{
    advance_whitespace(reader)?;
    let b = match reader.read_byte() {
        Ok(b) => b,
        Err(e) => {
            return Err(JsonError::ReadError(e));
        },
    };
    if b != 58 {
        return Err(JsonError::InvalidKeyValueDelimiter);
    }
    advance_whitespace(reader)?;
    Ok(())
}

/// Advance past a comma, or to the close of the structure.
pub(crate) fn advance_past_comma_or_to_close(reader: &mut PeekableRead) -> (r: Result<
    (),
    JsonError,
>)
    requires
        old(reader).wf(),
    ensures
        final(reader).wf(),
        final(reader).input() == old(reader).input(),
        final(reader).pos() >= old(reader).pos(),
        ({
            let (sr, sp) = comma_close_spec(old(reader).input(), old(reader).pos());
            r == sr && final(reader).pos() == sp
        }),
{
    advance_whitespace(reader)?;
    let b = reader.peek();
    if b == 44 {
        match reader.read_byte() {
            Ok(_) => {},
            Err(e) => {
                return Err(JsonError::ReadError(e));
            },
        }
        advance_whitespace(reader)?;
        let b2 = reader.peek();
        if b2 == 93 || b2 == 125 {
            return Err(JsonError::TrailingComma);
        }
        Ok(())
    } else if b == 93 || b == 125 {
        Ok(())
    } else {
        Err(JsonError::InvalidValue)
    }
}

/// The result from a single step of the deserializer, if within an object.
pub(crate) enum SingleStepObjectResult {
    /// A field within the object was advanced to.
    Field,
    /// The object was closed.
    Closed,
}

/// The result from a single step of the deserializer, if within an array.
pub(crate) enum SingleStepArrayResult {
    /// A value within the array was advanced to.
    Value,
    /// The array was closed.
    Closed,
}

/// The result from a single step of the deserializer, if handling an unknown
/// value.
pub(crate) enum SingleStepUnknownResult {
    /// An object was opened.
    ObjectOpened,
    /// An array was opened.
    ArrayOpened,
    /// A string was opened.
    String,
    /// A number was read.
    Number(Number),
    /// A boolean value was advanced past.
    Bool(bool),
    /// Null was advanced past.
    Null,
}

/// The result from a single step of the deserializer.
pub(crate) enum SingleStepResult {
    /// The result if within an object.
    Object(SingleStepObjectResult),
    /// The result if within an array.
    Array(SingleStepArrayResult),
    /// The result if handling an unknown value.
    Unknown(SingleStepUnknownResult),
}

/// What one successful step reported, at the specification level.
pub ghost enum EventSpec {
    /// A field was opened: its key string is open, an unknown value pushed.
    Field,
    /// The object on top was closed.
    ObjClosed,
    /// An array value follows: an unknown value was pushed.
    ArrValue,
    /// The array on top was closed.
    ArrClosed,
    /// An object was opened.
    ObjectOpened,
    /// An array was opened.
    ArrayOpened,
    /// A string was opened.
    StringOpened,
    /// A number was consumed, leaving the given accumulator state.
    Number(SinkModel),
    /// A boolean literal was consumed.
    Bool(bool),
    /// A `null` literal was consumed.
    Null,
}

/// The full outcome of one step: the event or error, the position reached,
/// and the stack contents afterwards.
pub ghost struct StepOut {
    /// The event reported, or the error that interrupted the step.
    pub res: Result<EventSpec, JsonError>,
    /// The position of the reader after the step.
    pub pos: int,
    /// The stack contents after the step.
    pub stack: Seq<State>,
}

/// A scalar was consumed up to `j`: the trailing comma-or-close decides how
/// the step ends.
pub open spec fn scalar_out(s: Seq<u8>, j: int, st: Seq<State>, ev: EventSpec) -> StepOut {
    let (cr, cp) = comma_close_spec(s, j);
    match cr {
        Ok(()) => StepOut { res: Ok(ev), pos: cp, stack: st },
        Err(e) => StepOut { res: Err(e), pos: cp, stack: st },
    }
}

/// The error a four-byte literal read reports when the input is too short.
pub open spec fn read4_short(s: Seq<u8>, i: int) -> SliceError {
    if i + 4 == s.len() {
        SliceError::Short(1usize)
    } else if i + 4 > s.len() {
        SliceError::Short(((i + 4) - s.len()) as usize)
    } else {
        SliceError::Short(1usize)
    }
}

/// One step with an object on top: close it on `}`, or open a field on `"`.
pub open spec fn step_object_spec(s: Seq<u8>, i: int, st: Seq<State>) -> StepOut {
    let b = s[i];
    if b == 125 {
        let st2 = st.drop_last();
        if st2.len() != 0 {
            if i + 1 >= s.len() {
                StepOut {
                    res: Err(JsonError::ReadError(SliceError::Short(1usize))),
                    pos: i,
                    stack: st2,
                }
            } else {
                scalar_out(s, i + 1, st2, EventSpec::ObjClosed)
            }
        } else {
            // The outermost close is left in the reader's buffer: reading it
            // would run past the boundary of the document.
            StepOut { res: Ok(EventSpec::ObjClosed), pos: i, stack: st2 }
        }
    } else if b != 34 {
        StepOut { res: Err(JsonError::InvalidKey), pos: i, stack: st }
    } else if i + 1 >= s.len() {
        StepOut { res: Err(JsonError::ReadError(SliceError::Short(1usize))), pos: i, stack: st }
    } else {
        StepOut { res: Ok(EventSpec::Field), pos: i + 1, stack: st.push(State::Unknown) }
    }
}

/// One step with an array on top: close it on `]`, else announce a value.
pub open spec fn step_array_spec(s: Seq<u8>, i: int, st: Seq<State>) -> StepOut {
    if s[i] == 93 {
        let st2 = st.drop_last();
        if st2.len() != 0 {
            if i + 1 >= s.len() {
                StepOut {
                    res: Err(JsonError::ReadError(SliceError::Short(1usize))),
                    pos: i,
                    stack: st2,
                }
            } else {
                scalar_out(s, i + 1, st2, EventSpec::ArrClosed)
            }
        } else {
            StepOut { res: Ok(EventSpec::ArrClosed), pos: i, stack: st2 }
        }
    } else {
        StepOut { res: Ok(EventSpec::ArrValue), pos: i, stack: st.push(State::Unknown) }
    }
}

/// One step on an unclassified value, the `Unknown` entry already popped:
/// `st2` is the stack without it.
pub open spec fn step_unknown_spec(s: Seq<u8>, i: int, st2: Seq<State>) -> StepOut {
    let b = s[i];
    match classify(b) {
        Type::Object => {
            if i + 1 >= s.len() {
                StepOut {
                    res: Err(JsonError::ReadError(SliceError::Short(1usize))),
                    pos: i,
                    stack: st2,
                }
            } else {
                let (wr, wp) = ws_spec(s, i + 1);
                match wr {
                    Ok(()) => StepOut {
                        res: Ok(EventSpec::ObjectOpened),
                        pos: wp,
                        stack: st2.push(State::Object),
                    },
                    Err(e) => StepOut { res: Err(e), pos: wp, stack: st2 },
                }
            }
        },
        Type::Array => {
            if i + 1 >= s.len() {
                StepOut {
                    res: Err(JsonError::ReadError(SliceError::Short(1usize))),
                    pos: i,
                    stack: st2,
                }
            } else {
                let (wr, wp) = ws_spec(s, i + 1);
                match wr {
                    Ok(()) => StepOut {
                        res: Ok(EventSpec::ArrayOpened),
                        pos: wp,
                        stack: st2.push(State::Array),
                    },
                    Err(e) => StepOut { res: Err(e), pos: wp, stack: st2 },
                }
            }
        },
        Type::String => {
            if i + 1 >= s.len() {
                StepOut {
                    res: Err(JsonError::ReadError(SliceError::Short(1usize))),
                    pos: i,
                    stack: st2,
                }
            } else {
                StepOut { res: Ok(EventSpec::StringOpened), pos: i + 1, stack: st2 }
            }
        },
        Type::Bool => {
            if i + 4 >= s.len() {
                StepOut { res: Err(JsonError::ReadError(read4_short(s, i))), pos: i, stack: st2 }
            } else if s[i] == 116 && s[i + 1] == 114 && s[i + 2] == 117 && s[i + 3] == 101 {
                scalar_out(s, i + 4, st2, EventSpec::Bool(true))
            } else if i + 5 >= s.len() {
                StepOut {
                    res: Err(JsonError::ReadError(SliceError::Short(1usize))),
                    pos: i + 4,
                    stack: st2,
                }
            } else if s[i] == 102 && s[i + 1] == 97 && s[i + 2] == 108 && s[i + 3] == 115 && s[i
                + 4] == 101 {
                scalar_out(s, i + 5, st2, EventSpec::Bool(false))
            } else {
                StepOut { res: Err(JsonError::TypeError), pos: i + 5, stack: st2 }
            }
        },
        Type::Null => {
            if i + 4 >= s.len() {
                StepOut { res: Err(JsonError::ReadError(read4_short(s, i))), pos: i, stack: st2 }
            } else if s[i] == 110 && s[i + 1] == 117 && s[i + 2] == 108 && s[i + 3] == 108 {
                scalar_out(s, i + 4, st2, EventSpec::Null)
            } else {
                StepOut { res: Err(JsonError::InvalidValue), pos: i + 4, stack: st2 }
            }
        },
        Type::Number => {
            let e = num_end(s, i);
            if e == s.len() {
                StepOut {
                    res: Err(JsonError::ReadError(SliceError::Short(1usize))),
                    pos: s.len() - 1,
                    stack: st2,
                }
            } else {
                let m = num_sink_at(s, i, e);
                if strictly_valid_spec(m) {
                    scalar_out(s, e, st2, EventSpec::Number(m))
                } else {
                    StepOut { res: Err(JsonError::InvalidValue), pos: e, stack: st2 }
                }
            }
        },
    }
}

/// One step of the automaton, assuming any push succeeds: from the stack top
/// and the bytes at `i`, the event, position and stack afterwards.
pub open spec fn step_spec(s: Seq<u8>, i: int, st: Seq<State>) -> StepOut {
    if st.len() == 0 {
        StepOut { res: Err(JsonError::InternalError), pos: i, stack: st }
    } else {
        match st.last() {
            State::Object => step_object_spec(s, i, st),
            State::Array => step_array_spec(s, i, st),
            State::Unknown => step_unknown_spec(s, i, st.drop_last()),
        }
    }
}


/// One step stays within the input and, for every event that consumes its
/// opening byte, strictly advances; announcing an array value consumes
/// nothing but pushes the unknown entry that the following step consumes.
pub proof fn lemma_step_spec_bounds(s: Seq<u8>, i: int, st: Seq<State>)
    requires
        0 <= i < s.len(),
    ensures
        ({
            let out = step_spec(s, i, st);
            &&& 0 <= out.pos < s.len()
            &&& out.pos >= i
            &&& (match out.res {
                Ok(ev) => match ev {
                    EventSpec::ArrValue => {
                        &&& out.pos == i
                        &&& st.len() > 0
                        &&& st.last() == State::Array
                        &&& out.stack == st.push(State::Unknown)
                    },
                    EventSpec::ObjClosed => out.pos >= i,
                    EventSpec::ArrClosed => out.pos >= i,
                    _ => out.pos > i,
                },
                Err(e) => true,
            })
        }),
{
    if st.len() == 0 {
        return;
    }
    match st.last() {
        State::Object => {
            if s[i] == 125 {
                if st.drop_last().len() != 0 && i + 1 < s.len() {
                    lemma_comma_close_bounds(s, i + 1);
                }
            }
        },
        State::Array => {
            if s[i] == 93 {
                if st.drop_last().len() != 0 && i + 1 < s.len() {
                    lemma_comma_close_bounds(s, i + 1);
                }
            }
        },
        State::Unknown => {
            let st2 = st.drop_last();
            match classify(s[i]) {
                Type::Object => {
                    if i + 1 < s.len() {
                        lemma_ws_end(s, i + 1);
                    }
                },
                Type::Array => {
                    if i + 1 < s.len() {
                        lemma_ws_end(s, i + 1);
                    }
                },
                Type::String => {},
                Type::Bool => {
                    if i + 4 < s.len() {
                        lemma_comma_close_bounds(s, i + 4);
                        if i + 5 < s.len() {
                            lemma_comma_close_bounds(s, i + 5);
                        }
                    }
                },
                Type::Null => {
                    if i + 4 < s.len() {
                        lemma_comma_close_bounds(s, i + 4);
                    }
                },
                Type::Number => {
                    lemma_num_end_bounds(s, i);
                    let e = num_end(s, i);
                    if e < s.len() {
                        lemma_comma_close_bounds(s, e);
                        // An accepted literal holds at least one byte: the
                        // sink fed only its delimiter has no digits.
                        if e == i {
                            assert(s.subrange(i, i) =~= Seq::<u8>::empty());
                        }
                    }
                },
            }
        },
    }
}

/// Whether an executable step result reports the event the specification
/// names; a number event must carry exactly the specified accumulator state.
pub(crate) open spec fn event_matches(ev: SingleStepResult, sev: EventSpec) -> bool {
    match ev {
        SingleStepResult::Object(SingleStepObjectResult::Field) => sev == EventSpec::Field,
        SingleStepResult::Object(SingleStepObjectResult::Closed) => sev == EventSpec::ObjClosed,
        SingleStepResult::Array(SingleStepArrayResult::Value) => sev == EventSpec::ArrValue,
        SingleStepResult::Array(SingleStepArrayResult::Closed) => sev == EventSpec::ArrClosed,
        SingleStepResult::Unknown(SingleStepUnknownResult::ObjectOpened) => sev
            == EventSpec::ObjectOpened,
        SingleStepResult::Unknown(SingleStepUnknownResult::ArrayOpened) => sev
            == EventSpec::ArrayOpened,
        SingleStepResult::Unknown(SingleStepUnknownResult::String) => sev
            == EventSpec::StringOpened,
        SingleStepResult::Unknown(SingleStepUnknownResult::Number(n)) => (sev matches
            EventSpec::Number(m) && n.model() == m && n.wf()),
        SingleStepResult::Unknown(SingleStepUnknownResult::Bool(b)) => sev == EventSpec::Bool(b),
        SingleStepResult::Unknown(SingleStepUnknownResult::Null) => sev == EventSpec::Null,
    }
}

/// Whether an event's step pushes a stack entry: opening a field or a
/// structure, or announcing an array value.  Steps reporting every other
/// event touch no capacity and can never be refused by the stack.
pub open spec fn pushing_event(ev: EventSpec) -> bool {
    ev is Field || ev is ArrValue || ev is ObjectOpened || ev is ArrayOpened
}

/// The stack left behind when a push was refused: the same entries, less the
/// `Unknown` the step had already popped.
pub open spec fn step_stack_on_push_fail(st: Seq<State>) -> Seq<State> {
    if st.len() > 0 && st.last() == State::Unknown {
        st.drop_last()
    } else {
        st
    }
}

/// Step the deserializer forwards.
///
/// This assumes there is no leading whitespace present in `reader` and will
/// advance past any whitespace present after the consumed unit.  The outcome
/// is exactly [`step_spec`], except that a refused push surfaces as a stack
/// error at the position the step had reached.
pub(crate) fn single_step<S: Stack>(reader: &mut PeekableRead, stack: &mut S) -> (r: Result<
    SingleStepResult,
    JsonError,
>)
    requires
        old(reader).wf(),
    ensures
        final(reader).wf(),
        final(reader).input() == old(reader).input(),
        final(reader).pos() >= old(reader).pos(),
        (match r {
            Ok(ev) => match ev {
                SingleStepResult::Object(SingleStepObjectResult::Field) => final(reader).pos()
                    > old(reader).pos(),
                SingleStepResult::Array(SingleStepArrayResult::Value) => {
                    &&& final(reader).pos() == old(reader).pos()
                    &&& final(stack).states() == old(stack).states().push(State::Unknown)
                    &&& old(stack).states().len() > 0
                    &&& old(stack).states().last() == State::Array
                },
                SingleStepResult::Unknown(u) => final(reader).pos() > old(reader).pos(),
                _ => true,
            },
            Err(e) => true,
        }),
        ({
            let out = step_spec(old(reader).input(), old(reader).pos(), old(stack).states());
            match r {
                Err(JsonError::StackError(se)) => {
                    &&& se == crate::StackError::StackTooDeep
                    &&& out.res is Ok
                    &&& pushing_event(out.res->Ok_0)
                    &&& !S::can_push(step_stack_on_push_fail(old(stack).states()))
                    &&& final(reader).pos() == out.pos
                    &&& final(stack).states() == step_stack_on_push_fail(old(stack).states())
                },
                Err(e) => {
                    &&& out.res == Err::<EventSpec, JsonError>(e)
                    &&& final(reader).pos() == out.pos
                    &&& final(stack).states() == out.stack
                },
                Ok(ev) => {
                    &&& out.res is Ok
                    &&& event_matches(ev, out.res->Ok_0)
                    &&& final(reader).pos() == out.pos
                    &&& final(stack).states() == out.stack
                },
            }
        }),
{
    let top = match stack.peek() {
        Some(top) => top,
        None => {
            return Err(JsonError::InternalError);
        },
    };
    match top {
        State::Object => {
            let next = reader.peek();

            // Check if the object terminates.
            if next == 125 {
                match stack.pop() {
                    Some(_) => {},
                    None => {
                        return Err(JsonError::InternalError);
                    },
                }

                // If this is not the outer object, advance past the comma
                // after; the close itself stays buffered at the outer level,
                // as it was already internally consumed by the lookahead.
                if stack.depth() != 0 {
                    match reader.read_byte() {
                        Ok(_) => {},
                        Err(e) => {
                            return Err(JsonError::ReadError(e));
                        },
                    }
                    advance_past_comma_or_to_close(reader)?;
                }

                return Ok(SingleStepResult::Object(SingleStepObjectResult::Closed));
            }

            // Read the name of this field.
            if next != 34 {
                return Err(JsonError::InvalidKey);
            }
            // Advance past the quote.
            match reader.read_byte() {
                Ok(_) => {},
                Err(e) => {
                    return Err(JsonError::ReadError(e));
                },
            }

            // Push that a value of an unknown type follows, for the value.
            match stack.push(State::Unknown) {
                Ok(()) => {},
                Err(e) => {
                    return Err(JsonError::StackError(e));
                },
            }
            Ok(SingleStepResult::Object(SingleStepObjectResult::Field))
        },
        State::Array => {
            // Check if the array terminates.
            if reader.peek() == 93 {
                match stack.pop() {
                    Some(_) => {},
                    None => {
                        return Err(JsonError::InternalError);
                    },
                }

                if stack.depth() != 0 {
                    match reader.read_byte() {
                        Ok(_) => {},
                        Err(e) => {
                            return Err(JsonError::ReadError(e));
                        },
                    }
                    advance_past_comma_or_to_close(reader)?;
                }

                return Ok(SingleStepResult::Array(SingleStepArrayResult::Closed));
            }

            // Since the array does not terminate, read the next value.
            match stack.push(State::Unknown) {
                Ok(()) => {},
                Err(e) => {
                    return Err(JsonError::StackError(e));
                },
            }
            Ok(SingleStepResult::Array(SingleStepArrayResult::Value))
        },
        State::Unknown => {
            match stack.pop() {
                Some(_) => {},
                None => {
                    return Err(JsonError::InternalError);
                },
            }

            let result = match kind(reader) {
                Type::Object => {
                    match reader.read_byte() {
                        Ok(_) => {},
                        Err(e) => {
                            return Err(JsonError::ReadError(e));
                        },
                    }
                    advance_whitespace(reader)?;
                    match stack.push(State::Object) {
                        Ok(()) => {},
                        Err(e) => {
                            return Err(JsonError::StackError(e));
                        },
                    }
                    return Ok(SingleStepResult::Unknown(SingleStepUnknownResult::ObjectOpened));
                },
                Type::Array => {
                    match reader.read_byte() {
                        Ok(_) => {},
                        Err(e) => {
                            return Err(JsonError::ReadError(e));
                        },
                    }
                    advance_whitespace(reader)?;
                    match stack.push(State::Array) {
                        Ok(()) => {},
                        Err(e) => {
                            return Err(JsonError::StackError(e));
                        },
                    }
                    return Ok(SingleStepResult::Unknown(SingleStepUnknownResult::ArrayOpened));
                },
                Type::String => {
                    match reader.read_byte() {
                        Ok(_) => {},
                        Err(e) => {
                            return Err(JsonError::ReadError(e));
                        },
                    }
                    return Ok(SingleStepResult::Unknown(SingleStepUnknownResult::String));
                },
                Type::Number => {
                    let number = to_number_str(reader)?;
                    proof {
                        // An accepted literal holds at least one byte: a sink
                        // fed only the delimiter has no digits in its part.
                        if reader.pos() == old(reader).pos() {
                            lemma_num_end_bounds(old(reader).input(), old(reader).pos() + 1);
                            assert(old(reader).input().subrange(
                                old(reader).pos(),
                                old(reader).pos(),
                            ) =~= Seq::<u8>::empty());
                            assert(false);
                        }
                    }
                    SingleStepResult::Unknown(SingleStepUnknownResult::Number(number))
                },
                Type::Bool => {
                    let lit = match reader.read_exact_into_non_empty_slice(4) {
                        Ok(lit) => lit,
                        Err(e) => {
                            return Err(JsonError::ReadError(e));
                        },
                    };
                    let is_true = lit[0] == 116 && lit[1] == 114 && lit[2] == 117 && lit[3]
                        == 101;
                    let value = if is_true {
                        true
                    } else {
                        let e5 = match reader.read_byte() {
                            Ok(e5) => e5,
                            Err(e) => {
                                return Err(JsonError::ReadError(e));
                            },
                        };
                        let is_false = lit[0] == 102 && lit[1] == 97 && lit[2] == 108 && lit[3]
                            == 115 && e5 == 101;
                        if !is_false {
                            return Err(JsonError::TypeError);
                        }
                        false
                    };
                    SingleStepResult::Unknown(SingleStepUnknownResult::Bool(value))
                },
                Type::Null => {
                    let lit = match reader.read_exact_into_non_empty_slice(4) {
                        Ok(lit) => lit,
                        Err(e) => {
                            return Err(JsonError::ReadError(e));
                        },
                    };
                    let is_null = lit[0] == 110 && lit[1] == 117 && lit[2] == 108 && lit[3]
                        == 108;
                    if !is_null {
                        return Err(JsonError::InvalidValue);
                    }
                    SingleStepResult::Unknown(SingleStepUnknownResult::Null)
                },
            };

            // Read past the next comma, or to the next closing of a
            // structure.
            advance_past_comma_or_to_close(reader)?;

            Ok(result)
        },
    }
}

/// A string whose skip was queued rather than performed: what is still owed.
#[derive(Debug)]
pub enum ToDrop {
    /// No string skip owed.
    Nothing,
    /// A field key: skip the rest of the string (unless the contained flag
    /// says its quote was already consumed), then advance past the colon.
    StringKey(bool),
    /// A string value: skip the rest of the string (same flag), then advance
    /// past the trailing comma-or-close.
    StringValue(bool),
}

/// The termination measure share of the owed string skip.
pub open spec fn to_drop_weight(t: ToDrop) -> int {
    match t {
        ToDrop::Nothing => 0,
        ToDrop::StringKey(_) => 1,
        ToDrop::StringValue(_) => 1,
    }
}

/// The termination measure share of an array on top of the stack: stepping
/// it announces a value without consuming input, but the step after that
/// consumes.
pub open spec fn arr_top(st: Seq<State>) -> int {
    if st.len() > 0 && st.last() == State::Array {
        1
    } else {
        0
    }
}


/// The saturating increment of the owed-structures counter.
pub open spec fn sat_u64_inc(k: int) -> int {
    if k < u64::MAX {
        k + 1
    } else {
        k
    }
}

/// The realignment point of the owed skip work: from position `i` with stack
/// `st`, performing the owed string skip `td`, the owed unknown-value skip
/// `dv` and the `k` owed structure closes ends at exactly this position and
/// stack — the state full consumption of the disposed cursors would have
/// produced — or at the error that interrupts the work.  Pushes are assumed
/// to succeed, as in [`step_spec`].
pub open spec fn drain_spec(
    s: Seq<u8>,
    i: int,
    st: Seq<State>,
    td: ToDrop,
    dv: bool,
    k: int,
) -> Result<(int, Seq<State>), (JsonError, int, Seq<State>)>
    decreases
            s.len() - i,
            k,
            to_drop_weight(td) + (if dv {
                1int
            } else {
                0int
            }),
            arr_top(st),
    when 0 <= i < s.len() && 0 <= k
    via drain_spec_dec
{
    match td {
        ToDrop::StringKey(closed) => {
            let after = if closed {
                Ok(i)
            } else {
                string_end(s, i)
            };
            match after {
                Err((e, p)) => Err((e, p, st)),
                Ok(j) => {
                    let (cr, cp) = colon_spec(s, j);
                    match cr {
                        Err(e) => Err((e, cp, st)),
                        Ok(u) => drain_spec(s, cp, st, ToDrop::Nothing, dv, k),
                    }
                },
            }
        },
        ToDrop::StringValue(closed) => {
            let after = if closed {
                Ok(i)
            } else {
                string_end(s, i)
            };
            match after {
                Err((e, p)) => Err((e, p, st)),
                Ok(j) => {
                    let (cr, cp) = comma_close_spec(s, j);
                    match cr {
                        Err(e) => Err((e, cp, st)),
                        Ok(u) => drain_spec(s, cp, st, ToDrop::Nothing, dv, k),
                    }
                },
            }
        },
        ToDrop::Nothing => {
            if dv {
                let out = step_spec(s, i, st);
                match out.res {
                    Err(e) => Err((e, out.pos, out.stack)),
                    Ok(ev) => match ev {
                        EventSpec::Number(m) => drain_spec(
                            s,
                            out.pos,
                            out.stack,
                            ToDrop::Nothing,
                            false,
                            k,
                        ),
                        EventSpec::Bool(b) => drain_spec(
                            s,
                            out.pos,
                            out.stack,
                            ToDrop::Nothing,
                            false,
                            k,
                        ),
                        EventSpec::Null => drain_spec(
                            s,
                            out.pos,
                            out.stack,
                            ToDrop::Nothing,
                            false,
                            k,
                        ),
                        EventSpec::StringOpened => (match string_end(s, out.pos) {
                            Err((e, p)) => Err((e, p, out.stack)),
                            Ok(j) => {
                                let (cr, cp) = comma_close_spec(s, j);
                                match cr {
                                    Err(e) => Err((e, cp, out.stack)),
                                    Ok(u) => drain_spec(
                                        s,
                                        cp,
                                        out.stack,
                                        ToDrop::Nothing,
                                        false,
                                        k,
                                    ),
                                }
                            },
                        }),
                        EventSpec::ObjectOpened => drain_spec(
                            s,
                            out.pos,
                            out.stack,
                            ToDrop::Nothing,
                            false,
                            sat_u64_inc(k),
                        ),
                        EventSpec::ArrayOpened => drain_spec(
                            s,
                            out.pos,
                            out.stack,
                            ToDrop::Nothing,
                            false,
                            sat_u64_inc(k),
                        ),
                        // A value cursor stands on an unknown entry: any
                        // other report betrays an engine bug.
                        _ => Err((JsonError::InternalError, out.pos, out.stack)),
                    },
                }
            } else if k > 0 {
                let out = step_spec(s, i, st);
                match out.res {
                    Err(e) => Err((e, out.pos, out.stack)),
                    Ok(ev) => match ev {
                        EventSpec::StringOpened => drain_spec(
                            s,
                            out.pos,
                            out.stack,
                            ToDrop::StringValue(false),
                            false,
                            k,
                        ),
                        EventSpec::Field => drain_spec(
                            s,
                            out.pos,
                            out.stack,
                            ToDrop::StringKey(false),
                            true,
                            k,
                        ),
                        EventSpec::ObjClosed => drain_spec(
                            s,
                            out.pos,
                            out.stack,
                            ToDrop::Nothing,
                            false,
                            k - 1,
                        ),
                        EventSpec::ArrClosed => drain_spec(
                            s,
                            out.pos,
                            out.stack,
                            ToDrop::Nothing,
                            false,
                            k - 1,
                        ),
                        EventSpec::ObjectOpened => drain_spec(
                            s,
                            out.pos,
                            out.stack,
                            ToDrop::Nothing,
                            false,
                            sat_u64_inc(k),
                        ),
                        EventSpec::ArrayOpened => drain_spec(
                            s,
                            out.pos,
                            out.stack,
                            ToDrop::Nothing,
                            false,
                            sat_u64_inc(k),
                        ),
                        _ => drain_spec(s, out.pos, out.stack, ToDrop::Nothing, false, k),
                    },
                }
            } else {
                Ok((i, st))
            }
        },
    }
}

#[via_fn]
proof fn drain_spec_dec(s: Seq<u8>, i: int, st: Seq<State>, td: ToDrop, dv: bool, k: int) {
    match td {
        ToDrop::StringKey(closed) => {
            if !closed {
                crate::strings::lemma_string_end_bounds(s, i);
            }
            let after: Result<int, (JsonError, int)> = if closed {
                Ok(i)
            } else {
                string_end(s, i)
            };
            match after {
                Ok(j) => {
                    lemma_colon_spec_bounds(s, j);
                },
                Err(p) => {},
            }
        },
        ToDrop::StringValue(closed) => {
            if !closed {
                crate::strings::lemma_string_end_bounds(s, i);
            }
            let after: Result<int, (JsonError, int)> = if closed {
                Ok(i)
            } else {
                string_end(s, i)
            };
            match after {
                Ok(j) => {
                    lemma_comma_close_bounds(s, j);
                },
                Err(p) => {},
            }
        },
        ToDrop::Nothing => {
            if dv || k > 0 {
                lemma_step_spec_bounds(s, i, st);
                let out = step_spec(s, i, st);
                match out.res {
                    Ok(ev) => match ev {
                        EventSpec::StringOpened => {
                            if dv {
                                crate::strings::lemma_string_end_bounds(s, out.pos);
                                match string_end(s, out.pos) {
                                    Ok(j) => {
                                        lemma_comma_close_bounds(s, j);
                                    },
                                    Err(p) => {},
                                }
                            }
                        },
                        _ => {},
                    },
                    Err(e) => {},
                }
            }
        },
    }
}


/// Disposing a value that stands on a scalar realigns exactly as consuming
/// it would: the drain of the queued value skip ends at the position and
/// stack the scalar extraction itself reports.
pub proof fn lemma_dispose_scalar_matches_consume(s: Seq<u8>, i: int, st: Seq<State>)
    requires
        0 <= i < s.len(),
        (match step_spec(s, i, st).res {
            Ok(ev) => ev is Number || ev is Bool || ev is Null,
            Err(e) => false,
        }),
    ensures
        drain_spec(s, i, st, ToDrop::Nothing, true, 0) == Ok::<
            (int, Seq<State>),
            (JsonError, int, Seq<State>),
        >((step_spec(s, i, st).pos, step_spec(s, i, st).stack)),
{
    lemma_step_spec_bounds(s, i, st);
    let out = step_spec(s, i, st);
    assert(drain_spec(s, out.pos, out.stack, ToDrop::Nothing, false, 0) == Ok::<
        (int, Seq<State>),
        (JsonError, int, Seq<State>),
    >((out.pos, out.stack)));
}

/// Disposing a value that stands on a string realigns exactly as reading the
/// string to its end would: the drain skips to the closing quote — the same
/// position a full decode reaches — and handles the same trailing comma.
pub proof fn lemma_dispose_string_matches_consume(s: Seq<u8>, i: int, st: Seq<State>)
    requires
        0 <= i < s.len(),
        step_spec(s, i, st).res == Ok::<EventSpec, JsonError>(EventSpec::StringOpened),
        decode_string(s, step_spec(s, i, st).pos) is Done,
    ensures
        ({
            let out = step_spec(s, i, st);
            let dec = decode_string(s, out.pos);
            match dec {
                DecodeSpec::Done { cps, next } => {
                    let (cr, cp) = comma_close_spec(s, next);
                    drain_spec(s, i, st, ToDrop::Nothing, true, 0) == (match cr {
                        Ok(u) => Ok::<(int, Seq<State>), (JsonError, int, Seq<State>)>(
                            (cp, out.stack),
                        ),
                        Err(e) => Err::<(int, Seq<State>), (JsonError, int, Seq<State>)>(
                            (e, cp, out.stack),
                        ),
                    })
                },
                _ => true,
            }
        }),
{
    lemma_step_spec_bounds(s, i, st);
    let out = step_spec(s, i, st);
    crate::strings::lemma_skip_matches_decode(s, out.pos);
    match decode_string(s, out.pos) {
        DecodeSpec::Done { cps, next } => {
            crate::strings::lemma_string_end_bounds(s, out.pos);
            lemma_comma_close_bounds(s, next);
            let (cr, cp) = comma_close_spec(s, next);
            match cr {
                Ok(u) => {
                    assert(drain_spec(s, cp, out.stack, ToDrop::Nothing, false, 0) == Ok::<
                        (int, Seq<State>),
                        (JsonError, int, Seq<State>),
                    >((cp, out.stack)));
                },
                Err(e) => {},
            }
        },
        _ => {},
    }
}

/// A deserializer for a JSON-encoded structure.
///
/// Owns the byte source and the parser stack, together with the pending-skip
/// record: disposing a cursor queues the skip work it owes, and the record is
/// drained at the top of the next operation.  Once any error occurs it is
/// cached and re-returned for every subsequent call.
///
/// Exclusive access is enforced by a lent-cursor token: the deserializer
/// remembers which cursor it is currently lent to, and an operation through
/// any other cursor is refused as a programmer error.
pub struct Deserializer<S: Stack> {
    pub(crate) reader: PeekableRead,
    pub(crate) stack: S,
    /// Whether the queue below holds no work.
    pub(crate) nothing_queued: bool,
    /// An error raised within an internal context and cached to prevent
    /// further usage of the deserializer.
    pub(crate) error: Option<JsonError>,
    /// A string skip owed from a dropped key or string value.
    pub(crate) to_drop: ToDrop,
    /// The count of structures to advance past when control returns.
    pub(crate) structures_to_drop: u64,
    /// Whether a value of unknown type is owed a skip.
    pub(crate) drop_value: bool,
    /// The token of the cursor currently lent out; `0` is the deserializer.
    pub(crate) current: u64,
    /// The next cursor token to hand out.
    pub(crate) next_id: u64,
}

impl<S: Stack> Deserializer<S> {
    /// The entire input being deserialized.
    pub closed spec fn input(&self) -> Seq<u8> {
        self.reader.input()
    }

    /// The current reading position.
    pub closed spec fn pos(&self) -> int {
        self.reader.pos()
    }

    /// The parser stack contents, bottom first.
    pub closed spec fn states(&self) -> Seq<State> {
        self.stack.states()
    }

    /// Whether no skip work is queued.
    pub closed spec fn queue_idle(&self) -> bool {
        self.nothing_queued
    }

    /// The cached error, if any call has failed.
    pub closed spec fn cached_error(&self) -> Option<JsonError> {
        self.error
    }

    /// The token of the cursor currently lent out.
    pub closed spec fn lent(&self) -> u64 {
        self.current
    }

    /// The owed string skip, if one is queued.
    pub closed spec fn owed_string(&self) -> ToDrop {
        self.to_drop
    }

    /// Whether a whole unknown value is owed a skip.
    pub closed spec fn owed_value(&self) -> bool {
        self.drop_value
    }

    /// How many structure closes are owed.
    pub closed spec fn owed_structures(&self) -> int {
        self.structures_to_drop as int
    }

    /// The state the next operation continues from: the current position and
    /// stack when nothing is queued, else the realignment point of the owed
    /// skip work.
    pub open spec fn drained(&self) -> Result<(int, Seq<State>), (JsonError, int, Seq<State>)> {
        if self.queue_idle() {
            Ok((self.pos(), self.states()))
        } else {
            drain_spec(
                self.input(),
                self.pos(),
                self.states(),
                self.owed_string(),
                self.owed_value(),
                self.owed_structures(),
            )
        }
    }

    /// Well-formedness: established by the constructor, preserved throughout.
    /// A cached error always comes with a non-idle queue, so the error check
    /// at the head of the drain re-returns it before any byte is read.
    pub closed spec fn wf(&self) -> bool {
        self.reader.wf() && (self.error is Some ==> !self.nothing_queued)
    }

    /// Ready for a precisely specified operation: no skip work queued and no
    /// error cached.
    pub open spec fn ready(&self) -> bool {
        self.queue_idle() && self.cached_error() is None
    }

    /// Well-formedness keeps the reading position inside the input.
    pub proof fn lemma_wf_bounds(&self)
        requires
            self.wf(),
        ensures
            0 <= self.pos() < self.input().len(),
    {
    }

    /// Queue the drop of a field key string.
    pub(crate) fn drop_string_key(&mut self, closed: bool)
        ensures
            old(self).wf() ==> final(self).wf(),
            final(self).input() == old(self).input(),
            final(self).pos() == old(self).pos(),
            final(self).states() == old(self).states(),
            final(self).cached_error() == old(self).cached_error(),
            final(self).lent() == old(self).lent(),
            !final(self).queue_idle(),
    {
        self.nothing_queued = false;
        self.to_drop = ToDrop::StringKey(closed);
    }

    /// Queue the drop of a string value.
    pub(crate) fn drop_string_value(&mut self, closed: bool)
        ensures
            old(self).wf() ==> final(self).wf(),
            final(self).input() == old(self).input(),
            final(self).pos() == old(self).pos(),
            final(self).states() == old(self).states(),
            final(self).cached_error() == old(self).cached_error(),
            final(self).lent() == old(self).lent(),
            !final(self).queue_idle(),
    {
        self.nothing_queued = false;
        self.to_drop = ToDrop::StringValue(closed);
    }

    /// Queue the drop of an object or array.
    pub(crate) fn drop_structure(&mut self)
        ensures
            old(self).wf() ==> final(self).wf(),
            final(self).input() == old(self).input(),
            final(self).pos() == old(self).pos(),
            final(self).states() == old(self).states(),
            final(self).cached_error() == old(self).cached_error(),
            final(self).lent() == old(self).lent(),
            !final(self).queue_idle(),
    {
        self.nothing_queued = false;
        if self.structures_to_drop != u64::MAX {
            self.structures_to_drop = self.structures_to_drop + 1;
        }
    }

    /// Queue the drop of a value of unknown type.
    pub(crate) fn drop_value(&mut self)
        ensures
            old(self).wf() ==> final(self).wf(),
            final(self).input() == old(self).input(),
            final(self).pos() == old(self).pos(),
            final(self).states() == old(self).states(),
            final(self).cached_error() == old(self).cached_error(),
            final(self).lent() == old(self).lent(),
            !final(self).queue_idle(),
    {
        self.nothing_queued = false;
        self.drop_value = true;
    }

    /// Poison the deserializer such that all future calls return an error.
    pub(crate) fn poison(&mut self, error: JsonError)
        ensures
            old(self).wf() ==> final(self).wf(),
            final(self).input() == old(self).input(),
            final(self).pos() == old(self).pos(),
            final(self).states() == old(self).states(),
            final(self).cached_error() == Some(error),
            final(self).lent() == old(self).lent(),
            !final(self).queue_idle(),
    {
        self.nothing_queued = false;
        self.error = Some(error);
    }

    /// Restore the lent-cursor token to a parent cursor.
    pub(crate) fn restore(&mut self, parent: u64)
        ensures
            final(self).wf() == old(self).wf(),
            final(self).input() == old(self).input(),
            final(self).pos() == old(self).pos(),
            final(self).states() == old(self).states(),
            final(self).cached_error() == old(self).cached_error(),
            final(self).queue_idle() == old(self).queue_idle(),
            final(self).lent() == parent,
    {
        self.current = parent;
    }

    /// Hand out a fresh cursor token and lend the deserializer to it.
    ///
    /// The counter saturates at the top of its range, where the distinctness
    /// of tokens would end; a process cannot reach that many issuances.
    pub(crate) fn issue(&mut self) -> (id: u64)
        ensures
            final(self).wf() == old(self).wf(),
            final(self).input() == old(self).input(),
            final(self).pos() == old(self).pos(),
            final(self).states() == old(self).states(),
            final(self).cached_error() == old(self).cached_error(),
            final(self).queue_idle() == old(self).queue_idle(),
            final(self).lent() == id,
    {
        let id = self.next_id;
        if self.next_id != u64::MAX {
            self.next_id = self.next_id + 1;
        }
        self.current = id;
        id
    }

    /// Perform the owed string skip, if one is queued: the remainder of the
    /// string (unless already closed) and its delimiter.  Reads no stack.
    fn drain_owed_string(&mut self) -> (r: Result<(), JsonError>)
        requires
            old(self).wf(),
        ensures
            final(self).wf(),
            final(self).input() == old(self).input(),
            final(self).pos() >= old(self).pos(),
            final(self).states() == old(self).states(),
            final(self).cached_error() == old(self).cached_error(),
            final(self).lent() == old(self).lent(),
            final(self).queue_idle() == old(self).queue_idle(),
            final(self).owed_string() is Nothing,
            final(self).owed_value() == old(self).owed_value(),
            final(self).owed_structures() == old(self).owed_structures(),
            ({
                let before = drain_spec(
                    old(self).input(),
                    old(self).pos(),
                    old(self).states(),
                    old(self).to_drop,
                    old(self).drop_value,
                    old(self).structures_to_drop as int,
                );
                match r {
                    Ok(()) => before == drain_spec(
                        final(self).input(),
                        final(self).pos(),
                        final(self).states(),
                        ToDrop::Nothing,
                        old(self).drop_value,
                        old(self).structures_to_drop as int,
                    ),
                    Err(e) => before == Err::<(int, Seq<State>), (JsonError, int, Seq<State>)>(
                        (e, final(self).pos(), final(self).states()),
                    ) && !(e is StackError),
                }
            }),
    {
        proof {
            crate::strings::lemma_string_end_fail_kind(self.input(), self.pos());
        }
        let mut first = ToDrop::Nothing;
        core_mem_swap_to_drop(&mut first, &mut self.to_drop);
        match first {
            ToDrop::Nothing => {},
            ToDrop::StringKey(closed) => {
                if !closed {
                    match skip_string(&mut self.reader) {
                        Ok(()) => {},
                        Err(e) => {
                            return Err(e);
                        },
                    }
                }
                match advance_past_colon(&mut self.reader) {
                    Ok(()) => {},
                    Err(e) => {
                        return Err(e);
                    },
                }
            },
            ToDrop::StringValue(closed) => {
                if !closed {
                    match skip_string(&mut self.reader) {
                        Ok(()) => {},
                        Err(e) => {
                            return Err(e);
                        },
                    }
                }
                match advance_past_comma_or_to_close(&mut self.reader) {
                    Ok(()) => {},
                    Err(e) => {
                        return Err(e);
                    },
                }
            },
        }
        Ok(())
    }

    /// Perform all queued skip work.
    ///
    /// With nothing queued this is a no-op; with an error cached it returns
    /// that error and touches nothing else.  Otherwise the owed string skip,
    /// unknown-value skip and structure closes are driven through the step
    /// automaton until the input is realigned for the owning cursor.
    #[verifier::rlimit(100)]
    pub(crate) fn drain_pending(&mut self) -> (r: Result<(), JsonError>)
        requires
            old(self).wf(),
        ensures
            final(self).wf(),
            final(self).input() == old(self).input(),
            final(self).pos() >= old(self).pos(),
            final(self).cached_error() == old(self).cached_error(),
            final(self).lent() == old(self).lent(),
            old(self).queue_idle() ==> (r == Ok::<(), JsonError>(()) && *final(self) == *old(self)),
            !old(self).queue_idle() ==> (match old(self).cached_error() {
                Some(e) => r == Err::<(), JsonError>(e) && *final(self) == *old(self),
                None => true,
            }),
            r is Ok ==> final(self).queue_idle(),
            (!old(self).queue_idle() && old(self).cached_error() is None) ==> (match r {
                Err(JsonError::StackError(se)) => {
                    // Only the step automaton pushes; a pure string skip
                    // cannot be refused by the stack.
                    &&& se == crate::StackError::StackTooDeep
                    &&& (old(self).owed_value() || old(self).owed_structures() > 0)
                },
                _ => (match drain_spec(
                    old(self).input(),
                    old(self).pos(),
                    old(self).states(),
                    old(self).to_drop,
                    old(self).drop_value,
                    old(self).structures_to_drop as int,
                ) {
                    Ok((p, st2)) => {
                        &&& r == Ok::<(), JsonError>(())
                        &&& final(self).pos() == p
                        &&& final(self).states() == st2
                    },
                    Err((e, p, st2)) => {
                        &&& r == Err::<(), JsonError>(e)
                        &&& final(self).pos() == p
                        &&& final(self).states() == st2
                    },
                }),
            }),
    {
        if self.nothing_queued {
            return Ok(());
        }

        match self.error {
            Some(err) => {
                return Err(err);
            },
            None => {},
        }

        // Perform the owed string skip first: it reads no stack, so when
        // nothing else is owed the drain cannot be refused a push.
        match self.drain_owed_string() {
            Ok(()) => {},
            Err(e) => {
                return Err(e);
            },
        }
        if !self.drop_value && self.structures_to_drop == 0 {
            self.nothing_queued = true;
            return Ok(());
        }

        loop
            invariant
                self.reader.wf(),
                self.reader.input() == old(self).input(),
                self.reader.pos() >= old(self).pos(),
                self.error == old(self).error,
                self.current == old(self).current,
                !old(self).queue_idle(),
                old(self).cached_error() is None,
                old(self).drop_value || old(self).structures_to_drop > 0,
                drain_spec(
                    old(self).input(),
                    old(self).pos(),
                    old(self).states(),
                    old(self).to_drop,
                    old(self).drop_value,
                    old(self).structures_to_drop as int,
                ) == drain_spec(
                    self.reader.input(),
                    self.reader.pos(),
                    self.stack.states(),
                    self.to_drop,
                    self.drop_value,
                    self.structures_to_drop as int,
                ),
            decreases
                self.input().len() - self.pos(),
                self.structures_to_drop as int,
                to_drop_weight(self.to_drop) + (if self.drop_value {
                    1int
                } else {
                    0int
                }),
                arr_top(self.stack.states()),
        {
            // First, the owed string skip, if one is queued.
            match self.drain_owed_string() {
                Ok(()) => {},
                Err(e) => {
                    return Err(e);
                },
            }

            // Second, the owed skip of a value of unknown type.
            if self.drop_value {
                self.drop_value = false;

                let step = match single_step(&mut self.reader, &mut self.stack) {
                    Ok(SingleStepResult::Unknown(step)) => step,
                    // Whenever a value cursor exists, the top of the stack is
                    // an unknown entry, so any other report is an engine bug.
                    Ok(_) => {
                        return Err(JsonError::InternalError);
                    },
                    Err(e) => {
                        return Err(e);
                    },
                };

                match step {
                    SingleStepUnknownResult::Number(_) => {},
                    SingleStepUnknownResult::Bool(_) => {},
                    SingleStepUnknownResult::Null => {},
                    // A string was opened: skip it and its trailing comma.
                    SingleStepUnknownResult::String => {
                        match skip_string(&mut self.reader) {
                            Ok(()) => {},
                            Err(e) => {
                                return Err(e);
                            },
                        }
                        match advance_past_comma_or_to_close(&mut self.reader) {
                            Ok(()) => {},
                            Err(e) => {
                                return Err(e);
                            },
                        }
                    },
                    // A structure was opened: it now has to be advanced past.
                    SingleStepUnknownResult::ObjectOpened => {
                        if self.structures_to_drop != u64::MAX {
                            self.structures_to_drop = self.structures_to_drop + 1;
                        }
                    },
                    SingleStepUnknownResult::ArrayOpened => {
                        if self.structures_to_drop != u64::MAX {
                            self.structures_to_drop = self.structures_to_drop + 1;
                        }
                    },
                }
                continue;
            }

            // Third, the owed structure closes, one step at a time.
            if self.structures_to_drop != 0 {
                let ghost pre_states = self.stack.states();
                let step = match single_step(&mut self.reader, &mut self.stack) {
                    Ok(step) => step,
                    Err(e) => {
                        return Err(e);
                    },
                };
                match step {
                    // A string value was opened: queue its skip.
                    SingleStepResult::Unknown(SingleStepUnknownResult::String) => {
                        self.nothing_queued = false;
                        self.to_drop = ToDrop::StringValue(false);
                    },
                    // A field was opened: queue the skips of its key and of
                    // its value.
                    SingleStepResult::Object(SingleStepObjectResult::Field) => {
                        self.nothing_queued = false;
                        self.to_drop = ToDrop::StringKey(false);
                        self.drop_value = true;
                    },
                    SingleStepResult::Object(SingleStepObjectResult::Closed) => {
                        self.structures_to_drop = self.structures_to_drop - 1;
                    },
                    SingleStepResult::Array(SingleStepArrayResult::Closed) => {
                        self.structures_to_drop = self.structures_to_drop - 1;
                    },
                    SingleStepResult::Unknown(SingleStepUnknownResult::ObjectOpened) => {
                        if self.structures_to_drop != u64::MAX {
                            self.structures_to_drop = self.structures_to_drop + 1;
                        }
                    },
                    SingleStepResult::Unknown(SingleStepUnknownResult::ArrayOpened) => {
                        if self.structures_to_drop != u64::MAX {
                            self.structures_to_drop = self.structures_to_drop + 1;
                        }
                    },
                    _ => {},
                }
                continue;
            }

            // All owed work is done.
            self.nothing_queued = true;
            return Ok(());
        }
    }

    /// Drain the pending skip work, then step once; any error is cached.
    pub(crate) fn single_step(&mut self) -> (r: Result<SingleStepResult, JsonError>)
        requires
            old(self).wf(),
        ensures
            final(self).wf(),
            final(self).input() == old(self).input(),
            final(self).pos() >= old(self).pos(),
            final(self).lent() == old(self).lent(),
            (match r {
                Ok(ev) => match ev {
                    SingleStepResult::Object(SingleStepObjectResult::Field) => final(self).pos()
                        > old(self).pos(),
                    SingleStepResult::Unknown(u) => final(self).pos() > old(self).pos() && (
                    match u {
                        SingleStepUnknownResult::Number(n) => n.wf(),
                        _ => true,
                    }),
                    _ => true,
                },
                Err(e) => true,
            }),
            ({
                let dr = old(self).drained();
                old(self).cached_error() is None ==> match r {
                    Err(JsonError::StackError(se)) => {
                        &&& se == crate::StackError::StackTooDeep
                        &&& ({
                            ||| (!old(self).queue_idle() && (old(self).owed_value() || old(self).owed_structures() > 0))
                            ||| (match dr {
                                Ok((p0, st0)) => {
                                    let out = step_spec(old(self).input(), p0, st0);
                                    &&& out.res is Ok
                                    &&& pushing_event(out.res->Ok_0)
                                    &&& !S::can_push(step_stack_on_push_fail(st0))
                                    &&& final(self).pos() == out.pos
                                    &&& final(self).states() == step_stack_on_push_fail(st0)
                                },
                                Err(q0) => false,
                            })
                        })
                    },
                    Err(e) => (match dr {
                        Err((e0, p0, st0)) => {
                            &&& e == e0
                            &&& final(self).pos() == p0
                            &&& final(self).states() == st0
                        },
                        Ok((p0, st0)) => {
                            let out = step_spec(old(self).input(), p0, st0);
                            &&& out.res == Err::<EventSpec, JsonError>(e)
                            &&& final(self).pos() == out.pos
                            &&& final(self).states() == out.stack
                        },
                    }),
                    Ok(ev) => (match dr {
                        Err(q) => false,
                        Ok((p0, st0)) => {
                            let out = step_spec(old(self).input(), p0, st0);
                            &&& out.res is Ok
                            &&& event_matches(ev, out.res->Ok_0)
                            &&& final(self).pos() == out.pos
                            &&& final(self).states() == out.stack
                            &&& final(self).ready()
                        },
                    }),
                }
            }),
            (match old(self).cached_error() {
                Some(e) => r == Err::<SingleStepResult, JsonError>(e) && final(self).pos()
                    == old(self).pos() && final(self).states() == old(self).states(),
                None => true,
            }),
            match r {
                Ok(ev) => true,
                Err(e) => final(self).cached_error() == Some(e) && !final(self).queue_idle(),
            },
    {
        let res = match self.drain_pending() {
            Ok(()) => single_step(&mut self.reader, &mut self.stack),
            Err(e) => Err(e),
        };
        match res {
            Ok(ev) => Ok(ev),
            Err(e) => {
                self.nothing_queued = false;
                self.error = Some(e);
                Err(e)
            },
        }
    }

    /// Create a new deserializer over the given input.
    ///
    /// This advances past any whitespace present at the start, per RFC 8259's
    /// definition of whitespace, and primes the stack with a single
    /// unclassified-value entry for the root.
    pub fn new(bytes: Vec<u8>) -> (r: Result<Self, JsonError>)
        ensures
            ({
                let s = bytes@;
                match r {
                    Ok(d) => {
                        &&& d.wf()
                        &&& d.input() == s
                        &&& d.pos() == ws_end(s, 0)
                        &&& ws_end(s, 0) < s.len()
                        &&& d.states() == seq![State::Unknown]
                        &&& d.ready()
                        &&& d.lent() == 0
                    },
                    Err(e) => {
                        ||| (e == JsonError::ReadError(SliceError::Short(1usize)) && (s.len()
                            == 0 || ws_end(s, 0) == s.len()))
                        ||| (e == JsonError::StackError(crate::StackError::StackTooDeep)
                            && !S::can_push(Seq::<State>::empty()))
                    },
                }
            }),
    {
        let mut reader = match PeekableRead::try_from(bytes) {
            Ok(reader) => reader,
            Err(e) => {
                return Err(JsonError::ReadError(e));
            },
        };
        match advance_whitespace(&mut reader) {
            Ok(()) => {},
            Err(e) => {
                proof {
                    lemma_ws_end(reader.input(), 0);
                }
                return Err(e);
            },
        }

        let mut stack = S::empty();
        match stack.push(State::Unknown) {
            Ok(()) => {},
            Err(e) => {
                return Err(JsonError::StackError(e));
            },
        }
        proof {
            assert(Seq::<State>::empty().push(State::Unknown) =~= seq![State::Unknown]);
        }

        Ok(
            Deserializer {
                reader,
                stack,
                nothing_queued: true,
                error: None,
                to_drop: ToDrop::Nothing,
                structures_to_drop: 0,
                drop_value: false,
                current: 0,
                next_id: 1,
            },
        )
    }
}

/// Swap the owed string skip out of the queue.
fn core_mem_swap_to_drop(a: &mut ToDrop, b: &mut ToDrop)
    ensures
        *final(a) == *old(b),
        *final(b) == *old(a),
{
    core::mem::swap(a, b)
}

// ---------------------------------------------------------------------------
// Cursors over the deserializer: values, fields and iterators.
//
// A cursor is a short-lived handle on "the next unclassified JSON value".
// Exactly one cursor is valid at a time: the deserializer records the token
// of the cursor it is lent to, and hands the lease back to the parent when
// the cursor is consumed or disposed.  An operation through any other cursor
// is refused as a programmer error, never undefined behaviour.
//
// Disposal is explicit: a cursor dropped without being consumed must be
// handed back through its `dispose` operation, which queues the skip work
// needed to realign the input for the parent — the forward-progress
// guarantee.  The queued work is performed at the start of the next
// operation.
// ---------------------------------------------------------------------------


/// How much of a field's key has been taken from the input.
#[derive(Debug)]
pub(crate) enum KeyState {
    /// The key string is still open, nothing of it read.
    Unread,
    /// The key string was fully consumed, its closing quote included.
    Closed,
    /// The key's decoding failed locally; its raw remainder is still open.
    BrokenOpen,
}

/// A JSON value: an ephemeral cursor over the deserializer.
///
/// Whenever a value cursor is valid, the byte source stands at the first
/// byte of an as-yet-unclassified value and the stack top is the unknown
/// entry for it.  The cursor is consumed by classification into a scalar or
/// an iterator, or handed back with [`Value::dispose`].
#[derive(Debug)]
pub struct Value {
    id: u64,
    parent: u64,
}

/// A field within an object: its key string, then its value.
#[derive(Debug)]
pub struct Field {
    id: u64,
    parent: u64,
    key_state: KeyState,
}

/// An iterator over the fields of an open object.
#[derive(Debug)]
pub struct FieldIterator {
    id: u64,
    parent: u64,
    done: bool,
}

/// An iterator over the elements of an open array.
#[derive(Debug)]
pub struct ArrayIterator {
    id: u64,
    parent: u64,
    done: bool,
}

impl Value {
    /// The lease token this cursor operates under.
    pub closed spec fn token(&self) -> u64 {
        self.id
    }

    /// The token the deserializer returns to when this cursor ends.
    pub closed spec fn parent_token(&self) -> u64 {
        self.parent
    }
}

impl Field {
    /// The lease token this cursor operates under.
    pub closed spec fn token(&self) -> u64 {
        self.id
    }

    /// The token the deserializer returns to when this cursor ends.
    pub closed spec fn parent_token(&self) -> u64 {
        self.parent
    }

    /// Whether the key string is still open in the input.
    pub closed spec fn key_open(&self) -> bool {
        !(self.key_state is Closed)
    }

    /// Whether the key has not been read at all yet.
    pub closed spec fn key_unread(&self) -> bool {
        self.key_state is Unread
    }
}

impl FieldIterator {
    /// The lease token this cursor operates under.
    pub closed spec fn token(&self) -> u64 {
        self.id
    }

    /// The token the deserializer returns to when this cursor ends.
    pub closed spec fn parent_token(&self) -> u64 {
        self.parent
    }

    /// Whether the object was closed.
    pub closed spec fn is_done(&self) -> bool {
        self.done
    }
}

impl ArrayIterator {
    /// The lease token this cursor operates under.
    pub closed spec fn token(&self) -> u64 {
        self.id
    }

    /// The token the deserializer returns to when this cursor ends.
    pub closed spec fn parent_token(&self) -> u64 {
        self.parent
    }

    /// Whether the array was closed.
    pub closed spec fn is_done(&self) -> bool {
        self.done
    }
}

impl<S: Stack> Deserializer<S> {
    /// Obtain the `Value` representing the serialized structure.
    ///
    /// This is not eligible to be called more than once: a deserializer
    /// whose root value was consumed, or even lent out and disposed,
    /// refuses further calls.  A bare scalar at the root is rejected, per
    /// the requirement that a document be an object or an array.
    pub fn value(&mut self) -> (r: Result<Value, JsonError>)
        requires
            old(self).wf(),
        ensures
            final(self).wf(),
            final(self).input() == old(self).input(),
            final(self).pos() == old(self).pos(),
            final(self).states() == old(self).states(),
            final(self).queue_idle() == old(self).queue_idle(),
            final(self).cached_error() == old(self).cached_error(),
            (old(self).states().len() != 1 || !old(self).queue_idle()) ==> (r == Err::<
                Value,
                JsonError,
            >(JsonError::ReusedDeserializer) && final(self).lent() == old(self).lent()),
            (old(self).states().len() == 1 && old(self).queue_idle() && !(classify(
                old(self).input()[old(self).pos()],
            ) is Object || classify(old(self).input()[old(self).pos()]) is Array)) ==> (r
                == Err::<Value, JsonError>(JsonError::TypeError) && final(self).lent() == old(self).lent()),
            match r {
                Ok(v) => {
                    &&& old(self).states().len() == 1
                    &&& old(self).queue_idle()
                    &&& (classify(old(self).input()[old(self).pos()]) is Object || classify(
                        old(self).input()[old(self).pos()],
                    ) is Array)
                    &&& v.token() == final(self).lent()
                    &&& v.parent_token() == 0
                },
                Err(e) => {
                    &&& final(self).lent() == old(self).lent()
                    &&& (e == JsonError::ReusedDeserializer || e == JsonError::TypeError)
                    &&& !(old(self).states().len() == 1 && old(self).queue_idle() && (classify(
                        old(self).input()[old(self).pos()],
                    ) is Object || classify(old(self).input()[old(self).pos()]) is Array))
                },
            },
    {
        if self.stack.depth() != 1 || !self.nothing_queued {
            return Err(JsonError::ReusedDeserializer);
        }
        let t = kind(&self.reader);
        let root_ok = match t {
            Type::Object => true,
            Type::Array => true,
            _ => false,
        };
        if !root_ok {
            return Err(JsonError::TypeError);
        }
        let id = self.issue();
        Ok(Value { id, parent: 0 })
    }
}

impl Value {
    /// Get the type of the current item.
    ///
    /// This does not assert the item is a valid instance of this class of
    /// items; it solely asserts that if this is a valid item, it will be of
    /// this type.  Pending skip work is performed first, so the byte looked
    /// at is truly this value's first.
    pub fn kind<S: Stack>(&self, d: &mut Deserializer<S>) -> (r: Result<Type, JsonError>)
        requires
            old(d).wf(),
        ensures
            final(d).wf(),
            final(d).input() == old(d).input(),
            final(d).pos() >= old(d).pos(),
            final(d).lent() == old(d).lent(),
            old(d).lent() != self.token() ==> (r == Err::<Type, JsonError>(
                JsonError::InternalError,
            ) && *final(d) == *old(d)),
            (old(d).lent() == self.token() && old(d).ready()) ==> (r == Ok::<Type, JsonError>(
                classify(old(d).input()[old(d).pos()]),
            ) && *final(d) == *old(d)),
            (old(d).lent() == self.token() && old(d).cached_error() is None) ==> (match r {
                Err(JsonError::StackError(se)) => {
                    &&& se == crate::StackError::StackTooDeep
                    &&& !old(d).queue_idle()
                    &&& (old(d).owed_value() || old(d).owed_structures() > 0)
                },
                _ => (match old(d).drained() {
                    Ok((p0, st0)) => {
                        &&& r == Ok::<Type, JsonError>(classify(old(d).input()[p0]))
                        &&& final(d).pos() == p0
                        &&& final(d).states() == st0
                        &&& final(d).ready()
                    },
                    Err((e0, p0, st0)) => (match r {
                        Err(e1) => {
                            &&& e1 == e0
                            &&& final(d).pos() == p0
                            &&& final(d).states() == st0
                            &&& final(d).cached_error() == Some(e0)
                        },
                        Ok(t0) => false,
                    }),
                }),
            }),
            (old(d).lent() == self.token() && r is Err) ==> final(d).cached_error() == Some(
                r->Err_0,
            ) || r == Err::<Type, JsonError>(JsonError::InternalError),
    {
        if d.current != self.id {
            return Err(JsonError::InternalError);
        }
        match d.drain_pending() {
            Ok(()) => {},
            Err(e) => {
                d.poison(e);
                return Err(e);
            },
        }
        Ok(kind(&d.reader))
    }

    /// Dispose of this value without consuming it.
    ///
    /// The skip of the value's entire serialization is queued, so the
    /// parent's next operation sees correctly aligned input — the
    /// forward-progress guarantee.  Disposing a stale cursor does nothing.
    pub fn dispose<S: Stack>(self, d: &mut Deserializer<S>)
        requires
            old(d).wf(),
        ensures
            final(d).wf(),
            final(d).input() == old(d).input(),
            final(d).pos() == old(d).pos(),
            final(d).states() == old(d).states(),
            final(d).cached_error() == old(d).cached_error(),
            old(d).lent() == self.token() ==> (final(d).lent() == self.parent_token() && !(
            final(d).queue_idle())),
            old(d).lent() != self.token() ==> (*final(d) == *old(d)),
    {
        if d.current == self.id {
            d.drop_value();
            d.restore(self.parent);
        }
    }

    /// Get the current item as a `bool`.
    pub fn to_bool<S: Stack>(self, d: &mut Deserializer<S>) -> (r: Result<bool, JsonError>)
        requires
            old(d).wf(),
        ensures
            final(d).wf(),
            final(d).input() == old(d).input(),
            final(d).pos() >= old(d).pos(),
            r is Ok ==> final(d).pos() > old(d).pos(),
            old(d).lent() != self.token() ==> (r == Err::<bool, JsonError>(
                JsonError::InternalError,
            ) && *final(d) == *old(d)),
            old(d).lent() == self.token() ==> final(d).lent() == self.parent_token(),
            old(d).lent() == self.token() ==> (match old(d).cached_error() {
                Some(e) => r == Err::<bool, JsonError>(e) && final(d).pos() == old(d).pos()
                    && final(d).states() == old(d).states(),
                None => true,
            }),
            (old(d).lent() == self.token() && old(d).cached_error() is None) ==> ({
                let dr = old(d).drained();
                match r {
                    Err(JsonError::StackError(se)) => {
                        &&& se == crate::StackError::StackTooDeep
                        &&& ({
                            ||| (!old(d).queue_idle() && (old(d).owed_value() || old(d).owed_structures() > 0))
                            ||| (match dr {
                                Ok((p0, st0)) => {
                                    let out = step_spec(old(d).input(), p0, st0);
                                    &&& out.res is Ok
                                    &&& pushing_event(out.res->Ok_0)
                                    &&& !S::can_push(step_stack_on_push_fail(st0))
                                    &&& final(d).pos() == out.pos
                                    &&& final(d).states() == step_stack_on_push_fail(st0)
                                },
                                Err(q0) => false,
                            })
                        })
                    },
                    _ => (match dr {
                        Err((e0, p0, st0)) => (match r {
                            Err(e1) => {
                                &&& e1 == e0
                                &&& final(d).pos() == p0
                                &&& final(d).states() == st0
                                &&& final(d).cached_error() == Some(e0)
                            },
                            Ok(v0) => false,
                        }),
                        Ok((p0, st0)) => {
                            let out = step_spec(old(d).input(), p0, st0);
                            match out.res {
                        Ok(ev) => (match ev {
                            EventSpec::Bool(b) => {
                                &&& r == Ok::<bool, JsonError>(b)
                                &&& final(d).pos() == out.pos
                                &&& final(d).states() == out.stack
                                &&& final(d).ready()
                            },
                            EventSpec::ObjectOpened => r == Err::<bool, JsonError>(
                                JsonError::TypeError,
                            ),
                            EventSpec::ArrayOpened => r == Err::<bool, JsonError>(
                                JsonError::TypeError,
                            ),
                            EventSpec::StringOpened => r == Err::<bool, JsonError>(
                                JsonError::TypeError,
                            ),
                            EventSpec::Number(m) => r == Err::<bool, JsonError>(
                                JsonError::TypeError,
                            ),
                            EventSpec::Null => r == Err::<bool, JsonError>(JsonError::TypeError),
                            _ => r == Err::<bool, JsonError>(JsonError::InternalError),
                        }),
                        Err(e) => r == Err::<bool, JsonError>(e) && final(d).cached_error()
                            == Some(e),
                            }
                        },
                    }),
                }
            }),
    {
        if d.current != self.id {
            return Err(JsonError::InternalError);
        }
        let res = d.single_step();
        d.restore(self.parent);
        match res {
            Ok(SingleStepResult::Unknown(SingleStepUnknownResult::Bool(b))) => Ok(b),
            Ok(SingleStepResult::Unknown(_)) => Err(JsonError::TypeError),
            Ok(_) => Err(JsonError::InternalError),
            Err(e) => Err(e),
        }
    }

    /// Get the current item as `null`.
    ///
    /// The point of this method is to assert the value is `null` and valid;
    /// [`Value::kind`] only tells the caller that if it is a valid value, it
    /// will be `null`.
    pub fn to_null<S: Stack>(self, d: &mut Deserializer<S>) -> (r: Result<(), JsonError>)
        requires
            old(d).wf(),
        ensures
            final(d).wf(),
            final(d).input() == old(d).input(),
            final(d).pos() >= old(d).pos(),
            r is Ok ==> final(d).pos() > old(d).pos(),
            old(d).lent() != self.token() ==> (r == Err::<(), JsonError>(
                JsonError::InternalError,
            ) && *final(d) == *old(d)),
            old(d).lent() == self.token() ==> final(d).lent() == self.parent_token(),
            old(d).lent() == self.token() ==> (match old(d).cached_error() {
                Some(e) => r == Err::<(), JsonError>(e) && final(d).pos() == old(d).pos()
                    && final(d).states() == old(d).states(),
                None => true,
            }),
            (old(d).lent() == self.token() && old(d).cached_error() is None) ==> ({
                let dr = old(d).drained();
                match r {
                    Err(JsonError::StackError(se)) => {
                        &&& se == crate::StackError::StackTooDeep
                        &&& ({
                            ||| (!old(d).queue_idle() && (old(d).owed_value() || old(d).owed_structures() > 0))
                            ||| (match dr {
                                Ok((p0, st0)) => {
                                    let out = step_spec(old(d).input(), p0, st0);
                                    &&& out.res is Ok
                                    &&& pushing_event(out.res->Ok_0)
                                    &&& !S::can_push(step_stack_on_push_fail(st0))
                                    &&& final(d).pos() == out.pos
                                    &&& final(d).states() == step_stack_on_push_fail(st0)
                                },
                                Err(q0) => false,
                            })
                        })
                    },
                    _ => (match dr {
                        Err((e0, p0, st0)) => (match r {
                            Err(e1) => {
                                &&& e1 == e0
                                &&& final(d).pos() == p0
                                &&& final(d).states() == st0
                                &&& final(d).cached_error() == Some(e0)
                            },
                            Ok(v0) => false,
                        }),
                        Ok((p0, st0)) => {
                            let out = step_spec(old(d).input(), p0, st0);
                            match out.res {
                        Ok(ev) => (match ev {
                            EventSpec::Null => {
                                &&& r == Ok::<(), JsonError>(())
                                &&& final(d).pos() == out.pos
                                &&& final(d).states() == out.stack
                                &&& final(d).ready()
                            },
                            EventSpec::ObjectOpened => r == Err::<(), JsonError>(
                                JsonError::TypeError,
                            ),
                            EventSpec::ArrayOpened => r == Err::<(), JsonError>(
                                JsonError::TypeError,
                            ),
                            EventSpec::StringOpened => r == Err::<(), JsonError>(
                                JsonError::TypeError,
                            ),
                            EventSpec::Number(m) => r == Err::<(), JsonError>(
                                JsonError::TypeError,
                            ),
                            EventSpec::Bool(b) => r == Err::<(), JsonError>(
                                JsonError::TypeError,
                            ),
                            _ => r == Err::<(), JsonError>(JsonError::InternalError),
                        }),
                        Err(e) => r == Err::<(), JsonError>(e) && final(d).cached_error()
                            == Some(e),
                            }
                        },
                    }),
                }
            }),
    {
        if d.current != self.id {
            return Err(JsonError::InternalError);
        }
        let res = d.single_step();
        d.restore(self.parent);
        match res {
            Ok(SingleStepResult::Unknown(SingleStepUnknownResult::Null)) => Ok(()),
            Ok(SingleStepResult::Unknown(_)) => Err(JsonError::TypeError),
            Ok(_) => Err(JsonError::InternalError),
            Err(e) => Err(e),
        }
    }

    /// Get the current item as a number.
    ///
    /// On success the returned [`Number`] holds exactly the accumulator
    /// state the literal's bytes produce.
    pub fn to_number<S: Stack>(self, d: &mut Deserializer<S>) -> (r: Result<Number, JsonError>)
        requires
            old(d).wf(),
        ensures
            final(d).wf(),
            final(d).input() == old(d).input(),
            final(d).pos() >= old(d).pos(),
            r is Ok ==> final(d).pos() > old(d).pos(),
            (match r {
                Ok(num) => num.wf(),
                Err(e) => true,
            }),
            old(d).lent() != self.token() ==> (r == Err::<Number, JsonError>(
                JsonError::InternalError,
            ) && *final(d) == *old(d)),
            old(d).lent() == self.token() ==> final(d).lent() == self.parent_token(),
            old(d).lent() == self.token() ==> (match old(d).cached_error() {
                Some(e) => r == Err::<Number, JsonError>(e) && final(d).pos() == old(d).pos()
                    && final(d).states() == old(d).states(),
                None => true,
            }),
            (old(d).lent() == self.token() && old(d).cached_error() is None) ==> ({
                let dr = old(d).drained();
                match r {
                    Err(JsonError::StackError(se)) => {
                        &&& se == crate::StackError::StackTooDeep
                        &&& ({
                            ||| (!old(d).queue_idle() && (old(d).owed_value() || old(d).owed_structures() > 0))
                            ||| (match dr {
                                Ok((p0, st0)) => {
                                    let out = step_spec(old(d).input(), p0, st0);
                                    &&& out.res is Ok
                                    &&& pushing_event(out.res->Ok_0)
                                    &&& !S::can_push(step_stack_on_push_fail(st0))
                                    &&& final(d).pos() == out.pos
                                    &&& final(d).states() == step_stack_on_push_fail(st0)
                                },
                                Err(q0) => false,
                            })
                        })
                    },
                    _ => (match dr {
                        Err((e0, p0, st0)) => (match r {
                            Err(e1) => {
                                &&& e1 == e0
                                &&& final(d).pos() == p0
                                &&& final(d).states() == st0
                                &&& final(d).cached_error() == Some(e0)
                            },
                            Ok(v0) => false,
                        }),
                        Ok((p0, st0)) => {
                            let out = step_spec(old(d).input(), p0, st0);
                            match out.res {
                        Ok(ev) => (match ev {
                            EventSpec::Number(m) => (match r {
                                Ok(num) => {
                                    &&& num.model() == m
                                    &&& num.wf()
                                    &&& final(d).pos() == out.pos
                                    &&& final(d).states() == out.stack
                                    &&& final(d).ready()
                                },
                                Err(_) => false,
                            }),
                            EventSpec::ObjectOpened => r == Err::<Number, JsonError>(
                                JsonError::TypeError,
                            ),
                            EventSpec::ArrayOpened => r == Err::<Number, JsonError>(
                                JsonError::TypeError,
                            ),
                            EventSpec::StringOpened => r == Err::<Number, JsonError>(
                                JsonError::TypeError,
                            ),
                            EventSpec::Bool(b) => r == Err::<Number, JsonError>(
                                JsonError::TypeError,
                            ),
                            EventSpec::Null => r == Err::<Number, JsonError>(
                                JsonError::TypeError,
                            ),
                            _ => r == Err::<Number, JsonError>(JsonError::InternalError),
                        }),
                        Err(e) => r == Err::<Number, JsonError>(e) && final(d).cached_error()
                            == Some(e),
                            }
                        },
                    }),
                }
            }),
    {
        if d.current != self.id {
            return Err(JsonError::InternalError);
        }
        let res = d.single_step();
        d.restore(self.parent);
        match res {
            Ok(SingleStepResult::Unknown(SingleStepUnknownResult::Number(n))) => Ok(n),
            Ok(SingleStepResult::Unknown(_)) => Err(JsonError::TypeError),
            Ok(_) => Err(JsonError::InternalError),
            Err(e) => Err(e),
        }
    }

    /// Iterate over the fields within this object.
    ///
    /// If a field is present multiple times, this will yield each instance.
    pub fn fields<S: Stack>(self, d: &mut Deserializer<S>) -> (r: Result<
        FieldIterator,
        JsonError,
    >)
        requires
            old(d).wf(),
        ensures
            final(d).wf(),
            final(d).input() == old(d).input(),
            final(d).pos() >= old(d).pos(),
            r is Ok ==> final(d).pos() > old(d).pos(),
            old(d).lent() != self.token() ==> (r == Err::<FieldIterator, JsonError>(
                JsonError::InternalError,
            ) && *final(d) == *old(d)),
            match r {
                Ok(it) => {
                    &&& old(d).lent() == self.token()
                    &&& it.token() == final(d).lent()
                    &&& it.parent_token() == self.parent_token()
                    &&& !it.is_done()
                },
                Err(e) => old(d).lent() == self.token() ==> final(d).lent()
                    == self.parent_token(),
            },
            (old(d).lent() == self.token() && old(d).cached_error() is None) ==> ({
                let dr = old(d).drained();
                match r {
                    Err(JsonError::StackError(se)) => {
                        &&& se == crate::StackError::StackTooDeep
                        &&& ({
                            ||| (!old(d).queue_idle() && (old(d).owed_value() || old(d).owed_structures() > 0))
                            ||| (match dr {
                                Ok((p0, st0)) => {
                                    let out = step_spec(old(d).input(), p0, st0);
                                    &&& out.res is Ok
                                    &&& pushing_event(out.res->Ok_0)
                                    &&& !S::can_push(step_stack_on_push_fail(st0))
                                    &&& final(d).pos() == out.pos
                                    &&& final(d).states() == step_stack_on_push_fail(st0)
                                },
                                Err(q0) => false,
                            })
                        })
                    },
                    _ => (match dr {
                        Err((e0, p0, st0)) => (match r {
                            Err(e1) => {
                                &&& e1 == e0
                                &&& final(d).pos() == p0
                                &&& final(d).states() == st0
                                &&& final(d).cached_error() == Some(e0)
                            },
                            Ok(v0) => false,
                        }),
                        Ok((p0, st0)) => {
                            let out = step_spec(old(d).input(), p0, st0);
                            match out.res {
                        Ok(ev) => (match ev {
                            EventSpec::ObjectOpened => (match r {
                                Ok(it2) => {
                                    &&& final(d).pos() == out.pos
                                    &&& final(d).states() == out.stack
                                    &&& final(d).ready()
                                },
                                Err(e3) => false,
                            }),
                            EventSpec::ArrayOpened => r == Err::<FieldIterator, JsonError>(
                                JsonError::TypeError,
                            ),
                            EventSpec::StringOpened => r == Err::<FieldIterator, JsonError>(
                                JsonError::TypeError,
                            ),
                            EventSpec::Number(m) => r == Err::<FieldIterator, JsonError>(
                                JsonError::TypeError,
                            ),
                            EventSpec::Bool(b) => r == Err::<FieldIterator, JsonError>(
                                JsonError::TypeError,
                            ),
                            EventSpec::Null => r == Err::<FieldIterator, JsonError>(
                                JsonError::TypeError,
                            ),
                            _ => r == Err::<FieldIterator, JsonError>(JsonError::InternalError),
                        }),
                        Err(e) => r == Err::<FieldIterator, JsonError>(e) && final(d).cached_error()
                            == Some(e),
                            }
                        },
                    }),
                }
            }),
    {
        if d.current != self.id {
            return Err(JsonError::InternalError);
        }
        let res = d.single_step();
        match res {
            Ok(SingleStepResult::Unknown(SingleStepUnknownResult::ObjectOpened)) => {
                let id = d.issue();
                Ok(FieldIterator { id, parent: self.parent, done: false })
            },
            Ok(SingleStepResult::Unknown(_)) => {
                d.restore(self.parent);
                Err(JsonError::TypeError)
            },
            Ok(_) => {
                d.restore(self.parent);
                Err(JsonError::InternalError)
            },
            Err(e) => {
                d.restore(self.parent);
                Err(e)
            },
        }
    }

    /// Iterate over all items within this container.
    pub fn iterate<S: Stack>(self, d: &mut Deserializer<S>) -> (r: Result<
        ArrayIterator,
        JsonError,
    >)
        requires
            old(d).wf(),
        ensures
            final(d).wf(),
            final(d).input() == old(d).input(),
            final(d).pos() >= old(d).pos(),
            r is Ok ==> final(d).pos() > old(d).pos(),
            old(d).lent() != self.token() ==> (r == Err::<ArrayIterator, JsonError>(
                JsonError::InternalError,
            ) && *final(d) == *old(d)),
            match r {
                Ok(it) => {
                    &&& old(d).lent() == self.token()
                    &&& it.token() == final(d).lent()
                    &&& it.parent_token() == self.parent_token()
                    &&& !it.is_done()
                },
                Err(e) => old(d).lent() == self.token() ==> final(d).lent()
                    == self.parent_token(),
            },
            (old(d).lent() == self.token() && old(d).cached_error() is None) ==> ({
                let dr = old(d).drained();
                match r {
                    Err(JsonError::StackError(se)) => {
                        &&& se == crate::StackError::StackTooDeep
                        &&& ({
                            ||| (!old(d).queue_idle() && (old(d).owed_value() || old(d).owed_structures() > 0))
                            ||| (match dr {
                                Ok((p0, st0)) => {
                                    let out = step_spec(old(d).input(), p0, st0);
                                    &&& out.res is Ok
                                    &&& pushing_event(out.res->Ok_0)
                                    &&& !S::can_push(step_stack_on_push_fail(st0))
                                    &&& final(d).pos() == out.pos
                                    &&& final(d).states() == step_stack_on_push_fail(st0)
                                },
                                Err(q0) => false,
                            })
                        })
                    },
                    _ => (match dr {
                        Err((e0, p0, st0)) => (match r {
                            Err(e1) => {
                                &&& e1 == e0
                                &&& final(d).pos() == p0
                                &&& final(d).states() == st0
                                &&& final(d).cached_error() == Some(e0)
                            },
                            Ok(v0) => false,
                        }),
                        Ok((p0, st0)) => {
                            let out = step_spec(old(d).input(), p0, st0);
                            match out.res {
                        Ok(ev) => (match ev {
                            EventSpec::ArrayOpened => (match r {
                                Ok(it2) => {
                                    &&& final(d).pos() == out.pos
                                    &&& final(d).states() == out.stack
                                    &&& final(d).ready()
                                },
                                Err(e3) => false,
                            }),
                            EventSpec::ObjectOpened => r == Err::<ArrayIterator, JsonError>(
                                JsonError::TypeError,
                            ),
                            EventSpec::StringOpened => r == Err::<ArrayIterator, JsonError>(
                                JsonError::TypeError,
                            ),
                            EventSpec::Number(m) => r == Err::<ArrayIterator, JsonError>(
                                JsonError::TypeError,
                            ),
                            EventSpec::Bool(b) => r == Err::<ArrayIterator, JsonError>(
                                JsonError::TypeError,
                            ),
                            EventSpec::Null => r == Err::<ArrayIterator, JsonError>(
                                JsonError::TypeError,
                            ),
                            _ => r == Err::<ArrayIterator, JsonError>(JsonError::InternalError),
                        }),
                        Err(e) => r == Err::<ArrayIterator, JsonError>(e) && final(d).cached_error()
                            == Some(e),
                            }
                        },
                    }),
                }
            }),
    {
        if d.current != self.id {
            return Err(JsonError::InternalError);
        }
        let res = d.single_step();
        match res {
            Ok(SingleStepResult::Unknown(SingleStepUnknownResult::ArrayOpened)) => {
                let id = d.issue();
                Ok(ArrayIterator { id, parent: self.parent, done: false })
            },
            Ok(SingleStepResult::Unknown(_)) => {
                d.restore(self.parent);
                Err(JsonError::TypeError)
            },
            Ok(_) => {
                d.restore(self.parent);
                Err(JsonError::InternalError)
            },
            Err(e) => {
                d.restore(self.parent);
                Err(e)
            },
        }
    }

    /// Get the current item as a string, escapes decoded.
    ///
    /// A string whose escapes name no Unicode scalar value — an unpaired
    /// surrogate — fails with a not-UTF-8 error that is local to this
    /// string: the raw remainder is queued for skipping, and the rest of the
    /// document can still be parsed.
    pub fn to_str<S: Stack>(self, d: &mut Deserializer<S>) -> (r: Result<String, JsonError>)
        requires
            old(d).wf(),
        ensures
            final(d).wf(),
            final(d).input() == old(d).input(),
            final(d).pos() >= old(d).pos(),
            r is Ok ==> final(d).pos() > old(d).pos(),
            old(d).lent() != self.token() ==> (r == Err::<String, JsonError>(
                JsonError::InternalError,
            ) && *final(d) == *old(d)),
            old(d).lent() == self.token() ==> final(d).lent() == self.parent_token(),
            old(d).lent() == self.token() ==> (match old(d).cached_error() {
                Some(e) => r == Err::<String, JsonError>(e) && final(d).pos() == old(d).pos()
                    && final(d).states() == old(d).states(),
                None => true,
            }),
            (old(d).lent() == self.token() && old(d).cached_error() is None) ==> ({
                let s = old(d).input();
                let dr = old(d).drained();
                match r {
                    Err(JsonError::StackError(se)) => {
                        &&& se == crate::StackError::StackTooDeep
                        &&& ({
                            ||| (!old(d).queue_idle() && (old(d).owed_value() || old(d).owed_structures() > 0))
                            ||| (match dr {
                                Ok((p0, st0)) => {
                                    let out = step_spec(s, p0, st0);
                                    &&& out.res is Ok
                                    &&& pushing_event(out.res->Ok_0)
                                    &&& !S::can_push(step_stack_on_push_fail(st0))
                                    &&& final(d).pos() == out.pos
                                    &&& final(d).states() == step_stack_on_push_fail(st0)
                                },
                                Err(q0) => false,
                            })
                        })
                    },
                    _ => (match dr {
                        Err((e0, p0, st0)) => (match r {
                            Err(e1) => {
                                &&& e1 == e0
                                &&& final(d).pos() == p0
                                &&& final(d).states() == st0
                                &&& final(d).cached_error() == Some(e0)
                            },
                            Ok(v0) => false,
                        }),
                        Ok((p0, st0)) => {
                            let out = step_spec(s, p0, st0);
                            match out.res {
                        Ok(ev) => (match ev {
                            EventSpec::StringOpened => (match decode_string(s, out.pos) {
                                DecodeSpec::Done { cps, next } => {
                                    let (cr, cp2) = comma_close_spec(s, next);
                                    match cr {
                                        Ok(()) => (match r {
                                            Ok(st) => {
                                                &&& st@.map_values(|c: char| c as int) == cps
                                                &&& final(d).pos() == cp2
                                                &&& final(d).states() == out.stack
                                                &&& final(d).ready()
                                            },
                                            Err(_) => false,
                                        }),
                                        Err(e2) => r == Err::<String, JsonError>(e2) && final(d).cached_error() == Some(e2),
                                    }
                                },
                                DecodeSpec::Broken { next, closed } => {
                                    &&& r == Err::<String, JsonError>(JsonError::NotUtf8)
                                    &&& final(d).pos() == next
                                    &&& !final(d).queue_idle()
                                    &&& final(d).cached_error() is None
                                },
                                DecodeSpec::Fail { err, next } => r == Err::<String, JsonError>(
                                    err,
                                ) && final(d).cached_error() == Some(err),
                            }),
                            EventSpec::ObjectOpened => r == Err::<String, JsonError>(
                                JsonError::TypeError,
                            ),
                            EventSpec::ArrayOpened => r == Err::<String, JsonError>(
                                JsonError::TypeError,
                            ),
                            EventSpec::Number(m) => r == Err::<String, JsonError>(
                                JsonError::TypeError,
                            ),
                            EventSpec::Bool(b) => r == Err::<String, JsonError>(
                                JsonError::TypeError,
                            ),
                            EventSpec::Null => r == Err::<String, JsonError>(
                                JsonError::TypeError,
                            ),
                            _ => r == Err::<String, JsonError>(JsonError::InternalError),
                        }),
                        Err(e) => r == Err::<String, JsonError>(e) && final(d).cached_error()
                            == Some(e),
                            }
                        },
                    }),
                }
            }),
    {
        if d.current != self.id {
            return Err(JsonError::InternalError);
        }
        let res = d.single_step();
        d.restore(self.parent);
        match res {
            Ok(SingleStepResult::Unknown(SingleStepUnknownResult::String)) => {
                proof {
                    crate::strings::lemma_decode_fail_kind(d.input(), d.pos());
                }
                match read_string_chars(&mut d.reader) {
                    Ok(StringOutcome::Full(st)) => {
                        match advance_past_comma_or_to_close(
                            &mut d.reader,
                        ) {
                            Ok(()) => Ok(st),
                            Err(e) => {
                                d.poison(e);
                                Err(e)
                            },
                        }
                    },
                    Ok(StringOutcome::Broken { closed }) => {
                        d.drop_string_value(closed);
                        Err(JsonError::NotUtf8)
                    },
                    Err(e) => {
                        d.poison(e);
                        Err(e)
                    },
                }
            },
            Ok(SingleStepResult::Unknown(_)) => Err(JsonError::TypeError),
            Ok(_) => Err(JsonError::InternalError),
            Err(e) => Err(e),
        }
    }
}

impl FieldIterator {
    /// The next field within the object.
    ///
    /// Yields a [`Field`] whose key string stands open in the input, or
    /// `None` once the object's close was consumed.  The previous field must
    /// have been consumed or disposed first; a call while it is still
    /// outstanding is refused.
    pub fn next<S: Stack>(&mut self, d: &mut Deserializer<S>) -> (r: Option<
        Result<Field, JsonError>,
    >)
        requires
            old(d).wf(),
        ensures
            final(d).wf(),
            final(d).input() == old(d).input(),
            final(d).pos() >= old(d).pos(),
            (r matches Some(k) && k is Ok) ==> final(d).pos() > old(d).pos(),
            final(self).parent_token() == old(self).parent_token(),
            old(self).is_done() ==> (r is None && *final(d) == *old(d) && *final(self) == *old(self)),
            (!old(self).is_done() && old(d).lent() != old(self).token()) ==> (r == Some(
                Err::<Field, JsonError>(JsonError::InternalError),
            ) && *final(d) == *old(d) && *final(self) == *old(self)),
            (!old(self).is_done() && old(d).lent() == old(self).token()) ==> ({
                &&& (match r {
                    Some(Ok(f)) => {
                        &&& f.token() == final(d).lent()
                        &&& f.parent_token() == old(self).token()
                        &&& f.key_unread()
                        &&& !final(self).is_done()
                        &&& final(self).token() == old(self).token()
                    },
                    Some(Err(e)) => true,
                    None => final(self).is_done() && final(d).lent() == old(self).parent_token(),
                })
                &&& (old(d).cached_error() is None ==> ({
                    let dr = old(d).drained();
                    match r {
                        Some(Err(JsonError::StackError(se))) => {
                            &&& se == crate::StackError::StackTooDeep
                            &&& ({
                                ||| (!old(d).queue_idle() && (old(d).owed_value() || old(d).owed_structures() > 0))
                                ||| (match dr {
                                    Ok((p0, st0)) => {
                                        let out = step_spec(old(d).input(), p0, st0);
                                        &&& out.res is Ok
                                        &&& pushing_event(out.res->Ok_0)
                                        &&& !S::can_push(step_stack_on_push_fail(st0))
                                        &&& final(d).pos() == out.pos
                                        &&& final(d).states() == step_stack_on_push_fail(st0)
                                    },
                                    Err(q0) => false,
                                })
                            })
                        },
                        _ => (match dr {
                            Err((e0, p0, st0)) => (match r {
                                Some(Err(e1)) => {
                                    &&& e1 == e0
                                    &&& final(d).pos() == p0
                                    &&& final(d).states() == st0
                                    &&& final(d).cached_error() == Some(e0)
                                },
                                _ => false,
                            }),
                            Ok((p0, st0)) => {
                                let out = step_spec(old(d).input(), p0, st0);
                                match out.res {
                            Ok(ev) => (match ev {
                                EventSpec::Field => (match r {
                                    Some(Ok(f)) => {
                                        &&& final(d).pos() == out.pos
                                        &&& final(d).states() == out.stack
                                        &&& final(d).ready()
                                    },
                                    _ => false,
                                }),
                                EventSpec::ObjClosed => (r is None && final(d).pos() == out.pos
                                    && final(d).states() == out.stack && final(d).ready()),
                                _ => r == Some(
                                    Err::<Field, JsonError>(JsonError::InternalError),
                                ),
                            }),
                            Err(e) => r == Some(Err::<Field, JsonError>(e)) && final(d).cached_error() == Some(e),
                                }
                            },
                        }),
                    }
                }))
            }),
    {
        if self.done {
            return None;
        }
        if d.current != self.id {
            return Some(Err(JsonError::InternalError));
        }

        match d.single_step() {
            Ok(SingleStepResult::Object(SingleStepObjectResult::Field)) => {
                let id = d.issue();
                Some(Ok(Field { id, parent: self.id, key_state: KeyState::Unread }))
            },
            Ok(SingleStepResult::Object(SingleStepObjectResult::Closed)) => {
                self.done = true;
                d.restore(self.parent);
                None
            },
            Ok(_) => Some(Err(JsonError::InternalError)),
            Err(e) => Some(Err(e)),
        }
    }

    /// Dispose of this iterator before exhaustion.
    ///
    /// The skip of all remaining fields, and of the object's close, is
    /// queued, preserving the forward-progress guarantee for the parent.
    pub fn dispose<S: Stack>(self, d: &mut Deserializer<S>)
        requires
            old(d).wf(),
        ensures
            final(d).wf(),
            final(d).input() == old(d).input(),
            final(d).pos() == old(d).pos(),
            final(d).states() == old(d).states(),
            final(d).cached_error() == old(d).cached_error(),
            (!self.is_done() && old(d).lent() == self.token()) ==> (final(d).lent()
                == self.parent_token() && !(final(d).queue_idle())),
            (self.is_done() || old(d).lent() != self.token()) ==> (*final(d) == *old(d)),
    {
        if !self.done && d.current == self.id {
            d.drop_structure();
            d.restore(self.parent);
        }
    }
}

impl ArrayIterator {
    /// The next item within the array.
    ///
    /// Yields a [`Value`] cursor for the element, or `None` once the
    /// array's close was consumed.  The previous element must have been
    /// consumed or disposed first; a call while it is still outstanding is
    /// refused.
    pub fn next<S: Stack>(&mut self, d: &mut Deserializer<S>) -> (r: Option<
        Result<Value, JsonError>,
    >)
        requires
            old(d).wf(),
        ensures
            final(d).wf(),
            final(d).input() == old(d).input(),
            final(d).pos() >= old(d).pos(),
            final(self).parent_token() == old(self).parent_token(),
            old(self).is_done() ==> (r is None && *final(d) == *old(d) && *final(self) == *old(self)),
            (!old(self).is_done() && old(d).lent() != old(self).token()) ==> (r == Some(
                Err::<Value, JsonError>(JsonError::InternalError),
            ) && *final(d) == *old(d) && *final(self) == *old(self)),
            (!old(self).is_done() && old(d).lent() == old(self).token()) ==> ({
                &&& (match r {
                    Some(Ok(v)) => {
                        &&& v.token() == final(d).lent()
                        &&& v.parent_token() == old(self).token()
                        &&& !final(self).is_done()
                        &&& final(self).token() == old(self).token()
                    },
                    Some(Err(e)) => true,
                    None => final(self).is_done() && final(d).lent() == old(self).parent_token(),
                })
                &&& (old(d).cached_error() is None ==> ({
                    let dr = old(d).drained();
                    match r {
                        Some(Err(JsonError::StackError(se))) => {
                            &&& se == crate::StackError::StackTooDeep
                            &&& ({
                                ||| (!old(d).queue_idle() && (old(d).owed_value() || old(d).owed_structures() > 0))
                                ||| (match dr {
                                    Ok((p0, st0)) => {
                                        let out = step_spec(old(d).input(), p0, st0);
                                        &&& out.res is Ok
                                        &&& pushing_event(out.res->Ok_0)
                                        &&& !S::can_push(step_stack_on_push_fail(st0))
                                        &&& final(d).pos() == out.pos
                                        &&& final(d).states() == step_stack_on_push_fail(st0)
                                    },
                                    Err(q0) => false,
                                })
                            })
                        },
                        _ => (match dr {
                            Err((e0, p0, st0)) => (match r {
                                Some(Err(e1)) => {
                                    &&& e1 == e0
                                    &&& final(d).pos() == p0
                                    &&& final(d).states() == st0
                                    &&& final(d).cached_error() == Some(e0)
                                },
                                _ => false,
                            }),
                            Ok((p0, st0)) => {
                                let out = step_spec(old(d).input(), p0, st0);
                                match out.res {
                            Ok(ev) => (match ev {
                                EventSpec::ArrValue => (match r {
                                    Some(Ok(v)) => {
                                        &&& final(d).pos() == out.pos
                                        &&& final(d).states() == out.stack
                                        &&& final(d).ready()
                                    },
                                    _ => false,
                                }),
                                EventSpec::ArrClosed => (r is None && final(d).pos() == out.pos
                                    && final(d).states() == out.stack && final(d).ready()),
                                _ => r == Some(
                                    Err::<Value, JsonError>(JsonError::InternalError),
                                ),
                            }),
                            Err(e) => r == Some(Err::<Value, JsonError>(e)) && final(d).cached_error() == Some(e),
                                }
                            },
                        }),
                    }
                }))
            }),
    {
        if self.done {
            return None;
        }
        if d.current != self.id {
            return Some(Err(JsonError::InternalError));
        }

        match d.single_step() {
            Ok(SingleStepResult::Array(SingleStepArrayResult::Value)) => {
                let id = d.issue();
                Some(Ok(Value { id, parent: self.id }))
            },
            Ok(SingleStepResult::Array(SingleStepArrayResult::Closed)) => {
                self.done = true;
                d.restore(self.parent);
                None
            },
            Ok(_) => Some(Err(JsonError::InternalError)),
            Err(e) => Some(Err(e)),
        }
    }

    /// Dispose of this iterator before exhaustion.
    ///
    /// The skip of all remaining elements, and of the array's close, is
    /// queued, preserving the forward-progress guarantee for the parent.
    pub fn dispose<S: Stack>(self, d: &mut Deserializer<S>)
        requires
            old(d).wf(),
        ensures
            final(d).wf(),
            final(d).input() == old(d).input(),
            final(d).pos() == old(d).pos(),
            final(d).states() == old(d).states(),
            final(d).cached_error() == old(d).cached_error(),
            (!self.is_done() && old(d).lent() == self.token()) ==> (final(d).lent()
                == self.parent_token() && !(final(d).queue_idle())),
            (self.is_done() || old(d).lent() != self.token()) ==> (*final(d) == *old(d)),
    {
        if !self.done && d.current == self.id {
            d.drop_structure();
            d.restore(self.parent);
        }
    }
}

impl Field {
    /// Read the key of this field, escapes decoded.
    ///
    /// The whole key is read at once.  A further call yields the empty
    /// string, the underlying character stream being exhausted.  If the key
    /// has valid syntax yet names no Unicode scalar value, this fails with a
    /// not-UTF-8 error local to the key: [`Field::value`] may still be
    /// called and deserialization may continue.
    pub fn key<S: Stack>(&mut self, d: &mut Deserializer<S>) -> (r: Result<String, JsonError>)
        requires
            old(d).wf(),
        ensures
            final(d).wf(),
            final(d).input() == old(d).input(),
            final(d).pos() >= old(d).pos(),
            final(d).lent() == old(d).lent(),
            final(self).token() == old(self).token(),
            final(self).parent_token() == old(self).parent_token(),
            old(d).lent() != old(self).token() ==> (r == Err::<String, JsonError>(
                JsonError::InternalError,
            ) && *final(d) == *old(d) && *final(self) == *old(self)),
            (old(d).lent() == old(self).token() && !old(self).key_unread()) ==> (*final(d)
                == *old(d) && *final(self) == *old(self) && (match r {
                Ok(st) => st@.len() == 0,
                Err(_) => false,
            })),
            (old(d).lent() == old(self).token() && old(self).key_unread()) ==> ({
                let s = old(d).input();
                match decode_string(s, old(d).pos()) {
                    DecodeSpec::Done { cps, next } => (match r {
                        Ok(st) => {
                            &&& st@.map_values(|c: char| c as int) == cps
                            &&& final(d).pos() == next
                            &&& !final(self).key_open()
                            &&& final(d).queue_idle() == old(d).queue_idle()
                            &&& final(d).cached_error() == old(d).cached_error()
                        },
                        Err(_) => false,
                    }),
                    DecodeSpec::Broken { next, closed } => {
                        &&& r == Err::<String, JsonError>(JsonError::NotUtf8)
                        &&& final(d).pos() == next
                        &&& final(self).key_open() == !closed
                        &&& !final(self).key_unread()
                        &&& final(d).cached_error() == old(d).cached_error()
                    },
                    DecodeSpec::Fail { err, next } => {
                        &&& r == Err::<String, JsonError>(err)
                        &&& final(d).pos() == next
                        &&& final(d).cached_error() == Some(err)
                    },
                }
            }),
    {
        if d.current != self.id {
            return Err(JsonError::InternalError);
        }
        match self.key_state {
            KeyState::Unread => {},
            _ => {
                // The key's character stream was already exhausted.
                return Ok(String::new());
            },
        }
        match read_string_chars(&mut d.reader) {
            Ok(StringOutcome::Full(st)) => {
                self.key_state = KeyState::Closed;
                Ok(st)
            },
            Ok(StringOutcome::Broken { closed }) => {
                self.key_state = if closed {
                    KeyState::Closed
                } else {
                    KeyState::BrokenOpen
                };
                Err(JsonError::NotUtf8)
            },
            Err(e) => {
                d.poison(e);
                Err(e)
            },
        }
    }

    /// Access the field's value.
    ///
    /// Whatever part of the key was left unread is skipped first, and the
    /// colon delimiting key from value is consumed: the byte source is never
    /// handed over mid-key.
    pub fn value<S: Stack>(self, d: &mut Deserializer<S>) -> (r: Result<Value, JsonError>)
        requires
            old(d).wf(),
        ensures
            final(d).wf(),
            final(d).input() == old(d).input(),
            final(d).pos() >= old(d).pos(),
            old(d).lent() != self.token() ==> (r == Err::<Value, JsonError>(
                JsonError::InternalError,
            ) && *final(d) == *old(d)),
            (match r {
                Ok(v) => {
                    &&& old(d).lent() == self.token()
                    &&& v.token() == final(d).lent()
                    &&& v.parent_token() == self.parent_token()
                },
                Err(e) => true,
            }),
            (old(d).lent() == self.token() && !self.key_open()) ==> ({
                let (cr, cp) = colon_spec(old(d).input(), old(d).pos());
                match cr {
                    Ok(()) => (match r {
                        Ok(v) => {
                            &&& final(d).pos() == cp
                            &&& final(d).states() == old(d).states()
                            &&& final(d).queue_idle() == old(d).queue_idle()
                            &&& final(d).cached_error() == old(d).cached_error()
                        },
                        Err(e3) => false,
                    }),
                    Err(e2) => r == Err::<Value, JsonError>(e2) && final(d).cached_error()
                        == Some(e2),
                }
            }),
            (old(d).lent() == self.token() && self.key_open()) ==> ({
                let s = old(d).input();
                match string_end(s, old(d).pos()) {
                    Ok(j) => {
                        let (cr, cp) = colon_spec(s, j);
                        match cr {
                            Ok(()) => (match r {
                                Ok(v) => {
                                    &&& final(d).pos() == cp
                                    &&& final(d).states() == old(d).states()
                                    &&& final(d).queue_idle() == old(d).queue_idle()
                                    &&& final(d).cached_error() == old(d).cached_error()
                                },
                                Err(e3) => false,
                            }),
                            Err(e2) => r == Err::<Value, JsonError>(e2) && final(d).cached_error() == Some(e2),
                        }
                    },
                    Err((e1, j)) => r == Err::<Value, JsonError>(e1) && final(d).cached_error() == Some(e1),
                }
            }),
    {
        if d.current != self.id {
            return Err(JsonError::InternalError);
        }
        // Finish or skip the remaining key bytes first.
        let key_open = match self.key_state {
            KeyState::Closed => false,
            _ => true,
        };
        if key_open {
            match skip_string(&mut d.reader) {
                Ok(()) => {},
                Err(e) => {
                    d.poison(e);
                    return Err(e);
                },
            }
        }
        match advance_past_colon(&mut d.reader) {
            Ok(()) => {},
            Err(e) => {
                d.poison(e);
                return Err(e);
            },
        }
        let id = d.issue();
        Ok(Value { id, parent: self.parent })
    }

    /// Dispose of this field without reaching its value.
    ///
    /// The skips of the key's remainder, of the colon, and of the value are
    /// queued, preserving the forward-progress guarantee for the parent
    /// iterator.
    pub fn dispose<S: Stack>(self, d: &mut Deserializer<S>)
        requires
            old(d).wf(),
        ensures
            final(d).wf(),
            final(d).input() == old(d).input(),
            final(d).pos() == old(d).pos(),
            final(d).states() == old(d).states(),
            final(d).cached_error() == old(d).cached_error(),
            old(d).lent() == self.token() ==> (final(d).lent() == self.parent_token() && !(
            final(d).queue_idle())),
            old(d).lent() != self.token() ==> (*final(d) == *old(d)),
    {
        if d.current == self.id {
            let closed = match self.key_state {
                KeyState::Closed => true,
                _ => false,
            };
            d.drop_string_key(closed);
            d.drop_value();
            d.restore(self.parent);
        }
    }
}

} // verus!
