//! The output decoder: turns the virtual machine's flat output text — a
//! bracket-wrapped line of whitespace-separated decimal felt tokens — into
//! one structured, versioned output record.
//!
//! Decoding is two-phase: a fixed prefix (version, two state tokens taken
//! literally as bytes, origin and caller as byte-arrays, a transaction-hash
//! token taken literally) and then a payload read from the remaining
//! cursor, so that records with other payload shapes can reuse the prefix.
//! Block number and time are not in the stream; they decode as zero for a
//! later caller to fill in.

use vstd::prelude::*;
use vstd::utf8::encode_utf8;
use crate::args::{tokenize, lex_tokens};
use crate::bytearray::{
    ByteArrayError, ZeroWordPolicy, spec_take_byte_array, decode_byte_array, decode_word,
    word_text,
};
use crate::dec::{is_dec_digits, digits_val, parse_u32_digits, parse_u64_digits};
use crate::error::{CodecError, CodecErrorSpec, OutputField};

verus! {

/// A character the outer wrapping of the output line is made of.
pub open spec fn is_bracket(c: char) -> bool {
    c == '[' || c == ']'
}

/// `s` with every leading bracket dropped.
pub open spec fn strip_leading_brackets(s: Seq<char>) -> Seq<char>
    decreases s.len(),
{
    if s.len() > 0 && is_bracket(s[0]) {
        strip_leading_brackets(s.drop_first())
    } else {
        s
    }
}

/// `s` with every trailing bracket dropped.
pub open spec fn strip_trailing_brackets(s: Seq<char>) -> Seq<char>
    decreases s.len(),
{
    if s.len() > 0 && is_bracket(s.last()) {
        strip_trailing_brackets(s.drop_last())
    } else {
        s
    }
}

/// `s` with the bracket wrapping dropped from both ends.
pub open spec fn strip_brackets(s: Seq<char>) -> Seq<char> {
    strip_trailing_brackets(strip_leading_brackets(s))
}

/// The transfer event a token payload decodes to, mathematically.
pub ghost struct EventSpec {
    pub from: Seq<char>,
    pub to: Seq<char>,
    pub amount: u64,
}

/// The fixed prefix of an output record, mathematically.
pub ghost struct OutputPrefixSpec {
    pub version: u32,
    pub initial_state: Seq<u8>,
    pub next_state: Seq<u8>,
    pub origin: Seq<char>,
    pub caller: Seq<char>,
    pub tx_hash: Seq<u8>,
}

/// A whole output record, mathematically, over the payload's own model.
pub ghost struct OutputSpec<P> {
    pub version: u32,
    pub initial_state: Seq<u8>,
    pub next_state: Seq<u8>,
    pub origin: Seq<char>,
    pub caller: Seq<char>,
    pub block_number: u64,
    pub block_time: u64,
    pub tx_hash: Seq<u8>,
    pub program_outputs: P,
}

/// The error a byte-array read inside a record raises: a broken structure —
/// the stream exhausted mid-field, a count or length token that is not a
/// number — is the output-format error naming the field being decoded; a
/// word that fails its integer, hex or UTF-8 decode stays the encoding
/// error.
pub open spec fn byte_array_error_in_field(e: ByteArrayError, field: OutputField) -> CodecErrorSpec {
    match e {
        ByteArrayError::Structure => CodecErrorSpec::InvalidOutputFormat(field),
        ByteArrayError::Word => CodecErrorSpec::InvalidEncoding,
    }
}

/// Reading the fixed prefix off the front of the token stream: the record
/// fields it yields and the stream left for the payload decoder. Success is
/// owed exactly when the stream holds a version token that is a number
/// fitting 32 bits, two state tokens, two well-formed byte-arrays and a
/// transaction-hash token; a missing or malformed fixed token, and a
/// truncated byte-array, name the field they were read for.
pub open spec fn spec_take_prefix(ts: Seq<Seq<char>>) -> Result<
    (OutputPrefixSpec, Seq<Seq<char>>),
    CodecErrorSpec,
> {
    if ts.len() < 1 || !(is_dec_digits(ts[0]) && digits_val(ts[0]) <= u32::MAX) {
        Err(CodecErrorSpec::InvalidOutputFormat(OutputField::Version))
    } else if ts.len() < 2 {
        Err(CodecErrorSpec::InvalidOutputFormat(OutputField::InitialState))
    } else if ts.len() < 3 {
        Err(CodecErrorSpec::InvalidOutputFormat(OutputField::NextState))
    } else {
        match spec_take_byte_array(ts.skip(3), 0, ZeroWordPolicy::SkipZero) {
            Err(e) => Err(byte_array_error_in_field(e, OutputField::Origin)),
            Ok(p1) => {
                let ts2 = ts.skip(3).skip(p1.1);
                match spec_take_byte_array(ts2, 0, ZeroWordPolicy::SkipZero) {
                    Err(e) => Err(byte_array_error_in_field(e, OutputField::Caller)),
                    Ok(p2) => {
                        let ts3 = ts2.skip(p2.1);
                        if ts3.len() < 1 {
                            Err(CodecErrorSpec::InvalidOutputFormat(OutputField::TxHash))
                        } else {
                            Ok(
                                (
                                    OutputPrefixSpec {
                                        version: digits_val(ts[0]) as u32,
                                        initial_state: encode_utf8(ts[1]),
                                        next_state: encode_utf8(ts[2]),
                                        origin: p1.0,
                                        caller: p2.0,
                                        tx_hash: encode_utf8(ts3[0]),
                                    },
                                    ts3.skip(1),
                                ),
                            )
                        }
                    },
                }
            },
        }
    }
}

/// Reading a transfer event off the front of the token stream: two
/// byte-array strings and an amount token that is a number fitting 64 bits.
pub open spec fn spec_take_event(ts: Seq<Seq<char>>) -> Result<
    (EventSpec, Seq<Seq<char>>),
    CodecErrorSpec,
> {
    match spec_take_byte_array(ts, 0, ZeroWordPolicy::SkipZero) {
        Err(e) => Err(byte_array_error_in_field(e, OutputField::PayloadFrom)),
        Ok(p1) => {
            let ts2 = ts.skip(p1.1);
            match spec_take_byte_array(ts2, 0, ZeroWordPolicy::SkipZero) {
                Err(e) => Err(byte_array_error_in_field(e, OutputField::PayloadTo)),
                Ok(p2) => {
                    let ts3 = ts2.skip(p2.1);
                    if ts3.len() < 1 || !(is_dec_digits(ts3[0]) && digits_val(ts3[0])
                        <= u64::MAX) {
                        Err(CodecErrorSpec::InvalidOutputFormat(OutputField::PayloadAmount))
                    } else {
                        Ok(
                            (
                                EventSpec {
                                    from: p1.0,
                                    to: p2.0,
                                    amount: digits_val(ts3[0]) as u64,
                                },
                                ts3.skip(1),
                            ),
                        )
                    }
                },
            }
        },
    }
}

/// What the output decoder denotes on a whole output string carrying a
/// transfer event: strip the bracket wrapping, tokenize, read the fixed
/// prefix, read the event, default the block fields to zero. Tokens left
/// after the payload are ignored.
pub open spec fn spec_decode_event_output(input: Seq<char>) -> Result<
    OutputSpec<EventSpec>,
    CodecErrorSpec,
> {
    let ts = tokenize(strip_brackets(input));
    match spec_take_prefix(ts) {
        Err(e) => Err(e),
        Ok(p) => match spec_take_event(p.1) {
            Err(e) => Err(e),
            Ok(q) => Ok(
                OutputSpec {
                    version: p.0.version,
                    initial_state: p.0.initial_state,
                    next_state: p.0.next_state,
                    origin: p.0.origin,
                    caller: p.0.caller,
                    block_number: 0,
                    block_time: 0,
                    tx_hash: p.0.tx_hash,
                    program_outputs: q.0,
                },
            ),
        },
    }
}

/// The transfer event payload of an output record.
pub struct Event {
    pub from: String,
    pub to: String,
    pub amount: u64,
}

impl View for Event {
    type V = EventSpec;

    open spec fn view(&self) -> EventSpec {
        EventSpec { from: self.from@, to: self.to@, amount: self.amount }
    }
}

/// The fixed prefix of an output record, as decoded values.
pub struct OutputPrefix {
    pub version: u32,
    pub initial_state: Vec<u8>,
    pub next_state: Vec<u8>,
    pub origin: String,
    pub caller: String,
    pub tx_hash: Vec<u8>,
}

impl View for OutputPrefix {
    type V = OutputPrefixSpec;

    open spec fn view(&self) -> OutputPrefixSpec {
        OutputPrefixSpec {
            version: self.version,
            initial_state: self.initial_state@,
            next_state: self.next_state@,
            origin: self.origin@,
            caller: self.caller@,
            tx_hash: self.tx_hash@,
        }
    }
}

/// One structured output record of the virtual machine, generic in the
/// payload its program returns.
pub struct HyleOutput<T> {
    pub version: u32,
    pub initial_state: Vec<u8>,
    pub next_state: Vec<u8>,
    pub origin: String,
    pub caller: String,
    pub block_number: u64,
    pub block_time: u64,
    pub tx_hash: Vec<u8>,
    pub program_outputs: T,
}

impl<T: View> View for HyleOutput<T> {
    type V = OutputSpec<T::V>;

    open spec fn view(&self) -> OutputSpec<T::V> {
        OutputSpec {
            version: self.version,
            initial_state: self.initial_state@,
            next_state: self.next_state@,
            origin: self.origin@,
            caller: self.caller@,
            block_number: self.block_number,
            block_time: self.block_time,
            tx_hash: self.tx_hash@,
            program_outputs: self.program_outputs@,
        }
    }
}

/// Everything one invocation persists: the trace and memory binary images
/// and the decoded output record.
pub struct CairoRunOutput {
    pub trace: Vec<u8>,
    pub memory: Vec<u8>,
    pub output: HyleOutput<Event>,
}

/// Decoders for an output record read from the machine's output text.
pub trait DeserializableHyleOutput: Sized + View {
    /// The decoding this implementation denotes on a whole output string.
    spec fn spec_deserialize(input: Seq<char>) -> Result<Self::V, CodecErrorSpec>;

    /// Decodes one integer token to text: base ten to hex to bytes to
    /// UTF-8, zero words not excepted.
    fn i_to_w(s: String) -> (r: Result<String, CodecError>)
        ensures
            match word_text(s@, ZeroWordPolicy::DecodeAll) {
                Some(t) => r is Ok && r->Ok_0@ == t,
                None => r is Err && r->Err_0@ == CodecErrorSpec::InvalidEncoding,
            },
    ;

    /// Reads one byte-array string off the front of the token cursor,
    /// skipping zero words as padding. Standing alone, the read names no
    /// record field: every failure is the encoding error.
    fn deserialize_cairo_bytesarray(data: &mut Vec<&str>) -> (r: Result<String, CodecError>)
        ensures
            match spec_take_byte_array(
                old(data).deep_view(),
                0,
                ZeroWordPolicy::SkipZero,
            ) {
                Ok(pair) => {
                    &&& r is Ok
                    &&& r->Ok_0@ == pair.0
                    &&& final(data).deep_view() == old(data).deep_view().skip(pair.1)
                },
                Err(_) => r is Err && r->Err_0@ == CodecErrorSpec::InvalidEncoding,
            },
    ;

    /// Decodes a whole output string into a record, or reports why the
    /// stream cannot be one; never panics and never returns a partial
    /// record.
    fn deserialize(input: &str) -> (r: Result<Self, CodecError>)
        ensures
            match Self::spec_deserialize(input@) {
                Ok(v) => r is Ok && r->Ok_0@ == v,
                Err(e) => r is Err && r->Err_0@ == e,
            },
    ;
}

/// Whether `c` is part of the outer bracket wrapping.
fn is_bracket_char(c: char) -> (r: bool)
    ensures
        r == is_bracket(c),
{
    c == '[' || c == ']'
}

/// Dropping every leading bracket is skipping to the first non-bracket.
proof fn lemma_strip_leading(s: Seq<char>, a: int)
    requires
        0 <= a <= s.len(),
        forall|j: int| 0 <= j < a ==> is_bracket(#[trigger] s[j]),
        a == s.len() || !is_bracket(s[a]),
    ensures
        strip_leading_brackets(s) == s.skip(a),
    decreases a,
{
    if a == 0 {
        assert(s.skip(0) =~= s);
    } else {
        assert(is_bracket(s[0]));
        lemma_strip_leading(s.drop_first(), a - 1);
        assert(s.drop_first().skip(a - 1) =~= s.skip(a));
    }
}

/// Dropping every trailing bracket is taking up to the last non-bracket.
proof fn lemma_strip_trailing(t: Seq<char>, b: int)
    requires
        0 <= b <= t.len(),
        forall|j: int| b <= j < t.len() ==> is_bracket(#[trigger] t[j]),
        b == 0 || !is_bracket(t[b - 1]),
    ensures
        strip_trailing_brackets(t) == t.take(b),
    decreases t.len() - b,
{
    if b == t.len() {
        assert(t.take(b) =~= t);
    } else {
        assert(is_bracket(t.last()));
        lemma_strip_trailing(t.drop_last(), b);
        assert(t.drop_last().take(b) =~= t.take(b));
    }
}

/// Drops the bracket wrapping from both ends of the output line.
pub fn strip_brackets_str<'a>(s: &'a str) -> (r: &'a str)
    ensures
        r@ == strip_brackets(s@),
{
    let n = s.unicode_len();
    let mut lo: usize = 0;
    while lo < n && is_bracket_char(s.get_char(lo))
        invariant
            0 <= lo <= n,
            n == s@.len(),
            forall|j: int| 0 <= j < lo ==> is_bracket(#[trigger] s@[j]),
        decreases n - lo,
    {
        lo = lo + 1;
    }
    let mut hi: usize = n;
    while hi > lo && is_bracket_char(s.get_char(hi - 1))
        invariant
            lo <= hi <= n,
            n == s@.len(),
            lo == n || !is_bracket(s@[lo as int]),
            forall|j: int| hi <= j < n ==> is_bracket(#[trigger] s@[j]),
        decreases hi,
    {
        hi = hi - 1;
    }
    proof {
        lemma_strip_leading(s@, lo as int);
        let t = s@.skip(lo as int);
        lemma_strip_trailing(t, (hi - lo) as int);
        assert(t.take((hi - lo) as int) =~= s@.subrange(lo as int, hi as int));
    }
    s.substring_char(lo, hi)
}

/// Maps a byte-array failure to the record-level error for the field being
/// decoded.
fn error_for_field(e: ByteArrayError, field: OutputField) -> (r: CodecError)
    ensures
        r@ == byte_array_error_in_field(e, field),
{
    match e {
        ByteArrayError::Structure => CodecError::InvalidOutputFormat(field),
        ByteArrayError::Word => CodecError::InvalidEncoding,
    }
}

/// Takes the front token off the cursor, if one is there.
fn take_front<'a>(data: &mut Vec<&'a str>) -> (r: Option<&'a str>)
    ensures
        match r {
            Some(t) => {
                &&& old(data).deep_view().len() > 0
                &&& t@ == old(data).deep_view()[0]
                &&& final(data).deep_view() == old(data).deep_view().skip(1)
            },
            None => old(data).deep_view().len() == 0 && *final(data) == *old(data),
        },
{
    if data.len() == 0 {
        None
    } else {
        let ghost prev = data@;
        let ghost predv = data.deep_view();
        let t = data.remove(0);
        proof {
            assert(t == prev[0]);
            assert(predv[0] == prev[0]@);
            assert(data@ =~= prev.drop_first());
            assert forall|i: int| 0 <= i < data@.len() implies data.deep_view()[i] == predv[i + 1]
                by {
                assert(data@[i] == prev[i + 1]);
                assert(data.deep_view()[i] == data@[i]@);
                assert(predv[i + 1] == prev[i + 1]@);
            }
            assert(data.deep_view() =~= predv.skip(1));
        }
        Some(t)
    }
}

/// Reads the fixed prefix of an output record off the front of the token
/// cursor, leaving the cursor at the payload.
pub fn decode_output_prefix(data: &mut Vec<&str>) -> (r: Result<OutputPrefix, CodecError>)
    ensures
        match spec_take_prefix(old(data).deep_view()) {
            Ok(p) => {
                &&& r is Ok
                &&& r->Ok_0@ == p.0
                &&& final(data).deep_view() == p.1
            },
            Err(e) => r is Err && r->Err_0@ == e,
        },
{
    let ghost ts = data.deep_view();
    let vtok = match take_front(data) {
        Some(t) => t,
        None => {
            return Err(CodecError::InvalidOutputFormat(OutputField::Version));
        },
    };
    let version = match parse_u32_digits(vtok) {
        Some(v) => v,
        None => {
            return Err(CodecError::InvalidOutputFormat(OutputField::Version));
        },
    };
    let itok = match take_front(data) {
        Some(t) => t,
        None => {
            return Err(CodecError::InvalidOutputFormat(OutputField::InitialState));
        },
    };
    let initial_state = itok.as_bytes_vec();
    let ntok = match take_front(data) {
        Some(t) => t,
        None => {
            return Err(CodecError::InvalidOutputFormat(OutputField::NextState));
        },
    };
    let next_state = ntok.as_bytes_vec();
    proof {
        assert(data.deep_view() =~= ts.skip(3));
        assert(itok@ == ts[1]);
        assert(ntok@ == ts[2]);
    }
    let origin = match decode_byte_array(data, ZeroWordPolicy::SkipZero) {
        Ok(s) => s,
        Err(e) => {
            return Err(error_for_field(e, OutputField::Origin));
        },
    };
    let caller = match decode_byte_array(data, ZeroWordPolicy::SkipZero) {
        Ok(s) => s,
        Err(e) => {
            return Err(error_for_field(e, OutputField::Caller));
        },
    };
    let htok = match take_front(data) {
        Some(t) => t,
        None => {
            return Err(CodecError::InvalidOutputFormat(OutputField::TxHash));
        },
    };
    let tx_hash = htok.as_bytes_vec();
    Ok(OutputPrefix { version, initial_state, next_state, origin, caller, tx_hash })
}

/// Reads a transfer event off the front of the token cursor.
pub fn decode_event(data: &mut Vec<&str>) -> (r: Result<Event, CodecError>)
    ensures
        match spec_take_event(old(data).deep_view()) {
            Ok(p) => {
                &&& r is Ok
                &&& r->Ok_0@ == p.0
                &&& final(data).deep_view() == p.1
            },
            Err(e) => r is Err && r->Err_0@ == e,
        },
{
    let from = match decode_byte_array(data, ZeroWordPolicy::SkipZero) {
        Ok(s) => s,
        Err(e) => {
            return Err(error_for_field(e, OutputField::PayloadFrom));
        },
    };
    let to = match decode_byte_array(data, ZeroWordPolicy::SkipZero) {
        Ok(s) => s,
        Err(e) => {
            return Err(error_for_field(e, OutputField::PayloadTo));
        },
    };
    let atok = match take_front(data) {
        Some(t) => t,
        None => {
            return Err(CodecError::InvalidOutputFormat(OutputField::PayloadAmount));
        },
    };
    let amount = match parse_u64_digits(atok) {
        Some(v) => v,
        None => {
            return Err(CodecError::InvalidOutputFormat(OutputField::PayloadAmount));
        },
    };
    Ok(Event { from, to, amount })
}

impl DeserializableHyleOutput for HyleOutput<Event> {
    open spec fn spec_deserialize(input: Seq<char>) -> Result<Self::V, CodecErrorSpec> {
        spec_decode_event_output(input)
    }

    fn i_to_w(s: String) -> (r: Result<String, CodecError>) {
        decode_word(s.as_str(), ZeroWordPolicy::DecodeAll)
    }

    fn deserialize_cairo_bytesarray(data: &mut Vec<&str>) -> (r: Result<String, CodecError>) {
        match decode_byte_array(data, ZeroWordPolicy::SkipZero) {
            Ok(s) => Ok(s),
            Err(_) => Err(CodecError::InvalidEncoding),
        }
    }

    fn deserialize(input: &str) -> (r: Result<Self, CodecError>) {
        let stripped = strip_brackets_str(input);
        let mut parts: Vec<&str> = lex_tokens(stripped);
        let prefix = match decode_output_prefix(&mut parts) {
            Ok(p) => p,
            Err(e) => {
                return Err(e);
            },
        };
        let ev = match decode_event(&mut parts) {
            Ok(v) => v,
            Err(e) => {
                return Err(e);
            },
        };
        Ok(
            HyleOutput {
                version: prefix.version,
                initial_state: prefix.initial_state,
                next_state: prefix.next_state,
                origin: prefix.origin,
                caller: prefix.caller,
                block_number: 0,
                block_time: 0,
                tx_hash: prefix.tx_hash,
                program_outputs: ev,
            },
        )
    }
}

} // verus!
