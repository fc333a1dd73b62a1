//! The byte-array wire convention: a variable-length string travels as felt
//! words. The token layout is `[fullWordCount, fullWord_0 ..
//! fullWord_{N-1}, pendingWord, pendingWordLength]`: exactly `N + 3` tokens,
//! of which `N + 1` are word tokens. Each word is hex-expanded to its
//! minimal big-endian bytes and UTF-8 decoded; the declared pending length
//! is validated as a number but, as the convention stands, not cross-checked
//! against the decoded text.
//!
//! Two conventions for zero words exist in the wild, so the treatment of a
//! word token that is literally `0` is a caller-chosen
//! [`ZeroWordPolicy`] rather than a constant of the decoder.
//!
//! A read fails in one of two ways, which callers treat differently: the
//! stream's structure is broken — it is exhausted, or a count or length
//! token is not the number it should be — or a word fails its integer, hex
//! or UTF-8 decode. [`ByteArrayError`] keeps the two apart, so the output
//! decoder can name the record field a truncated stream starved.

use vstd::prelude::*;
use vstd::string::StringExecFns;
use vstd::utf8::{valid_utf8, decode_utf8};
use crate::dec::{is_dec_digits, digits_val, is_char_token};
use crate::error::{CodecError, CodecErrorSpec};
use crate::felt::{Felt, felt_prime, min_be_bytes};

verus! {

/// What a word token that is literally `0` means: padding to skip, or a
/// word to decode like any other (which fails, zero having no even-length
/// hex form).
#[derive(Clone, Copy, Debug, PartialEq, Eq, Structural)]
pub enum ZeroWordPolicy {
    SkipZero,
    DecodeAll,
}

/// Why a byte-array read failed: the stream's structure is broken (it ran
/// out of tokens, or the count or pending-length token is not a number in
/// range), or one word failed its integer, hex or UTF-8 decode.
#[derive(Clone, Copy, Debug, PartialEq, Eq, Structural)]
pub enum ByteArrayError {
    Structure,
    Word,
}

/// The text one word token contributes, if it decodes. A word decodes when
/// it is an in-range felt whose minimal hex form has even length — that is,
/// whose top byte is at least sixteen — and whose bytes are valid UTF-8.
/// Zero has the odd hex form `0`, so a zero word decodes only by being
/// skipped under [`ZeroWordPolicy::SkipZero`].
pub open spec fn word_text(w: Seq<char>, policy: ZeroWordPolicy) -> Option<Seq<char>> {
    if policy is SkipZero && w == seq!['0'] {
        Some(Seq::empty())
    } else if !(is_dec_digits(w) && digits_val(w) < felt_prime()) {
        None
    } else if digits_val(w) == 0 {
        None
    } else if min_be_bytes(digits_val(w))[0] < 16 {
        None
    } else if !valid_utf8(min_be_bytes(digits_val(w))) {
        None
    } else {
        Some(decode_utf8(min_be_bytes(digits_val(w))))
    }
}

/// The concatenated text of a run of word tokens; nothing if any word
/// fails.
pub open spec fn words_text(ws: Seq<Seq<char>>, policy: ZeroWordPolicy) -> Option<Seq<char>>
    decreases ws.len(),
{
    if ws.len() == 0 {
        Some(Seq::empty())
    } else {
        match word_text(ws[0], policy) {
            None => None,
            Some(t) => match words_text(ws.drop_first(), policy) {
                None => None,
                Some(r) => Some(t + r),
            },
        }
    }
}

/// One byte-array read at position `i` of a token stream: the text it
/// decodes to and the position just past the consumed tokens. Success is
/// owed exactly when the count token is a number, the stream holds the
/// `count + 3` tokens it announces, the declared pending length is a number
/// that fits the machine, and every word decodes; anything else is a
/// structure failure, except a word that will not decode.
pub open spec fn spec_take_byte_array(
    ts: Seq<Seq<char>>,
    i: int,
    policy: ZeroWordPolicy,
) -> Result<(Seq<char>, int), ByteArrayError> {
    if !(0 <= i < ts.len() && is_dec_digits(ts[i])) {
        Err(ByteArrayError::Structure)
    } else {
        let n = digits_val(ts[i]);
        if i + n + 3 > ts.len() {
            Err(ByteArrayError::Structure)
        } else if !(is_dec_digits(ts[i + n + 2]) && digits_val(ts[i + n + 2]) <= usize::MAX) {
            Err(ByteArrayError::Structure)
        } else {
            match words_text(ts.subrange(i + 1, i + n + 2), policy) {
                None => Err(ByteArrayError::Word),
                Some(t) => Ok((t, i + n + 3)),
            }
        }
    }
}

/// Law: under the skip policy, a word token that is literally `0`
/// contributes no text, wherever among the words it stands: dropping it
/// from the word run leaves the decoded text — and whether decoding
/// succeeds — unchanged.
pub proof fn lemma_zero_word_contributes_nothing(ws1: Seq<Seq<char>>, ws2: Seq<Seq<char>>)
    ensures
        words_text(ws1 + seq![seq!['0']] + ws2, ZeroWordPolicy::SkipZero) == words_text(
            ws1 + ws2,
            ZeroWordPolicy::SkipZero,
        ),
    decreases ws1.len(),
{
    let z: Seq<char> = seq!['0'];
    let policy = ZeroWordPolicy::SkipZero;
    let l = ws1 + seq![z] + ws2;
    let m = ws1 + ws2;
    if ws1.len() == 0 {
        assert(l[0] == z);
        assert(word_text(z, policy) == Some(Seq::<char>::empty()));
        assert(l.drop_first() =~= ws2);
        assert(m =~= ws2);
        match words_text(ws2, policy) {
            None => {},
            Some(r) => {
                assert(Seq::<char>::empty() + r =~= r);
            },
        }
    } else {
        lemma_zero_word_contributes_nothing(ws1.drop_first(), ws2);
        assert(l[0] == ws1[0]);
        assert(m[0] == ws1[0]);
        assert(l.drop_first() =~= ws1.drop_first() + seq![z] + ws2);
        assert(m.drop_first() =~= ws1.drop_first() + ws2);
    }
}

/// Relies on String::from_utf8: it returns the string of these very bytes
/// exactly when they are valid UTF-8, and rejects them otherwise.
#[verifier::external_body]
fn utf8_to_string(bytes: Vec<u8>) -> (r: Option<String>)
    ensures
        r is Some <==> valid_utf8(bytes@),
        r is Some ==> r->Some_0@ == decode_utf8(bytes@),
{
    String::from_utf8(bytes).ok()
}

/// Decodes one word token to the text it contributes, per the policy.
pub fn decode_word(tok: &str, policy: ZeroWordPolicy) -> (r: Result<String, CodecError>)
    ensures
        match word_text(tok@, policy) {
            Some(t) => r is Ok && r->Ok_0@ == t,
            None => r is Err && r->Err_0@ == CodecErrorSpec::InvalidEncoding,
        },
{
    let skip = match policy {
        ZeroWordPolicy::SkipZero => true,
        ZeroWordPolicy::DecodeAll => false,
    };
    if skip && is_char_token(tok, '0') {
        return Ok(String::new());
    }
    match Felt::from_dec_str(tok) {
        None => Err(CodecError::InvalidEncoding),
        Some(f) => {
            let bytes = f.to_min_be_bytes();
            if bytes.len() == 0 {
                return Err(CodecError::InvalidEncoding);
            }
            if bytes[0] < 16 {
                return Err(CodecError::InvalidEncoding);
            }
            match utf8_to_string(bytes) {
                None => Err(CodecError::InvalidEncoding),
                Some(s) => Ok(s),
            }
        },
    }
}

/// Reads one byte-array value off the front of the token cursor, consuming
/// exactly the `count + 3` tokens the convention prescribes, and returns
/// the decoded text. On failure the cursor may be left partly consumed; the
/// read is fatal, a partial string being meaningless.
pub fn decode_byte_array(data: &mut Vec<&str>, policy: ZeroWordPolicy) -> (r: Result<
    String,
    ByteArrayError,
>)
    ensures
        match spec_take_byte_array(old(data).deep_view(), 0, policy) {
            Ok(pair) => {
                &&& r is Ok
                &&& r->Ok_0@ == pair.0
                &&& final(data).deep_view() == old(data).deep_view().skip(pair.1)
            },
            Err(e) => r is Err && r->Err_0 == e,
        },
{
    let ghost ts = data.deep_view();
    if data.len() == 0 {
        return Err(ByteArrayError::Structure);
    }
    let count_tok = data.remove(0);
    proof {
        assert(count_tok@ == ts[0]);
        assert(data.deep_view() =~= ts.drop_first());
    }
    let count = match crate::dec::parse_u64_digits(count_tok) {
        Some(v) => v,
        None => {
            return Err(ByteArrayError::Structure);
        },
    };
    if data.len() < 2 || ((data.len() - 2) as u64) < count {
        proof {
            assert(ts.len() < digits_val(ts[0]) + 3);
        }
        return Err(ByteArrayError::Structure);
    }
    let cnt = count as usize;
    proof {
        assert(0 + digits_val(ts[0]) + 3 <= ts.len());
    }
    let plen_tok = data.remove(cnt + 1);
    proof {
        assert(plen_tok@ == ts[cnt + 2 as int]);
        assert(data.deep_view() =~= ts.drop_first().remove(cnt + 1 as int));
    }
    match crate::dec::parse_u64_digits(plen_tok) {
        Some(v) => {
            if v > (usize::MAX as u64) {
                return Err(ByteArrayError::Structure);
            }
        },
        None => {
            return Err(ByteArrayError::Structure);
        },
    }
    let ghost words = ts.subrange(1, cnt + 2 as int);
    let ghost rest = ts.skip(cnt + 3 as int);
    proof {
        assert(data.deep_view() =~= words + rest);
    }
    let mut out = String::new();
    let mut k: usize = 0;
    proof {
        assert(words.skip(0) =~= words);
        match words_text(words, policy) {
            None => {},
            Some(r) => {
                assert(Seq::<char>::empty() + r =~= r);
            },
        }
    }
    while k < cnt + 1
        invariant
            0 <= k <= cnt + 1,
            cnt + 1 <= usize::MAX,
            words.len() == cnt + 1,
            ts == old(data).deep_view(),
            data@.len() == (cnt + 1 - k) + rest.len(),
            data.deep_view() == words.skip(k as int) + rest,
            rest == ts.skip(cnt + 3 as int),
            spec_take_byte_array(ts, 0, policy) == match words_text(words, policy) {
                None => Err::<(Seq<char>, int), ByteArrayError>(ByteArrayError::Word),
                Some(t) => Ok::<(Seq<char>, int), ByteArrayError>((t, cnt + 3 as int)),
            },
            match words_text(words.skip(k as int), policy) {
                None => words_text(words, policy) is None,
                Some(r) => words_text(words, policy) == Some(out@ + r),
            },
        decreases cnt + 1 - k,
    {
        let ghost prev = data@;
        let ghost predv = data.deep_view();
        let w = data.remove(0);
        proof {
            assert(w == prev[0]);
            assert(predv[0] == prev[0].deep_view());
            assert(w@ == words.skip(k as int)[0]);
            assert(data@ =~= prev.drop_first());
            assert forall|i: int| 0 <= i < data@.len() implies data.deep_view()[i] == predv[i + 1]
                by {
                assert(data@[i] == prev[i + 1]);
                assert(data.deep_view()[i] == data@[i].deep_view());
                assert(predv[i + 1] == prev[i + 1].deep_view());
            }
            assert(data.deep_view() =~= words.skip(k + 1 as int) + rest);
            assert(words.skip(k as int).drop_first() =~= words.skip(k + 1 as int));
        }
        match decode_word(w, policy) {
            Ok(piece) => {
                let ghost preout = out@;
                out.append(piece.as_str());
                proof {
                    let t = word_text(w@, policy)->Some_0;
                    match words_text(words.skip(k + 1 as int), policy) {
                        None => {},
                        Some(r2) => {
                            assert(preout + (t + r2) =~= (preout + t) + r2);
                        },
                    }
                }
            },
            Err(_) => {
                return Err(ByteArrayError::Word);
            },
        }
        k = k + 1;
    }
    proof {
        assert(words.skip(cnt + 1 as int) =~= Seq::<Seq<char>>::empty());
        assert(words_text(Seq::<Seq<char>>::empty(), policy) == Some(Seq::<char>::empty()));
        assert(words_text(words, policy) == Some(out@ + Seq::<char>::empty()));
        assert(out@ + Seq::<char>::empty() =~= out@);
        assert(data.deep_view() =~= ts.skip(0 + digits_val(ts[0]) + 3 as int));
    }
    Ok(out)
}

} // verus!
