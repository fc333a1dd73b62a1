//! The argument encoder: turns one line of ASCII-whitespace-separated
//! tokens — bare decimal felts and flat bracket-delimited felt arrays, with
//! brackets allowed to sit directly against a number — into an ordered list
//! of scalar and array arguments.
//!
//! Bracket mistakes (a nested `[`, a stray `]`, an unclosed array) are
//! reported as [`CodecError::UnbalancedBrackets`] rather than being patched
//! over: the grammar leaves their meaning undefined, so the encoder refuses
//! them.

use vstd::prelude::*;
use crate::dec::{is_dec_digits, digits_val, is_char_token};
use crate::error::{CodecError, CodecErrorSpec};
use crate::felt::{Felt, felt_prime};

verus! {

/// The five ASCII whitespace characters that separate tokens.
pub open spec fn is_ascii_ws(c: char) -> bool {
    c == ' ' || c == '\t' || c == '\n' || c == '\u{c}' || c == '\r'
}

/// The maximal run of non-whitespace characters at the head of `s`.
pub open spec fn take_token(s: Seq<char>) -> Seq<char>
    decreases s.len(),
{
    if s.len() == 0 || is_ascii_ws(s[0]) {
        Seq::empty()
    } else {
        seq![s[0]] + take_token(s.drop_first())
    }
}

/// The whitespace-separated tokens of `s`, in order.
pub open spec fn tokenize(s: Seq<char>) -> Seq<Seq<char>>
    decreases s.len(),
    via tokenize_decreases
{
    if s.len() == 0 {
        Seq::empty()
    } else if is_ascii_ws(s[0]) {
        tokenize(s.drop_first())
    } else {
        seq![take_token(s)] + tokenize(s.skip(take_token(s).len() as int))
    }
}

/// A token is never longer than the text it is cut from.
pub proof fn lemma_take_token_len(s: Seq<char>)
    ensures
        take_token(s).len() <= s.len(),
    decreases s.len(),
{
    if !(s.len() == 0 || is_ascii_ws(s[0])) {
        lemma_take_token_len(s.drop_first());
    }
}

#[via_fn]
proof fn tokenize_decreases(s: Seq<char>) {
    if s.len() > 0 && !is_ascii_ws(s[0]) {
        lemma_take_token_len(s);
        assert(take_token(s).len() >= 1);
    }
}

/// Splits one raw token into pseudo-tokens: a single leading `[` and a
/// single trailing `]` come off as tokens of their own.
pub open spec fn split_brackets(t: Seq<char>) -> Seq<Seq<char>> {
    if t.len() > 0 && t[0] == '[' {
        seq![seq!['[']] + split_bracket_tail(t.drop_first())
    } else {
        split_bracket_tail(t)
    }
}

/// The tail half of [`split_brackets`]: takes a single trailing `]` off.
pub open spec fn split_bracket_tail(x: Seq<char>) -> Seq<Seq<char>> {
    if x.len() > 0 && x.last() == ']' {
        if x.len() > 1 {
            seq![x.drop_last(), seq![']']]
        } else {
            seq![seq![']']]
        }
    } else {
        if x.len() > 0 {
            seq![x]
        } else {
            Seq::empty()
        }
    }
}

/// All pseudo-tokens of a token sequence, in order.
pub open spec fn pseudo_tokens(ts: Seq<Seq<char>>) -> Seq<Seq<char>>
    decreases ts.len(),
{
    if ts.len() == 0 {
        Seq::empty()
    } else {
        split_brackets(ts[0]) + pseudo_tokens(ts.drop_first())
    }
}

/// One encoded argument, mathematically: a felt value or a felt array.
pub ghost enum ArgSpec {
    Single(nat),
    Array(Seq<nat>),
}

/// Scanning state of the array collector: the elements gathered since the
/// opening bracket, and where scanning ended. Success is owed exactly when a
/// matching `]` arrives with nothing but in-range felts before it.
pub open spec fn spec_scan_array(ts: Seq<Seq<char>>, i: int, acc: Seq<nat>) -> Result<
    (Seq<nat>, int),
    CodecErrorSpec,
>
    decreases ts.len() - i,
{
    if i < 0 || i >= ts.len() {
        Err(CodecErrorSpec::UnbalancedBrackets)
    } else if ts[i] == seq![']'] {
        Ok((acc, i + 1))
    } else if ts[i] == seq!['['] {
        Err(CodecErrorSpec::UnbalancedBrackets)
    } else if is_dec_digits(ts[i]) && digits_val(ts[i]) < felt_prime() {
        spec_scan_array(ts, i + 1, acc.push(digits_val(ts[i])))
    } else {
        Err(CodecErrorSpec::InvalidArgument(ts[i]))
    }
}

/// Where the array scanner's cursor comes to rest: just past the closing
/// bracket on success; on failure at the offending token, or at the end of
/// the tokens when they ran out first.
pub open spec fn spec_scan_array_stop(ts: Seq<Seq<char>>, i: int) -> int
    decreases ts.len() - i,
{
    if i < 0 || i >= ts.len() {
        i
    } else if ts[i] == seq![']'] {
        i + 1
    } else if ts[i] == seq!['['] {
        i
    } else if is_dec_digits(ts[i]) && digits_val(ts[i]) < felt_prime() {
        spec_scan_array_stop(ts, i + 1)
    } else {
        i
    }
}

/// The grammar of the argument line over pseudo-tokens, one token a step:
/// `cur` holds the array being collected, if one is open; `done` the
/// arguments finished so far. Success is owed exactly when brackets are flat
/// and balanced and every numeric token is an in-range felt.
pub open spec fn spec_parse_args(
    ts: Seq<Seq<char>>,
    i: int,
    cur: Option<Seq<nat>>,
    done: Seq<ArgSpec>,
) -> Result<Seq<ArgSpec>, CodecErrorSpec>
    decreases ts.len() - i,
{
    if i < 0 || i >= ts.len() {
        match cur {
            Some(_) => Err(CodecErrorSpec::UnbalancedBrackets),
            None => Ok(done),
        }
    } else if ts[i] == seq!['['] {
        match cur {
            Some(_) => Err(CodecErrorSpec::UnbalancedBrackets),
            None => spec_parse_args(ts, i + 1, Some(Seq::empty()), done),
        }
    } else if ts[i] == seq![']'] {
        match cur {
            Some(a) => spec_parse_args(ts, i + 1, None, done.push(ArgSpec::Array(a))),
            None => Err(CodecErrorSpec::UnbalancedBrackets),
        }
    } else if is_dec_digits(ts[i]) && digits_val(ts[i]) < felt_prime() {
        match cur {
            Some(a) => spec_parse_args(ts, i + 1, Some(a.push(digits_val(ts[i]))), done),
            None => spec_parse_args(ts, i + 1, None, done.push(ArgSpec::Single(digits_val(ts[i])))),
        }
    } else {
        Err(CodecErrorSpec::InvalidArgument(ts[i]))
    }
}

/// What the argument encoder denotes on a whole input line.
pub open spec fn spec_process_args(s: Seq<char>) -> Result<Seq<ArgSpec>, CodecErrorSpec> {
    spec_parse_args(pseudo_tokens(tokenize(s)), 0, None, Seq::empty())
}

/// The shape of an argument list: `true` where an argument is an array,
/// `false` where it is a scalar.
pub open spec fn arg_shapes(args: Seq<ArgSpec>) -> Seq<bool> {
    Seq::new(args.len(), |k: int| args[k] is Array)
}

/// The scalar/array shape the bracket structure of a pseudo-token stream
/// prescribes, ignoring what the numeric tokens hold: `false` for each bare
/// token, `true` for each bracket group. Nothing for an unbalanced stream.
pub open spec fn spec_stream_shape(
    ts: Seq<Seq<char>>,
    i: int,
    in_array: bool,
    acc: Seq<bool>,
) -> Option<Seq<bool>>
    decreases ts.len() - i,
{
    if i < 0 || i >= ts.len() {
        if in_array {
            None
        } else {
            Some(acc)
        }
    } else if ts[i] == seq!['['] {
        if in_array {
            None
        } else {
            spec_stream_shape(ts, i + 1, true, acc)
        }
    } else if ts[i] == seq![']'] {
        if in_array {
            spec_stream_shape(ts, i + 1, false, acc.push(true))
        } else {
            None
        }
    } else {
        if in_array {
            spec_stream_shape(ts, i + 1, true, acc)
        } else {
            spec_stream_shape(ts, i + 1, false, acc.push(false))
        }
    }
}

proof fn lemma_parse_shape(ts: Seq<Seq<char>>, i: int, cur: Option<Seq<nat>>, done: Seq<ArgSpec>, acc: Seq<bool>)
    requires
        spec_parse_args(ts, i, cur, done) is Ok,
        acc == arg_shapes(done),
    ensures
        spec_stream_shape(ts, i, cur is Some, acc) == Some(
            arg_shapes(spec_parse_args(ts, i, cur, done)->Ok_0),
        ),
    decreases ts.len() - i,
{
    if i < 0 || i >= ts.len() {
    } else if ts[i] == seq!['['] {
        lemma_parse_shape(ts, i + 1, Some(Seq::empty()), done, acc);
    } else if ts[i] == seq![']'] {
        let a = cur->Some_0;
        assert(acc.push(true) =~= arg_shapes(done.push(ArgSpec::Array(a))));
        lemma_parse_shape(ts, i + 1, None, done.push(ArgSpec::Array(a)), acc.push(true));
    } else if is_dec_digits(ts[i]) && digits_val(ts[i]) < felt_prime() {
        match cur {
            Some(a) => {
                lemma_parse_shape(ts, i + 1, Some(a.push(digits_val(ts[i]))), done, acc);
            },
            None => {
                let v = digits_val(ts[i]);
                assert(acc.push(false) =~= arg_shapes(done.push(ArgSpec::Single(v))));
                lemma_parse_shape(ts, i + 1, None, done.push(ArgSpec::Single(v)), acc.push(false));
            },
        }
    } else {
    }
}

/// Law: the encoder preserves structural shape. On every line it accepts,
/// the scalar/array pattern of the resulting argument list is exactly the
/// pattern of bare tokens and bracket groups in the line.
pub proof fn lemma_encoder_preserves_shape(s: Seq<char>)
    requires
        spec_process_args(s) is Ok,
    ensures
        spec_stream_shape(pseudo_tokens(tokenize(s)), 0, false, Seq::empty()) == Some(
            arg_shapes(spec_process_args(s)->Ok_0),
        ),
{
    assert(Seq::<bool>::empty() =~= arg_shapes(Seq::<ArgSpec>::empty()));
    lemma_parse_shape(pseudo_tokens(tokenize(s)), 0, None, Seq::empty(), Seq::empty());
}

/// One encoded argument: a scalar felt or a flat felt array.
#[derive(Clone, Debug)]
pub enum FuncArg {
    Single(Felt),
    Array(Vec<Felt>),
}

impl View for FuncArg {
    type V = ArgSpec;

    open spec fn view(&self) -> ArgSpec {
        match self {
            FuncArg::Single(f) => ArgSpec::Single(f@),
            FuncArg::Array(v) => ArgSpec::Array(Seq::new(v@.len(), |k: int| v@[k]@)),
        }
    }
}

impl FuncArg {
    /// Every felt held is well-formed.
    pub open spec fn wf(&self) -> bool {
        match self {
            FuncArg::Single(f) => f.wf(),
            FuncArg::Array(v) => forall|k: int| 0 <= k < v@.len() ==> (#[trigger] v@[k]).wf(),
        }
    }
}

/// The ordered argument list an invocation hands to the virtual machine.
#[derive(Clone, Debug)]
pub struct FuncArgs(pub Vec<FuncArg>);

impl View for FuncArgs {
    type V = Seq<ArgSpec>;

    open spec fn view(&self) -> Seq<ArgSpec> {
        Seq::new(self.0@.len(), |k: int| self.0@[k]@)
    }
}

impl FuncArgs {
    /// Every argument held is well-formed.
    pub open spec fn wf(&self) -> bool {
        forall|k: int| 0 <= k < self.0@.len() ==> (#[trigger] self.0@[k]).wf()
    }
}

/// Whether `c` separates tokens.
fn is_ws_char(c: char) -> (r: bool)
    ensures
        r == is_ascii_ws(c),
{
    c == ' ' || c == '\t' || c == '\n' || c == '\u{c}' || c == '\r'
}

/// A maximal non-whitespace run is the token the spec cuts.
proof fn lemma_take_token_range(s: Seq<char>, a: int, b: int)
    requires
        0 <= a <= b <= s.len(),
        forall|j: int| a <= j < b ==> !is_ascii_ws(#[trigger] s[j]),
        b == s.len() || is_ascii_ws(s[b]),
    ensures
        take_token(s.skip(a)) == s.subrange(a, b),
    decreases b - a,
{
    if a == b {
        if a < s.len() {
            assert(s.skip(a)[0] == s[a]);
        }
        assert(take_token(s.skip(a)) =~= s.subrange(a, b));
    } else {
        lemma_take_token_range(s, a + 1, b);
        assert(s.skip(a).drop_first() =~= s.skip(a + 1));
        assert(s.skip(a)[0] == s[a]);
        assert(take_token(s.skip(a)) == seq![s[a]] + take_token(s.skip(a + 1)));
        assert(seq![s[a]] + s.subrange(a + 1, b) =~= s.subrange(a, b));
    }
}

/// Cuts `s` into its whitespace-separated tokens.
pub fn lex_tokens<'a>(s: &'a str) -> (r: Vec<&'a str>)
    ensures
        r.deep_view() == tokenize(s@),
{
    let n = s.unicode_len();
    let mut toks: Vec<&'a str> = Vec::new();
    let mut i: usize = 0;
    proof {
        assert(s@.skip(0) =~= s@);
    }
    while i < n
        invariant
            0 <= i <= n,
            n == s@.len(),
            tokenize(s@) == toks.deep_view() + tokenize(s@.skip(i as int)),
        decreases n - i,
    {
        let c = s.get_char(i);
        if is_ws_char(c) {
            proof {
                assert(s@.skip(i as int)[0] == s@[i as int]);
                assert(s@.skip(i as int).drop_first() =~= s@.skip(i + 1 as int));
            }
            i = i + 1;
        } else {
            let start = i;
            let mut j = i + 1;
            while j < n && !is_ws_char(s.get_char(j))
                invariant
                    start < j <= n,
                    n == s@.len(),
                    forall|k: int| start <= k < j ==> !is_ascii_ws(#[trigger] s@[k]),
                decreases n - j,
            {
                j = j + 1;
            }
            let tok = s.substring_char(start, j);
            let ghost pre = toks.deep_view();
            toks.push(tok);
            proof {
                lemma_take_token_range(s@, start as int, j as int);
                assert(s@.skip(start as int)[0] == s@[start as int]);
                assert(tokenize(s@.skip(start as int)) == seq![s@.subrange(start as int, j as int)]
                    + tokenize(s@.skip(start as int).skip(j - start as int)));
                assert(s@.skip(start as int).skip(j - start as int) =~= s@.skip(j as int));
                assert(toks.deep_view() =~= pre.push(tok@));
                assert(pre + (seq![tok@] + tokenize(s@.skip(j as int))) =~= pre.push(tok@)
                    + tokenize(s@.skip(j as int)));
            }
            i = j;
        }
    }
    proof {
        assert(s@.skip(n as int) =~= Seq::<char>::empty());
        assert(toks.deep_view() + Seq::<Seq<char>>::empty() =~= toks.deep_view());
    }
    toks
}

/// Cuts `s` into pseudo-tokens: raw tokens with a leading `[` or trailing
/// `]` split off as tokens of their own.
fn lex_args<'a>(s: &'a str) -> (r: Vec<&'a str>)
    ensures
        r.deep_view() == pseudo_tokens(tokenize(s@)),
{
    let toks = lex_tokens(s);
    let ghost big = toks.deep_view();
    let mut out: Vec<&'a str> = Vec::new();
    let mut idx: usize = 0;
    proof {
        assert(big.skip(0) =~= big);
    }
    while idx < toks.len()
        invariant
            0 <= idx <= toks@.len(),
            toks.deep_view() == big,
            big.len() == toks@.len(),
            pseudo_tokens(big) == out.deep_view() + pseudo_tokens(big.skip(idx as int)),
        decreases toks@.len() - idx,
    {
        let t: &str = toks[idx];
        let ghost pre = out.deep_view();
        let tl = t.unicode_len();
        let mut start: usize = 0;
        if tl > 0 && t.get_char(0) == '[' {
            out.push("[");
            start = 1;
        }
        let ghost opened = start == 1;
        let ghost x = t@.skip(start as int);
        proof {
            reveal_strlit("[");
            reveal_strlit("]");
            assert(("[")@ =~= seq!['[']);
            assert(("]")@ =~= seq![']']);
            if opened {
                assert(t@.drop_first() =~= x);
            } else {
                assert(t@ =~= x);
            }
        }
        if tl > start && t.get_char(tl - 1) == ']' {
            if tl - 1 > start {
                out.push(t.substring_char(start, tl - 1));
            }
            out.push("]");
            proof {
                assert(x.len() > 0 && x.last() == ']');
                if tl - 1 > start {
                    assert(t@.subrange(start as int, tl - 1 as int) =~= x.drop_last());
                    assert(x.len() > 1);
                } else {
                    assert(x.len() == 1);
                }
            }
        } else if tl > start {
            out.push(t.substring_char(start, tl));
            proof {
                assert(t@.subrange(start as int, tl as int) =~= x);
                assert(!(x.len() > 0 && x.last() == ']'));
            }
        } else {
            proof {
                assert(x.len() == 0);
            }
        }
        proof {
            assert(big.skip(idx as int)[0] == t@);
            assert(big.skip(idx as int).drop_first() =~= big.skip(idx + 1 as int));
            assert(pseudo_tokens(big.skip(idx as int)) == split_brackets(t@) + pseudo_tokens(
                big.skip(idx + 1 as int),
            ));
            assert(out.deep_view() =~= pre + split_brackets(t@));
            assert(pre + (split_brackets(t@) + pseudo_tokens(big.skip(idx + 1 as int))) =~= (pre
                + split_brackets(t@)) + pseudo_tokens(big.skip(idx + 1 as int)));
        }
        idx = idx + 1;
    }
    proof {
        assert(big.skip(toks@.len() as int) =~= Seq::<Seq<char>>::empty());
        assert(out.deep_view() + Seq::<Seq<char>>::empty() =~= out.deep_view());
    }
    out
}

/// When the scanner succeeds, it has moved the cursor forward and no further
/// than the end of the tokens.
proof fn lemma_scan_array_bounds(ts: Seq<Seq<char>>, i: int, acc: Seq<nat>)
    requires
        0 <= i,
    ensures
        spec_scan_array(ts, i, acc) is Ok ==> i < spec_scan_array(ts, i, acc)->Ok_0.1 <= ts.len(),
    decreases ts.len() - i,
{
    if 0 <= i < ts.len() {
        if ts[i] == seq![']'] {
        } else if ts[i] == seq!['['] {
        } else if is_dec_digits(ts[i]) && digits_val(ts[i]) < felt_prime() {
            lemma_scan_array_bounds(ts, i + 1, acc.push(digits_val(ts[i])));
        }
    }
}

/// Collecting an open array and then parsing on is the same as parsing with
/// that array open: the scanner is the parser's array mode.
proof fn lemma_parse_with_array(ts: Seq<Seq<char>>, i: int, acc: Seq<nat>, done: Seq<ArgSpec>)
    ensures
        spec_parse_args(ts, i, Some(acc), done) == match spec_scan_array(ts, i, acc) {
            Ok(pair) => spec_parse_args(ts, pair.1, None, done.push(ArgSpec::Array(pair.0))),
            Err(e) => Err(e),
        },
    decreases ts.len() - i,
{
    if i < 0 || i >= ts.len() {
    } else if ts[i] == seq!['['] {
    } else if ts[i] == seq![']'] {
    } else if is_dec_digits(ts[i]) && digits_val(ts[i]) < felt_prime() {
        lemma_parse_with_array(ts, i + 1, acc.push(digits_val(ts[i])), done);
    } else {
    }
}

/// Consumes felt tokens up to the matching `]` and returns them as one array
/// argument, advancing the cursor past the `]`. A nested `[`, or running out
/// of tokens first, is an unbalanced-bracket error; a non-felt token is an
/// invalid-argument error naming it. On failure the cursor stands at the
/// offending token — or at the end when the tokens ran out — and, the
/// failure being fatal, is not meant to be read further.
pub fn process_array(tokens: &Vec<&str>, pos: &mut usize) -> (r: Result<FuncArg, CodecError>)
    requires
        *old(pos) <= tokens@.len(),
    ensures
        ({
            let res = spec_scan_array(tokens.deep_view(), *old(pos) as int, Seq::empty());
            match r {
                Ok(a) => {
                    &&& res is Ok
                    &&& a@ == ArgSpec::Array(res->Ok_0.0)
                    &&& a.wf()
                    &&& *final(pos) == res->Ok_0.1
                },
                Err(e) => {
                    &&& res is Err
                    &&& e@ == res->Err_0
                    &&& *final(pos) == spec_scan_array_stop(
                        tokens.deep_view(),
                        *old(pos) as int,
                    )
                },
            }
        }),
{
    let ghost ts = tokens.deep_view();
    let mut elems: Vec<Felt> = Vec::new();
    proof {
        assert(Seq::new(elems@.len(), |k: int| elems@[k]@) =~= Seq::<nat>::empty());
    }
    while *pos < tokens.len()
        invariant
            *pos <= tokens@.len(),
            ts == tokens.deep_view(),
            ts.len() == tokens@.len(),
            forall|k: int| 0 <= k < elems@.len() ==> (#[trigger] elems@[k]).wf(),
            spec_scan_array(ts, *old(pos) as int, Seq::empty()) == spec_scan_array(
                ts,
                *pos as int,
                Seq::new(elems@.len(), |k: int| elems@[k]@),
            ),
            spec_scan_array_stop(ts, *old(pos) as int) == spec_scan_array_stop(ts, *pos as int),
        decreases tokens@.len() - *pos,
    {
        let t: &str = tokens[*pos];
        proof {
            assert(ts[*pos as int] == t@);
        }
        if is_char_token(t, ']') {
            *pos = *pos + 1;
            return Ok(FuncArg::Array(elems));
        }
        if is_char_token(t, '[') {
            return Err(CodecError::UnbalancedBrackets);
        }
        let ghost preview = Seq::new(elems@.len(), |k: int| elems@[k]@);
        match Felt::from_dec_str(t) {
            Some(f) => {
                elems.push(f);
                *pos = *pos + 1;
                proof {
                    assert(Seq::new(elems@.len(), |k: int| elems@[k]@) =~= preview.push(
                        digits_val(t@),
                    ));
                }
            },
            None => {
                return Err(CodecError::InvalidArgument(t.to_owned()));
            },
        }
    }
    Err(CodecError::UnbalancedBrackets)
}

/// The argument encoder. Parses a line of whitespace-separated felt tokens
/// and flat bracketed felt arrays into the ordered argument list, exactly as
/// [`spec_process_args`] denotes it: it succeeds on precisely the lines whose
/// brackets are flat and balanced and whose numeric tokens are in-range
/// felts, and otherwise reports the first offence.
pub fn process_args(value: &str) -> (r: Result<FuncArgs, CodecError>)
    ensures
        ({
            let res = spec_process_args(value@);
            match r {
                Ok(args) => res is Ok && args@ == res->Ok_0 && args.wf(),
                Err(e) => res is Err && e@ == res->Err_0,
            }
        }),
{
    let toks = lex_args(value);
    let ghost ts = pseudo_tokens(tokenize(value@));
    let mut out: Vec<FuncArg> = Vec::new();
    let mut pos: usize = 0;
    proof {
        assert(Seq::new(out@.len(), |k: int| out@[k]@) =~= Seq::<ArgSpec>::empty());
    }
    while pos < toks.len()
        invariant
            pos <= toks@.len(),
            toks.deep_view() == ts,
            ts == pseudo_tokens(tokenize(value@)),
            ts.len() == toks@.len(),
            forall|k: int| 0 <= k < out@.len() ==> (#[trigger] out@[k]).wf(),
            spec_parse_args(ts, 0, None, Seq::empty()) == spec_parse_args(
                ts,
                pos as int,
                None,
                Seq::new(out@.len(), |k: int| out@[k]@),
            ),
        decreases toks@.len() - pos,
    {
        let t: &str = toks[pos];
        proof {
            assert(ts[pos as int] == t@);
        }
        let ghost doneview = Seq::new(out@.len(), |k: int| out@[k]@);
        let ghost entry = pos as int;
        if is_char_token(t, '[') {
            pos = pos + 1;
            proof {
                assert(spec_parse_args(ts, entry, None, doneview) == spec_parse_args(
                    ts,
                    entry + 1,
                    Some(Seq::empty()),
                    doneview,
                ));
                lemma_parse_with_array(ts, entry + 1, Seq::empty(), doneview);
                lemma_scan_array_bounds(ts, entry + 1, Seq::empty());
            }
            match process_array(&toks, &mut pos) {
                Ok(a) => {
                    out.push(a);
                    proof {
                        assert(Seq::new(out@.len(), |k: int| out@[k]@) =~= doneview.push(a@));
                    }
                },
                Err(e) => {
                    proof {
                        let res0 = spec_scan_array(ts, entry + 1, Seq::empty());
                        assert(res0 is Err);
                        assert(e@ == res0->Err_0);
                        assert(spec_parse_args(ts, entry, None, doneview) == Err::<
                            Seq<ArgSpec>,
                            CodecErrorSpec,
                        >(res0->Err_0));
                        assert(spec_process_args(value@) == Err::<
                            Seq<ArgSpec>,
                            CodecErrorSpec,
                        >(e@));
                    }
                    return Err(e);
                },
            }
        } else if is_char_token(t, ']') {
            proof {
                assert(spec_parse_args(ts, entry, None, doneview) == Err::<
                    Seq<ArgSpec>,
                    CodecErrorSpec,
                >(CodecErrorSpec::UnbalancedBrackets));
            }
            return Err(CodecError::UnbalancedBrackets);
        } else {
            match Felt::from_dec_str(t) {
                Some(f) => {
                    let a = FuncArg::Single(f);
                    out.push(a);
                    pos = pos + 1;
                    proof {
                        assert(Seq::new(out@.len(), |k: int| out@[k]@) =~= doneview.push(
                            ArgSpec::Single(digits_val(t@)),
                        ));
                    }
                },
                None => {
                    proof {
                        assert(spec_parse_args(ts, entry, None, doneview) == Err::<
                            Seq<ArgSpec>,
                            CodecErrorSpec,
                        >(CodecErrorSpec::InvalidArgument(t@)));
                    }
                    return Err(CodecError::InvalidArgument(t.to_owned()));
                },
            }
        }
    }
    Ok(FuncArgs(out))
}

} // verus!
