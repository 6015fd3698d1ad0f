//! The lexical forms of a Value Change Dump, each as a parser on a byte slice.
//!
//! A parser answers with what it matched and the bytes that follow, or with
//! `Incomplete` when the bytes at hand may be the start of the form, or with
//! `Failure` when they cannot be. For each parser a spec function of the same
//! name, with `spec_` in front, gives the answer as a function of the input.

use crate::command::{ChangeView, CommandView, ValueView, VcdChange, VcdCommand, VcdValue};
use crate::scan::{
    byte, decimal, fill_ws1, is_word, lemma_run_len_bounds, one_of, parse_decimal, run_len,
    spec_byte, spec_one_of, spec_tag, spec_take_run1, split, tag, take_run0, take_run1, yields,
    ByteClass, GrammarError, Outcome,
};
use crate::types::Range;
use vstd::prelude::*;
use vstd::string::StringSliceAdditionalSpecFns;

verus! {

/// Skipping twice is skipping once by the sum.
pub proof fn lemma_skip_twice(s: Seq<u8>, a: nat, b: nat)
    requires
        a + b <= s.len(),
    ensures
        s.skip(a as int).skip(b as int) == s.skip((a + b) as int),
{
    assert(s.skip(a as int).skip(b as int) =~= s.skip((a + b) as int));
}

/// `first`, then separators that must be seen to end; there may be none.
pub open spec fn then_spaces0<T>(first: Outcome<T>, s: Seq<u8>) -> Outcome<T> {
    match first {
        Outcome::Match { len, value } => {
            let n = run_len(s.skip(len as int), ByteClass::Space);
            if len + n == s.len() {
                Outcome::Incomplete
            } else {
                Outcome::Match { len: len + n, value }
            }
        },
        other => other,
    }
}

/// `first`, then at least one separator, and the separators must be seen to end.
pub open spec fn then_spaces1<T>(first: Outcome<T>, s: Seq<u8>) -> Outcome<T> {
    match first {
        Outcome::Match { len, value } => {
            let n = run_len(s.skip(len as int), ByteClass::Space);
            if len + n == s.len() {
                Outcome::Incomplete
            } else if n == 0 {
                Outcome::Failure
            } else {
                Outcome::Match { len: len + n, value }
            }
        },
        other => other,
    }
}

/// `first`, then at least one separator; the separators may run to the end of the input.
pub open spec fn then_fill1<T>(first: Outcome<T>, s: Seq<u8>) -> Outcome<T> {
    match first {
        Outcome::Match { len, value } => {
            let n = run_len(s.skip(len as int), ByteClass::Space);
            if n == 0 {
                Outcome::Failure
            } else {
                Outcome::Match { len: len + n, value }
            }
        },
        other => other,
    }
}

/// `first` as an outcome on the input that `by` more bytes stand in front of.
pub open spec fn shifted<T>(first: Outcome<T>, by: nat) -> Outcome<T> {
    match first {
        Outcome::Match { len, value } => Outcome::Match { len: by + len, value },
        other => other,
    }
}

/// A decimal number with an optional `-` in front, as a signed 64-bit integer.
/// A number too large for that is a failure.
#[verifier::opaque]
pub open spec fn spec_number(s: Seq<u8>) -> Outcome<i64> {
    if s.len() == 0 {
        Outcome::Incomplete
    } else {
        let sign: nat = if s[0] == '-' as u8 {
            1
        } else {
            0
        };
        match spec_take_run1(s.skip(sign as int), ByteClass::Digit) {
            Outcome::Match { len, value } => if decimal(value) <= i64::MAX {
                Outcome::Match {
                    len: sign + len,
                    value: if sign == 1 {
                        (-(decimal(value) as int)) as i64
                    } else {
                        decimal(value) as i64
                    },
                }
            } else {
                Outcome::Failure
            },
            Outcome::Incomplete => Outcome::Incomplete,
            Outcome::Failure => Outcome::Failure,
        }
    }
}

/// Parses the form that [`spec_number`] describes.
pub fn number<'a>(input: &'a [u8]) -> (res: Result<(&'a [u8], i64), GrammarError>)
    ensures
        yields(res, input@, spec_number(input@)),
{
    proof {
        reveal(spec_number);
    }
    if input.len() == 0 {
        return Err(GrammarError::Incomplete);
    }
    let negative = input[0] == '-' as u8;
    let body = if negative {
        split(input, 1).0
    } else {
        input
    };
    assert(body@ =~= input@.skip(if negative { 1int } else { 0int }));
    let (rest, digits) = take_run1(body, ByteClass::Digit)?;
    proof {
        lemma_run_len_bounds(body@, ByteClass::Digit);
        lemma_skip_twice(input@, if negative { 1nat } else { 0nat }, digits@.len());
    }
    match parse_decimal(digits, 0x7fff_ffff_ffff_ffff) {
        Some(magnitude) => {
            let value: i64 = if negative {
                -(magnitude as i64)
            } else {
                magnitude as i64
            };
            Ok((rest, value))
        },
        None => Err(GrammarError::Failure),
    }
}

/// A number and the separators behind it.
#[verifier::opaque]
pub open spec fn spec_var_width(s: Seq<u8>) -> Outcome<i64> {
    then_spaces0(spec_number(s), s)
}

/// Parses the form that [`spec_var_width`] describes.
pub fn var_width<'a>(input: &'a [u8]) -> (res: Result<(&'a [u8], i64), GrammarError>)
    ensures
        yields(res, input@, spec_var_width(input@)),
{
    proof {
        reveal(spec_var_width);
    }
    let (rest, value) = number(input)?;
    let ghost len = (input@.len() - rest@.len()) as nat;
    let (rest, spaces) = take_run0(rest, ByteClass::Space)?;
    proof {
        lemma_skip_twice(input@, len, spaces@.len());
    }
    Ok((rest, value))
}

/// The one byte `b` and the separators behind it.
#[verifier::opaque]
pub open spec fn spec_mark(s: Seq<u8>, b: u8) -> Outcome<u8> {
    then_spaces0(spec_byte(s, b), s)
}

/// Parses the form that [`spec_mark`] describes.
pub fn mark<'a>(input: &'a [u8], b: u8) -> (res: Result<(&'a [u8], u8), GrammarError>)
    ensures
        yields(res, input@, spec_mark(input@, b)),
{
    proof {
        reveal(spec_mark);
    }
    let (rest, value) = byte(input, b)?;
    let (rest, spaces) = take_run0(rest, ByteClass::Space)?;
    proof {
        lemma_skip_twice(input@, 1, spaces@.len());
    }
    Ok((rest, value))
}

/// What stands between the brackets of a range: `msb : lsb`, or else one
/// index, which must not be negative.
#[verifier::opaque]
pub open spec fn spec_range_body(s: Seq<u8>) -> Outcome<Range> {
    match spec_var_width(s) {
        Outcome::Match { len, value } => {
            let single = if value >= 0 {
                Outcome::Match { len, value: Range::Bit(value as u64) }
            } else {
                Outcome::Failure
            };
            match spec_mark(s.skip(len as int), ':' as u8) {
                Outcome::Match { len: colon, value: _ } => match spec_var_width(
                    s.skip((len + colon) as int),
                ) {
                    Outcome::Match { len: second, value: lsb } => Outcome::Match {
                        len: len + colon + second,
                        value: Range::Range((value, lsb)),
                    },
                    Outcome::Incomplete => Outcome::Incomplete,
                    Outcome::Failure => single,
                },
                Outcome::Incomplete => Outcome::Incomplete,
                Outcome::Failure => single,
            }
        },
        Outcome::Incomplete => Outcome::Incomplete,
        Outcome::Failure => Outcome::Failure,
    }
}

/// Parses the form that [`spec_range_body`] describes.
pub fn range_body<'a>(input: &'a [u8]) -> (res: Result<(&'a [u8], Range), GrammarError>)
    ensures
        yields(res, input@, spec_range_body(input@)),
{
    proof {
        reveal(spec_range_body);
    }
    let (rest, value) = var_width(input)?;
    let ghost len = (input@.len() - rest@.len()) as nat;
    match mark(rest, ':' as u8) {
        Ok((after_colon, _)) => {
            let ghost colon = (rest@.len() - after_colon@.len()) as nat;
            proof {
                lemma_skip_twice(input@, len, colon);
            }
            match var_width(after_colon) {
                Ok((after, lsb)) => {
                    proof {
                        lemma_skip_twice(
                            input@,
                            len + colon,
                            (after_colon@.len() - after@.len()) as nat,
                        );
                    }
                    return Ok((after, Range::Range((value, lsb))));
                },
                Err(GrammarError::Incomplete) => {
                    return Err(GrammarError::Incomplete);
                },
                Err(GrammarError::Failure) => {},
            }
        },
        Err(GrammarError::Incomplete) => {
            return Err(GrammarError::Incomplete);
        },
        Err(GrammarError::Failure) => {},
    }
    if value >= 0 {
        Ok((rest, Range::Bit(value as u64)))
    } else {
        Err(GrammarError::Failure)
    }
}

/// A range: `[n]` or `[msb:lsb]`, with separators allowed around each part.
#[verifier::opaque]
pub open spec fn spec_var_range(s: Seq<u8>) -> Outcome<Range> {
    match spec_mark(s, '[' as u8) {
        Outcome::Match { len, value: _ } => match spec_range_body(s.skip(len as int)) {
            Outcome::Match { len: body, value } => match spec_mark(
                s.skip((len + body) as int),
                ']' as u8,
            ) {
                Outcome::Match { len: close, value: _ } => Outcome::Match {
                    len: len + body + close,
                    value,
                },
                Outcome::Incomplete => Outcome::Incomplete,
                Outcome::Failure => Outcome::Failure,
            },
            Outcome::Incomplete => Outcome::Incomplete,
            Outcome::Failure => Outcome::Failure,
        },
        Outcome::Incomplete => Outcome::Incomplete,
        Outcome::Failure => Outcome::Failure,
    }
}

/// Parses the form that [`spec_var_range`] describes.
pub fn var_range<'a>(input: &'a [u8]) -> (res: Result<(&'a [u8], Range), GrammarError>)
    ensures
        yields(res, input@, spec_var_range(input@)),
{
    proof {
        reveal(spec_var_range);
    }
    let (rest, _) = mark(input, '[' as u8)?;
    let ghost len = (input@.len() - rest@.len()) as nat;
    let (rest, range) = range_body(rest)?;
    let ghost body = (input@.len() - len - rest@.len()) as nat;
    proof {
        lemma_skip_twice(input@, len, body);
    }
    let (after, _) = mark(rest, ']' as u8)?;
    proof {
        lemma_skip_twice(input@, len + body, (rest@.len() - after@.len()) as nat);
    }
    Ok((after, range))
}

/// The name of a variable: it does not begin with `$`, runs up to a separator
/// or a `[`, and the separators behind it must be seen to end.
#[verifier::opaque]
pub open spec fn spec_var_name(s: Seq<u8>) -> Outcome<Seq<u8>> {
    if s.len() == 0 {
        Outcome::Incomplete
    } else if s[0] == '$' as u8 {
        Outcome::Failure
    } else {
        then_spaces0(spec_take_run1(s, ByteClass::Name), s)
    }
}

/// Parses the form that [`spec_var_name`] describes.
pub fn var_name<'a>(input: &'a [u8]) -> (res: Result<(&'a [u8], &'a [u8]), GrammarError>)
    ensures
        yields(res, input@, spec_var_name(input@)),
{
    proof {
        reveal(spec_var_name);
    }
    if input.len() == 0 {
        return Err(GrammarError::Incomplete);
    }
    if input[0] == '$' as u8 {
        return Err(GrammarError::Failure);
    }
    let (rest, name) = take_run1(input, ByteClass::Name)?;
    let (rest, spaces) = take_run0(rest, ByteClass::Space)?;
    proof {
        lemma_run_len_bounds(input@, ByteClass::Name);
        lemma_skip_twice(input@, name@.len(), spaces@.len());
    }
    Ok((rest, name))
}

/// A word inside a directive: a run of token bytes and at least one separator.
#[verifier::opaque]
pub open spec fn spec_vcd_word(s: Seq<u8>) -> Outcome<Seq<u8>> {
    then_spaces1(spec_take_run1(s, ByteClass::Token), s)
}

/// Parses the form that [`spec_vcd_word`] describes.
pub fn vcd_word<'a>(input: &'a [u8]) -> (res: Result<(&'a [u8], &'a [u8]), GrammarError>)
    ensures
        yields(res, input@, spec_vcd_word(input@)),
{
    proof {
        reveal(spec_vcd_word);
    }
    let (rest, word) = take_run1(input, ByteClass::Token)?;
    let (rest, spaces) = take_run1(rest, ByteClass::Space)?;
    proof {
        lemma_run_len_bounds(input@, ByteClass::Token);
        lemma_skip_twice(input@, word@.len(), spaces@.len());
    }
    Ok((rest, word))
}

/// The token `$end` and the separators behind it: at least one, and they may
/// run to the end of the input.
#[verifier::opaque]
pub open spec fn spec_vcd_end(s: Seq<u8>) -> Outcome<Seq<u8>> {
    match spec_tag(s, "$end".spec_bytes()) {
        Outcome::Match { len, value } => {
            let n = run_len(s.skip(len as int), ByteClass::Space);
            if n > 0 {
                Outcome::Match { len: len + n, value }
            } else if len == s.len() {
                Outcome::Incomplete
            } else {
                Outcome::Failure
            }
        },
        Outcome::Incomplete => Outcome::Incomplete,
        Outcome::Failure => Outcome::Failure,
    }
}

/// Parses the form that [`spec_vcd_end`] describes.
pub fn vcd_end<'a>(input: &'a [u8]) -> (res: Result<(&'a [u8], &'a [u8]), GrammarError>)
    ensures
        yields(res, input@, spec_vcd_end(input@)),
{
    proof {
        reveal(spec_vcd_end);
    }
    let (rest, word) = tag(input, "$end")?;
    match fill_ws1(rest) {
        Ok((after, spaces)) => {
            proof {
                lemma_skip_twice(input@, word@.len(), spaces@.len());
            }
            Ok((after, word))
        },
        Err(_) => {
            if rest.len() == 0 {
                Err(GrammarError::Incomplete)
            } else {
                Err(GrammarError::Failure)
            }
        },
    }
}

/// Everything up to and including the next `$end` token. A `$` that does not
/// begin such a token is passed over.
#[verifier::opaque]
pub open spec fn spec_skip_until_vcd_end(s: Seq<u8>) -> Outcome<()>
    decreases s.len(),
{
    let body = run_len(s, ByteClass::Body);
    if body >= s.len() {
        Outcome::Incomplete
    } else {
        match spec_vcd_end(s.skip(body as int)) {
            Outcome::Match { len, value: _ } => Outcome::Match { len: body + len, value: () },
            Outcome::Incomplete => Outcome::Incomplete,
            Outcome::Failure => shifted(
                spec_skip_until_vcd_end(s.skip((body + 1) as int)),
                body + 1,
            ),
        }
    }
}

/// Parses the form that [`spec_skip_until_vcd_end`] describes.
pub fn skip_until_vcd_end<'a>(input: &'a [u8]) -> (res: Result<(&'a [u8], ()), GrammarError>)
    ensures
        yields(res, input@, spec_skip_until_vcd_end(input@)),
{
    proof {
        reveal(spec_skip_until_vcd_end);
    }
    let mut window = input;
    let ghost mut passed: nat = 0;
    loop
        invariant
            passed <= input@.len(),
            window@ == input@.skip(passed as int),
            spec_skip_until_vcd_end(input@) == shifted(spec_skip_until_vcd_end(window@), passed),
        decreases window@.len(),
    {
        proof {
            reveal(spec_skip_until_vcd_end);
        }
        let (at_dollar, body) = take_run0(window, ByteClass::Body)?;
        match vcd_end(at_dollar) {
            Ok((rest, _)) => {
                proof {
                    lemma_skip_twice(
                        window@,
                        body@.len(),
                        (at_dollar@.len() - rest@.len()) as nat,
                    );
                    lemma_skip_twice(input@, passed, (window@.len() - rest@.len()) as nat);
                }
                return Ok((rest, ()));
            },
            Err(GrammarError::Incomplete) => {
                return Err(GrammarError::Incomplete);
            },
            Err(GrammarError::Failure) => {
                let (rest, _) = split(at_dollar, 1);
                proof {
                    lemma_skip_twice(window@, body@.len(), 1);
                    lemma_skip_twice(input@, passed, body@.len() + 1);
                    passed = passed + body@.len() + 1;
                }
                window = rest;
            },
        }
    }
}

/// A time record: `#`, decimal digits that fit in 64 bits, and at least one separator.
#[verifier::opaque]
pub open spec fn spec_vcd_cycle(s: Seq<u8>) -> Outcome<u64> {
    match spec_byte(s, '#' as u8) {
        Outcome::Match { len: _, value: _ } => match then_fill1(
            spec_take_run1(s.skip(1), ByteClass::Digit),
            s.skip(1),
        ) {
            Outcome::Match { len, value } => if decimal(value) <= u64::MAX {
                Outcome::Match { len: 1 + len, value: decimal(value) as u64 }
            } else {
                Outcome::Failure
            },
            Outcome::Incomplete => Outcome::Incomplete,
            Outcome::Failure => Outcome::Failure,
        },
        Outcome::Incomplete => Outcome::Incomplete,
        Outcome::Failure => Outcome::Failure,
    }
}

/// Parses the form that [`spec_vcd_cycle`] describes.
pub fn vcd_cycle<'a>(input: &'a [u8]) -> (res: Result<(&'a [u8], u64), GrammarError>)
    ensures
        yields(res, input@, spec_vcd_cycle(input@)),
{
    proof {
        reveal(spec_vcd_cycle);
    }
    let (body, _) = byte(input, '#' as u8)?;
    let (rest, digits) = take_run1(body, ByteClass::Digit)?;
    let (rest, spaces) = fill_ws1(rest)?;
    proof {
        lemma_run_len_bounds(body@, ByteClass::Digit);
        lemma_skip_twice(body@, digits@.len(), spaces@.len());
        lemma_skip_twice(input@, 1, digits@.len() + spaces@.len());
    }
    match parse_decimal(digits, 0xffff_ffff_ffff_ffff) {
        Some(value) => Ok((rest, value)),
        None => Err(GrammarError::Failure),
    }
}

/// The identifier of a variable in a value change: a run of token bytes and at
/// least one separator.
#[verifier::opaque]
pub open spec fn spec_vcd_varid(s: Seq<u8>) -> Outcome<Seq<u8>> {
    then_fill1(spec_take_run1(s, ByteClass::Token), s)
}

/// Parses the form that [`spec_vcd_varid`] describes.
pub fn vcd_varid<'a>(input: &'a [u8]) -> (res: Result<(&'a [u8], &'a [u8]), GrammarError>)
    ensures
        yields(res, input@, spec_vcd_varid(input@)),
{
    proof {
        reveal(spec_vcd_varid);
    }
    let (rest, id) = take_run1(input, ByteClass::Token)?;
    let (rest, spaces) = fill_ws1(rest)?;
    proof {
        lemma_run_len_bounds(input@, ByteClass::Token);
        lemma_skip_twice(input@, id@.len(), spaces@.len());
    }
    Ok((rest, id))
}

/// A one-bit value change: a wire value, then separators if any, then the identifier.
#[verifier::opaque]
pub open spec fn spec_vcd_bit_change(s: Seq<u8>) -> Outcome<(char, Seq<u8>)> {
    match then_spaces0(spec_one_of(s, ByteClass::Bit), s) {
        Outcome::Match { len, value } => match spec_vcd_varid(s.skip(len as int)) {
            Outcome::Match { len: id_len, value: id } => Outcome::Match {
                len: len + id_len,
                value: (value as char, id),
            },
            Outcome::Incomplete => Outcome::Incomplete,
            Outcome::Failure => Outcome::Failure,
        },
        Outcome::Incomplete => Outcome::Incomplete,
        Outcome::Failure => Outcome::Failure,
    }
}

/// Parses the form that [`spec_vcd_bit_change`] describes.
pub fn vcd_bit_change<'a>(input: &'a [u8]) -> (res: Result<
    (&'a [u8], (char, &'a [u8])),
    GrammarError,
>)
    ensures
        yields(res, input@, spec_vcd_bit_change(input@)),
{
    proof {
        reveal(spec_vcd_bit_change);
    }
    let (rest, bit) = one_of(input, ByteClass::Bit)?;
    let (rest, spaces) = take_run0(rest, ByteClass::Space)?;
    let ghost len = 1 + spaces@.len();
    proof {
        lemma_skip_twice(input@, 1, spaces@.len());
    }
    let (after, id) = vcd_varid(rest)?;
    proof {
        lemma_skip_twice(input@, len, (rest@.len() - after@.len()) as nat);
    }
    Ok((after, (bit as char, id)))
}

/// The wire values of a vector and the separators behind them.
#[verifier::opaque]
pub open spec fn spec_vcd_bits(s: Seq<u8>) -> Outcome<Seq<u8>> {
    then_spaces0(spec_take_run1(s, ByteClass::Bit), s)
}

/// Parses the form that [`spec_vcd_bits`] describes.
pub fn vcd_bits<'a>(input: &'a [u8]) -> (res: Result<(&'a [u8], &'a [u8]), GrammarError>)
    ensures
        yields(res, input@, spec_vcd_bits(input@)),
{
    proof {
        reveal(spec_vcd_bits);
    }
    let (rest, bits) = take_run1(input, ByteClass::Bit)?;
    let (rest, spaces) = take_run0(rest, ByteClass::Space)?;
    proof {
        lemma_run_len_bounds(input@, ByteClass::Bit);
        lemma_skip_twice(input@, bits@.len(), spaces@.len());
    }
    Ok((rest, bits))
}

/// A vector value change: `b`, the wire values, the identifier; separators may
/// stand after the `b` and must stand before the identifier unless the values
/// end at a byte that is no wire value.
#[verifier::opaque]
pub open spec fn spec_vcd_vec_change(s: Seq<u8>) -> Outcome<(Seq<u8>, Seq<u8>)> {
    match spec_mark(s, 'b' as u8) {
        Outcome::Match { len, value: _ } => match spec_vcd_bits(s.skip(len as int)) {
            Outcome::Match { len: bits_len, value: bits } => match spec_vcd_varid(
                s.skip((len + bits_len) as int),
            ) {
                Outcome::Match { len: id_len, value: id } => Outcome::Match {
                    len: len + bits_len + id_len,
                    value: (bits, id),
                },
                Outcome::Incomplete => Outcome::Incomplete,
                Outcome::Failure => Outcome::Failure,
            },
            Outcome::Incomplete => Outcome::Incomplete,
            Outcome::Failure => Outcome::Failure,
        },
        Outcome::Incomplete => Outcome::Incomplete,
        Outcome::Failure => Outcome::Failure,
    }
}

/// Parses the form that [`spec_vcd_vec_change`] describes.
pub fn vcd_vec_change<'a>(input: &'a [u8]) -> (res: Result<
    (&'a [u8], (&'a [u8], &'a [u8])),
    GrammarError,
>)
    ensures
        yields(res, input@, spec_vcd_vec_change(input@)),
{
    proof {
        reveal(spec_vcd_vec_change);
    }
    let (rest, _) = mark(input, 'b' as u8)?;
    let ghost len = (input@.len() - rest@.len()) as nat;
    let (after_bits, bits) = vcd_bits(rest)?;
    let ghost bits_len = (rest@.len() - after_bits@.len()) as nat;
    proof {
        lemma_skip_twice(input@, len, bits_len);
    }
    let (after, id) = vcd_varid(after_bits)?;
    proof {
        lemma_skip_twice(input@, len + bits_len, (after_bits@.len() - after@.len()) as nat);
    }
    Ok((after, (bits, id)))
}

/// An optional `+` or `-`: how many bytes it takes.
pub open spec fn spec_sign(s: Seq<u8>) -> Outcome<()> {
    if s.len() == 0 {
        Outcome::Incomplete
    } else if s[0] == '+' as u8 || s[0] == '-' as u8 {
        Outcome::Match { len: 1, value: () }
    } else {
        Outcome::Match { len: 0, value: () }
    }
}

/// The digits of a real number: digits with an optional `.` and more digits
/// behind them, or a `.` and digits.
#[verifier::opaque]
pub open spec fn spec_mantissa(s: Seq<u8>) -> Outcome<()> {
    match spec_take_run1(s, ByteClass::Digit) {
        Outcome::Match { len, value: _ } => if s[len as int] == '.' as u8 {
            match spec_take_run1(s.skip((len + 1) as int), ByteClass::Digit) {
                Outcome::Match { len: fraction, value: _ } => Outcome::Match {
                    len: len + 1 + fraction,
                    value: (),
                },
                Outcome::Incomplete => Outcome::Incomplete,
                Outcome::Failure => Outcome::Match { len: len + 1, value: () },
            }
        } else {
            Outcome::Match { len, value: () }
        },
        Outcome::Incomplete => Outcome::Incomplete,
        Outcome::Failure => if s[0] == '.' as u8 {
            match spec_take_run1(s.skip(1), ByteClass::Digit) {
                Outcome::Match { len: fraction, value: _ } => Outcome::Match {
                    len: 1 + fraction,
                    value: (),
                },
                Outcome::Incomplete => Outcome::Incomplete,
                Outcome::Failure => Outcome::Failure,
            }
        } else {
            Outcome::Failure
        },
    }
}

/// The optional exponent of a real number: `e` or `E`, an optional sign, and
/// digits, which must follow once the letter is there.
#[verifier::opaque]
pub open spec fn spec_exponent(s: Seq<u8>) -> Outcome<()> {
    if s.len() == 0 {
        Outcome::Incomplete
    } else if s[0] == 'e' as u8 || s[0] == 'E' as u8 {
        match spec_sign(s.skip(1)) {
            Outcome::Match { len: sign, value: _ } => match spec_take_run1(
                s.skip((1 + sign) as int),
                ByteClass::Digit,
            ) {
                Outcome::Match { len: digits, value: _ } => Outcome::Match {
                    len: 1 + sign + digits,
                    value: (),
                },
                Outcome::Incomplete => Outcome::Incomplete,
                Outcome::Failure => Outcome::Failure,
            },
            Outcome::Incomplete => Outcome::Incomplete,
            Outcome::Failure => Outcome::Failure,
        }
    } else {
        Outcome::Match { len: 0, value: () }
    }
}

/// The text of a real number in decimal notation: sign, digits, exponent.
#[verifier::opaque]
pub open spec fn spec_real_text(s: Seq<u8>) -> Outcome<Seq<u8>> {
    match spec_sign(s) {
        Outcome::Match { len: sign, value: _ } => match spec_mantissa(s.skip(sign as int)) {
            Outcome::Match { len: digits, value: _ } => match spec_exponent(
                s.skip((sign + digits) as int),
            ) {
                Outcome::Match { len: exponent, value: _ } => Outcome::Match {
                    len: sign + digits + exponent,
                    value: s.take((sign + digits + exponent) as int),
                },
                Outcome::Incomplete => Outcome::Incomplete,
                Outcome::Failure => Outcome::Failure,
            },
            Outcome::Incomplete => Outcome::Incomplete,
            Outcome::Failure => Outcome::Failure,
        },
        Outcome::Incomplete => Outcome::Incomplete,
        Outcome::Failure => Outcome::Failure,
    }
}

/// Parses the form that [`spec_sign`] describes.
pub fn sign<'a>(input: &'a [u8]) -> (res: Result<(&'a [u8], ()), GrammarError>)
    ensures
        yields(res, input@, spec_sign(input@)),
{
    if input.len() == 0 {
        Err(GrammarError::Incomplete)
    } else if input[0] == '+' as u8 || input[0] == '-' as u8 {
        Ok((split(input, 1).0, ()))
    } else {
        assert(input@.skip(0) =~= input@);
        Ok((input, ()))
    }
}

/// Parses the form that [`spec_mantissa`] describes.
pub fn mantissa<'a>(input: &'a [u8]) -> (res: Result<(&'a [u8], ()), GrammarError>)
    ensures
        yields(res, input@, spec_mantissa(input@)),
{
    proof {
        reveal(spec_mantissa);
    }
    match take_run1(input, ByteClass::Digit) {
        Ok((rest, digits)) => {
            proof {
                lemma_run_len_bounds(input@, ByteClass::Digit);
            }
            if rest[0] == '.' as u8 {
                let (after_dot, _) = split(rest, 1);
                proof {
                    lemma_skip_twice(input@, digits@.len(), 1);
                }
                match take_run1(after_dot, ByteClass::Digit) {
                    Ok((after, fraction)) => {
                        proof {
                            lemma_run_len_bounds(after_dot@, ByteClass::Digit);
                            lemma_skip_twice(input@, digits@.len() + 1, fraction@.len());
                        }
                        Ok((after, ()))
                    },
                    Err(GrammarError::Incomplete) => Err(GrammarError::Incomplete),
                    Err(GrammarError::Failure) => Ok((after_dot, ())),
                }
            } else {
                Ok((rest, ()))
            }
        },
        Err(GrammarError::Incomplete) => Err(GrammarError::Incomplete),
        Err(GrammarError::Failure) => {
            if input[0] == '.' as u8 {
                let (after_dot, _) = split(input, 1);
                let (after, fraction) = take_run1(after_dot, ByteClass::Digit)?;
                proof {
                    lemma_run_len_bounds(after_dot@, ByteClass::Digit);
                    lemma_skip_twice(input@, 1, fraction@.len());
                }
                Ok((after, ()))
            } else {
                Err(GrammarError::Failure)
            }
        },
    }
}

/// Parses the form that [`spec_exponent`] describes.
pub fn exponent<'a>(input: &'a [u8]) -> (res: Result<(&'a [u8], ()), GrammarError>)
    ensures
        yields(res, input@, spec_exponent(input@)),
{
    proof {
        reveal(spec_exponent);
    }
    if input.len() == 0 {
        Err(GrammarError::Incomplete)
    } else if input[0] == 'e' as u8 || input[0] == 'E' as u8 {
        let (after_letter, _) = split(input, 1);
        let (after_sign, _) = sign(after_letter)?;
        let ghost sign_len = (after_letter@.len() - after_sign@.len()) as nat;
        proof {
            lemma_skip_twice(input@, 1, sign_len);
        }
        let (after, digits) = take_run1(after_sign, ByteClass::Digit)?;
        proof {
            lemma_run_len_bounds(after_sign@, ByteClass::Digit);
            lemma_skip_twice(input@, 1 + sign_len, digits@.len());
        }
        Ok((after, ()))
    } else {
        assert(input@.skip(0) =~= input@);
        Ok((input, ()))
    }
}

/// Parses the form that [`spec_real_text`] describes.
pub fn real_text<'a>(input: &'a [u8]) -> (res: Result<(&'a [u8], &'a [u8]), GrammarError>)
    ensures
        yields(res, input@, spec_real_text(input@)),
{
    proof {
        reveal(spec_real_text);
    }
    let (after_sign, _) = sign(input)?;
    let ghost sign_len = (input@.len() - after_sign@.len()) as nat;
    let (after_digits, _) = mantissa(after_sign)?;
    let ghost digits = (after_sign@.len() - after_digits@.len()) as nat;
    proof {
        lemma_skip_twice(input@, sign_len, digits);
    }
    let (after, _) = exponent(after_digits)?;
    proof {
        lemma_skip_twice(input@, sign_len + digits, (after_digits@.len() - after@.len()) as nat);
    }
    let len = input.len() - after.len();
    Ok(split(input, len))
}

/// A real value change: `r`, the number, the identifier, with separators
/// allowed after the `r` and after the number.
#[verifier::opaque]
pub open spec fn spec_vcd_real_change(s: Seq<u8>) -> Outcome<(Seq<u8>, Seq<u8>)> {
    match spec_mark(s, 'r' as u8) {
        Outcome::Match { len, value: _ } => match then_spaces0(
            spec_real_text(s.skip(len as int)),
            s.skip(len as int),
        ) {
            Outcome::Match { len: text_len, value: text } => match spec_vcd_varid(
                s.skip((len + text_len) as int),
            ) {
                Outcome::Match { len: id_len, value: id } => Outcome::Match {
                    len: len + text_len + id_len,
                    value: (text, id),
                },
                Outcome::Incomplete => Outcome::Incomplete,
                Outcome::Failure => Outcome::Failure,
            },
            Outcome::Incomplete => Outcome::Incomplete,
            Outcome::Failure => Outcome::Failure,
        },
        Outcome::Incomplete => Outcome::Incomplete,
        Outcome::Failure => Outcome::Failure,
    }
}

/// Parses the form that [`spec_vcd_real_change`] describes.
pub fn vcd_real_change<'a>(input: &'a [u8]) -> (res: Result<
    (&'a [u8], (&'a [u8], &'a [u8])),
    GrammarError,
>)
    ensures
        yields(res, input@, spec_vcd_real_change(input@)),
{
    proof {
        reveal(spec_vcd_real_change);
    }
    let (rest, _) = mark(input, 'r' as u8)?;
    let ghost len = (input@.len() - rest@.len()) as nat;
    let (after_text, text) = real_text(rest)?;
    let (after_spaces, spaces) = take_run0(after_text, ByteClass::Space)?;
    let ghost text_len = (rest@.len() - after_spaces@.len()) as nat;
    proof {
        lemma_skip_twice(rest@, (rest@.len() - after_text@.len()) as nat, spaces@.len());
        lemma_skip_twice(input@, len, text_len);
    }
    let (after, id) = vcd_varid(after_spaces)?;
    proof {
        lemma_skip_twice(input@, len + text_len, (after_spaces@.len() - after@.len()) as nat);
    }
    Ok((after, (text, id)))
}

/// A value change: of one bit, else of a vector, else of a real.
#[verifier::opaque]
pub open spec fn spec_vcd_change(s: Seq<u8>) -> Outcome<ChangeView> {
    match spec_vcd_bit_change(s) {
        Outcome::Match { len, value } => Outcome::Match {
            len,
            value: ChangeView { var_id: value.1, value: ValueView::Bit(value.0) },
        },
        Outcome::Incomplete => Outcome::Incomplete,
        Outcome::Failure => match spec_vcd_vec_change(s) {
            Outcome::Match { len, value } => Outcome::Match {
                len,
                value: ChangeView { var_id: value.1, value: ValueView::Vector(value.0) },
            },
            Outcome::Incomplete => Outcome::Incomplete,
            Outcome::Failure => match spec_vcd_real_change(s) {
                Outcome::Match { len, value } => Outcome::Match {
                    len,
                    value: ChangeView { var_id: value.1, value: ValueView::Real(value.0) },
                },
                Outcome::Incomplete => Outcome::Incomplete,
                Outcome::Failure => Outcome::Failure,
            },
        },
    }
}

/// Parses the form that [`spec_vcd_change`] describes.
pub fn vcd_change<'a>(input: &'a [u8]) -> (res: Result<(&'a [u8], VcdChange<'a>), GrammarError>)
    ensures
        yields(res, input@, spec_vcd_change(input@)),
{
    proof {
        reveal(spec_vcd_change);
    }
    match vcd_bit_change(input) {
        Ok((rest, (bit, var_id))) => {
            return Ok((rest, VcdChange { var_id, value: VcdValue::Bit(bit) }));
        },
        Err(GrammarError::Incomplete) => {
            return Err(GrammarError::Incomplete);
        },
        Err(GrammarError::Failure) => {},
    }
    match vcd_vec_change(input) {
        Ok((rest, (bits, var_id))) => {
            return Ok((rest, VcdChange { var_id, value: VcdValue::Vector(bits) }));
        },
        Err(GrammarError::Incomplete) => {
            return Err(GrammarError::Incomplete);
        },
        Err(GrammarError::Failure) => {},
    }
    let (rest, (text, var_id)) = vcd_real_change(input)?;
    Ok((rest, VcdChange { var_id, value: VcdValue::Real(text) }))
}

/// The name of a directive in a body: `$`, letters and digits, and at least one separator.
#[verifier::opaque]
pub open spec fn spec_directive_name(s: Seq<u8>) -> Outcome<Seq<u8>> {
    match spec_byte(s, '$' as u8) {
        Outcome::Match { len: _, value: _ } => shifted(
            then_fill1(spec_take_run1(s.skip(1), ByteClass::Alnum), s.skip(1)),
            1,
        ),
        Outcome::Incomplete => Outcome::Incomplete,
        Outcome::Failure => Outcome::Failure,
    }
}

/// Parses the form that [`spec_directive_name`] describes.
pub fn directive_name<'a>(input: &'a [u8]) -> (res: Result<(&'a [u8], &'a [u8]), GrammarError>)
    ensures
        yields(res, input@, spec_directive_name(input@)),
{
    proof {
        reveal(spec_directive_name);
    }
    let (body, _) = byte(input, '$' as u8)?;
    let (rest, name) = take_run1(body, ByteClass::Alnum)?;
    let (rest, spaces) = fill_ws1(rest)?;
    proof {
        lemma_run_len_bounds(body@, ByteClass::Alnum);
        lemma_skip_twice(body@, name@.len(), spaces@.len());
        lemma_skip_twice(input@, 1, name@.len() + spaces@.len());
    }
    Ok((rest, name))
}

/// A directive in a body. `$end` is a record of its own. A `$comment` takes its
/// text with it, up to and including the `$end`. Of any other directive only
/// the name is taken: what follows it is read as records.
#[verifier::opaque]
pub open spec fn spec_vcd_directive(s: Seq<u8>) -> Outcome<CommandView> {
    match spec_directive_name(s) {
        Outcome::Match { len, value: name } => if name == "end".spec_bytes() {
            Outcome::Match { len, value: CommandView::VcdEnd }
        } else if name == "comment".spec_bytes() {
            match spec_skip_until_vcd_end(s.skip(len as int)) {
                Outcome::Match { len: text, value: _ } => Outcome::Match {
                    len: len + text,
                    value: CommandView::Directive(name),
                },
                Outcome::Incomplete => Outcome::Incomplete,
                Outcome::Failure => Outcome::Failure,
            }
        } else {
            Outcome::Match { len, value: CommandView::Directive(name) }
        },
        Outcome::Incomplete => Outcome::Incomplete,
        Outcome::Failure => Outcome::Failure,
    }
}

/// Parses the form that [`spec_vcd_directive`] describes.
pub fn vcd_directive<'a>(input: &'a [u8]) -> (res: Result<(&'a [u8], VcdCommand<'a>), GrammarError>)
    ensures
        yields(res, input@, spec_vcd_directive(input@)),
{
    proof {
        reveal(spec_vcd_directive);
    }
    let (rest, name) = directive_name(input)?;
    if is_word(name, "end") {
        Ok((rest, VcdCommand::VcdEnd))
    } else if is_word(name, "comment") {
        let (after, _) = skip_until_vcd_end(rest)?;
        proof {
            lemma_skip_twice(
                input@,
                (input@.len() - rest@.len()) as nat,
                (rest@.len() - after@.len()) as nat,
            );
        }
        Ok((after, VcdCommand::Directive(name)))
    } else {
        Ok((rest, VcdCommand::Directive(name)))
    }
}

/// The next record of a body: a value change, else a time record, else a directive.
#[verifier::opaque]
pub open spec fn spec_vcd_command(s: Seq<u8>) -> Outcome<CommandView> {
    match spec_vcd_change(s) {
        Outcome::Match { len, value } => Outcome::Match {
            len,
            value: CommandView::ValueChange(value),
        },
        Outcome::Incomplete => Outcome::Incomplete,
        Outcome::Failure => match spec_vcd_cycle(s) {
            Outcome::Match { len, value } => Outcome::Match {
                len,
                value: CommandView::SetCycle(value),
            },
            Outcome::Incomplete => Outcome::Incomplete,
            Outcome::Failure => spec_vcd_directive(s),
        },
    }
}

/// Parses the form that [`spec_vcd_command`] describes.
pub fn vcd_command<'a>(input: &'a [u8]) -> (res: Result<(&'a [u8], VcdCommand<'a>), GrammarError>)
    ensures
        yields(res, input@, spec_vcd_command(input@)),
{
    proof {
        reveal(spec_vcd_command);
    }
    match vcd_change(input) {
        Ok((rest, change)) => {
            return Ok((rest, VcdCommand::ValueChange(change)));
        },
        Err(GrammarError::Incomplete) => {
            return Err(GrammarError::Incomplete);
        },
        Err(GrammarError::Failure) => {},
    }
    match vcd_cycle(input) {
        Ok((rest, time)) => {
            return Ok((rest, VcdCommand::SetCycle(time)));
        },
        Err(GrammarError::Incomplete) => {
            return Err(GrammarError::Incomplete);
        },
        Err(GrammarError::Failure) => {},
    }
    vcd_directive(input)
}

} // verus!
