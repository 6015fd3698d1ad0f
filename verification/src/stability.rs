//! What a parser has decided it does not take back: once it matches or fails
//! on some bytes, it answers the same however the input goes on. Only the
//! separators behind a record may run on into the bytes that follow.

use crate::extent::{
    lemma_directive_name_within, lemma_header_name_within, lemma_mantissa_within,
    lemma_mark_within, lemma_number_within, lemma_range_body_within, lemma_real_text_within,
    lemma_run_within, lemma_then_within, lemma_var_name_within, lemma_var_range_within,
    lemma_var_width_within, lemma_vcd_bits_within, lemma_vcd_word_within,
};
use crate::grammar::{
    spec_directive_name, spec_exponent, spec_mantissa, spec_mark, spec_number, spec_range_body,
    spec_real_text, spec_sign, spec_skip_until_vcd_end, spec_var_name, spec_var_range,
    spec_var_width, spec_vcd_bit_change, spec_vcd_bits, spec_vcd_change, spec_vcd_command,
    spec_vcd_cycle, spec_vcd_directive, spec_vcd_end, spec_vcd_real_change, spec_vcd_varid,
    spec_vcd_vec_change, spec_vcd_word, then_fill1, then_spaces0, then_spaces1,
};
use crate::header::{
    spec_closed, spec_header_body, spec_header_directive, spec_header_name, spec_optional_range,
    spec_scope_body, spec_var_body, DirectiveView,
};
use crate::scan::{
    grown, lemma_run_len_bounds, lemma_run_len_is, run_len, spec_byte, spec_one_of, spec_tag,
    spec_take_run0, spec_take_run1, ByteClass, Outcome,
};
use vstd::prelude::*;
use vstd::string::StringSliceAdditionalSpecFns;

verus! {

/// Skipping inside the first of two joined sequences.
pub proof fn lemma_skip_concat(w: Seq<u8>, ext: Seq<u8>, a: nat)
    requires
        a <= w.len(),
    ensures
        (w + ext).skip(a as int) == w.skip(a as int) + ext,
{
    assert((w + ext).skip(a as int) =~= w.skip(a as int) + ext);
}

/// A run that ends inside `w` ends there whatever follows; one that reaches
/// the end of `w` goes on into what follows.
pub proof fn lemma_run_ext(w: Seq<u8>, ext: Seq<u8>, class: ByteClass)
    ensures
        run_len(w + ext, class) == if run_len(w, class) < w.len() {
            run_len(w, class)
        } else {
            w.len() + run_len(ext, class)
        },
{
    lemma_run_len_bounds(w, class);
    lemma_run_len_bounds(ext, class);
    let n = if run_len(w, class) < w.len() {
        run_len(w, class)
    } else {
        w.len() + run_len(ext, class)
    };
    let joined = w + ext;
    assert forall|k: int| 0 <= k < n implies class.contains(#[trigger] joined[k]) by {
        if k < w.len() {
            assert(joined[k] == w[k]);
        } else {
            assert(joined[k] == ext[k - w.len()]);
        }
    }
    if n < joined.len() {
        if n < w.len() {
            assert(joined[n as int] == w[n as int]);
        } else {
            assert(joined[n as int] == ext[n - w.len()]);
        }
    }
    lemma_run_len_is(joined, class, n);
}

/// A run that was seen to end is the same run when more bytes follow.
pub proof fn lemma_take_run_stable(w: Seq<u8>, ext: Seq<u8>, class: ByteClass)
    ensures
        !(spec_take_run0(w, class) is Incomplete) ==> spec_take_run0(w + ext, class)
            == spec_take_run0(w, class),
        !(spec_take_run1(w, class) is Incomplete) ==> spec_take_run1(w + ext, class)
            == spec_take_run1(w, class),
        spec_take_run1(w, class) matches Outcome::Match { len, value: _ } ==> len < w.len(),
        spec_take_run0(w, class) matches Outcome::Match { len, value: _ } ==> len < w.len(),
{
    lemma_run_ext(w, ext, class);
    lemma_run_len_bounds(w, class);
    let n = run_len(w, class);
    if n < w.len() {
        assert((w + ext).take(n as int) =~= w.take(n as int));
    }
}

/// What was decided on the first byte stays decided when more bytes follow.
pub proof fn lemma_first_byte_stable(w: Seq<u8>, ext: Seq<u8>, class: ByteClass, b: u8)
    ensures
        !(spec_one_of(w, class) is Incomplete) ==> spec_one_of(w + ext, class) == spec_one_of(
            w,
            class,
        ),
        !(spec_byte(w, b) is Incomplete) ==> spec_byte(w + ext, b) == spec_byte(w, b),
        !(spec_sign(w) is Incomplete) ==> spec_sign(w + ext) == spec_sign(w),
{
    if w.len() > 0 {
        assert((w + ext)[0] == w[0]);
    }
}

/// A literal that matched or failed does so when more bytes follow.
pub proof fn lemma_tag_stable(w: Seq<u8>, ext: Seq<u8>, word: Seq<u8>)
    ensures
        !(spec_tag(w, word) is Incomplete) ==> spec_tag(w + ext, word) == spec_tag(w, word),
{
    let joined = w + ext;
    if w.len() >= word.len() {
        assert(joined.take(word.len() as int) =~= w.take(word.len() as int));
    } else if w != word.take(w.len() as int) {
        if joined.len() >= word.len() {
            if joined.take(word.len() as int) == word {
                assert forall|k: int| 0 <= k < w.len() implies w[k] == word[k] by {
                    assert(joined.take(word.len() as int)[k] == w[k]);
                }
                assert(w =~= word.take(w.len() as int));
            }
        } else {
            if joined == word.take(joined.len() as int) {
                assert forall|k: int| 0 <= k < w.len() implies w[k] == word[k] by {
                    assert(joined[k] == w[k]);
                }
                assert(w =~= word.take(w.len() as int));
            }
        }
    }
}

/// Separators behind a match that stays as it is.
pub proof fn lemma_then_stable<T>(first: Outcome<T>, w: Seq<u8>, ext: Seq<u8>)
    requires
        first.within(w),
    ensures
        !(then_spaces0(first, w) is Incomplete) ==> then_spaces0(first, w + ext) == then_spaces0(
            first,
            w,
        ),
        !(then_spaces1(first, w) is Incomplete) ==> then_spaces1(first, w + ext) == then_spaces1(
            first,
            w,
        ),
        (first matches Outcome::Match { len, value: _ } ==> len < w.len()) ==> then_fill1(
            first,
            w + ext,
        ) == grown(then_fill1(first, w), w, ext),
{
    if let Outcome::Match { len, value: _ } = first {
        lemma_skip_concat(w, ext, len);
        lemma_run_ext(w.skip(len as int), ext, ByteClass::Space);
        lemma_run_len_bounds(w.skip(len as int), ByteClass::Space);
    }
}

/// [`spec_number`] answers the same when more bytes follow.
pub proof fn lemma_number_stable(w: Seq<u8>, ext: Seq<u8>)
    ensures
        !(spec_number(w) is Incomplete) ==> spec_number(w + ext) == spec_number(w),
{
    reveal(spec_number);
    if w.len() > 0 {
        assert((w + ext)[0] == w[0]);
        let sign: nat = if w[0] == '-' as u8 {
            1
        } else {
            0
        };
        lemma_skip_concat(w, ext, sign);
        lemma_take_run_stable(w.skip(sign as int), ext, ByteClass::Digit);
    }
}

/// [`spec_var_width`] answers the same when more bytes follow.
pub proof fn lemma_var_width_stable(w: Seq<u8>, ext: Seq<u8>)
    ensures
        !(spec_var_width(w) is Incomplete) ==> spec_var_width(w + ext) == spec_var_width(w),
{
    reveal(spec_var_width);
    lemma_number_stable(w, ext);
    lemma_number_within(w);
    lemma_then_stable(spec_number(w), w, ext);
}

/// [`spec_mark`] answers the same when more bytes follow.
pub proof fn lemma_mark_stable(w: Seq<u8>, ext: Seq<u8>, b: u8)
    ensures
        !(spec_mark(w, b) is Incomplete) ==> spec_mark(w + ext, b) == spec_mark(w, b),
{
    reveal(spec_mark);
    lemma_first_byte_stable(w, ext, ByteClass::Space, b);
    lemma_then_stable(spec_byte(w, b), w, ext);
}

/// [`spec_range_body`] answers the same when more bytes follow.
pub proof fn lemma_range_body_stable(w: Seq<u8>, ext: Seq<u8>)
    ensures
        !(spec_range_body(w) is Incomplete) ==> spec_range_body(w + ext) == spec_range_body(w),
{
    reveal(spec_range_body);
    lemma_var_width_stable(w, ext);
    lemma_var_width_within(w);
    if let Outcome::Match { len, value: _ } = spec_var_width(w) {
        let rest = w.skip(len as int);
        lemma_skip_concat(w, ext, len);
        lemma_mark_stable(rest, ext, ':' as u8);
        lemma_mark_within(rest, ':' as u8);
        if let Outcome::Match { len: colon, value: _ } = spec_mark(rest, ':' as u8) {
            lemma_skip_concat(w, ext, len + colon);
            lemma_var_width_stable(w.skip((len + colon) as int), ext);
        }
    }
}

/// [`spec_var_range`] answers the same when more bytes follow.
pub proof fn lemma_var_range_stable(w: Seq<u8>, ext: Seq<u8>)
    ensures
        !(spec_var_range(w) is Incomplete) ==> spec_var_range(w + ext) == spec_var_range(w),
{
    reveal(spec_var_range);
    lemma_mark_stable(w, ext, '[' as u8);
    lemma_mark_within(w, '[' as u8);
    if let Outcome::Match { len, value: _ } = spec_mark(w, '[' as u8) {
        let rest = w.skip(len as int);
        lemma_skip_concat(w, ext, len);
        lemma_range_body_stable(rest, ext);
        lemma_range_body_within(rest);
        if let Outcome::Match { len: body, value: _ } = spec_range_body(rest) {
            lemma_skip_concat(w, ext, len + body);
            lemma_mark_stable(w.skip((len + body) as int), ext, ']' as u8);
        }
    }
}

/// [`spec_var_name`] answers the same when more bytes follow.
pub proof fn lemma_var_name_stable(w: Seq<u8>, ext: Seq<u8>)
    ensures
        !(spec_var_name(w) is Incomplete) ==> spec_var_name(w + ext) == spec_var_name(w),
{
    reveal(spec_var_name);
    if w.len() > 0 {
        assert((w + ext)[0] == w[0]);
        lemma_take_run_stable(w, ext, ByteClass::Name);
        lemma_run_within(w, ByteClass::Name);
        lemma_then_stable(spec_take_run1(w, ByteClass::Name), w, ext);
    }
}

/// [`spec_vcd_word`] answers the same when more bytes follow.
pub proof fn lemma_vcd_word_stable(w: Seq<u8>, ext: Seq<u8>)
    ensures
        !(spec_vcd_word(w) is Incomplete) ==> spec_vcd_word(w + ext) == spec_vcd_word(w),
{
    reveal(spec_vcd_word);
    lemma_take_run_stable(w, ext, ByteClass::Token);
    lemma_run_within(w, ByteClass::Token);
    lemma_then_stable(spec_take_run1(w, ByteClass::Token), w, ext);
}

/// [`spec_vcd_bits`] answers the same when more bytes follow.
pub proof fn lemma_vcd_bits_stable(w: Seq<u8>, ext: Seq<u8>)
    ensures
        !(spec_vcd_bits(w) is Incomplete) ==> spec_vcd_bits(w + ext) == spec_vcd_bits(w),
{
    reveal(spec_vcd_bits);
    lemma_take_run_stable(w, ext, ByteClass::Bit);
    lemma_run_within(w, ByteClass::Bit);
    lemma_then_stable(spec_take_run1(w, ByteClass::Bit), w, ext);
}

/// [`spec_vcd_end`] answers the same when more bytes follow.
pub proof fn lemma_vcd_end_stable(w: Seq<u8>, ext: Seq<u8>)
    ensures
        !(spec_vcd_end(w) is Incomplete) ==> spec_vcd_end(w + ext) == grown(
            spec_vcd_end(w),
            w,
            ext,
        ),
{
    reveal(spec_vcd_end);
    let word = "$end".spec_bytes();
    lemma_tag_stable(w, ext, word);
    if let Outcome::Match { len, value: _ } = spec_tag(w, word) {
        lemma_skip_concat(w, ext, len);
        lemma_run_ext(w.skip(len as int), ext, ByteClass::Space);
        lemma_run_len_bounds(w.skip(len as int), ByteClass::Space);
    }
}

/// [`spec_skip_until_vcd_end`] answers the same when more bytes follow.
pub proof fn lemma_skip_until_vcd_end_stable(w: Seq<u8>, ext: Seq<u8>)
    ensures
        !(spec_skip_until_vcd_end(w) is Incomplete) ==> spec_skip_until_vcd_end(w + ext) == grown(
            spec_skip_until_vcd_end(w),
            w,
            ext,
        ),
    decreases w.len(),
{
    reveal(spec_skip_until_vcd_end);
    lemma_run_ext(w, ext, ByteClass::Body);
    lemma_run_len_bounds(w, ByteClass::Body);
    let body = run_len(w, ByteClass::Body);
    if body < w.len() {
        lemma_skip_concat(w, ext, body);
        lemma_vcd_end_stable(w.skip(body as int), ext);
        crate::extent::lemma_vcd_end_within(w.skip(body as int));
        if spec_vcd_end(w.skip(body as int)) is Failure {
            lemma_skip_concat(w, ext, body + 1);
            lemma_skip_until_vcd_end_stable(w.skip((body + 1) as int), ext);
            crate::extent::lemma_skip_until_vcd_end_within(w.skip((body + 1) as int));
        }
    }
}

/// [`spec_vcd_cycle`] answers the same when more bytes follow.
pub proof fn lemma_vcd_cycle_stable(w: Seq<u8>, ext: Seq<u8>)
    ensures
        !(spec_vcd_cycle(w) is Incomplete) ==> spec_vcd_cycle(w + ext) == grown(
            spec_vcd_cycle(w),
            w,
            ext,
        ),
{
    reveal(spec_vcd_cycle);
    lemma_first_byte_stable(w, ext, ByteClass::Space, '#' as u8);
    if w.len() > 0 {
        let rest = w.skip(1);
        lemma_skip_concat(w, ext, 1);
        lemma_take_run_stable(rest, ext, ByteClass::Digit);
        lemma_run_within(rest, ByteClass::Digit);
        lemma_then_stable(spec_take_run1(rest, ByteClass::Digit), rest, ext);
        lemma_then_within(spec_take_run1(rest, ByteClass::Digit), rest);
    }
}

/// [`spec_vcd_varid`] answers the same when more bytes follow.
pub proof fn lemma_vcd_varid_stable(w: Seq<u8>, ext: Seq<u8>)
    ensures
        !(spec_vcd_varid(w) is Incomplete) ==> spec_vcd_varid(w + ext) == grown(
            spec_vcd_varid(w),
            w,
            ext,
        ),
{
    reveal(spec_vcd_varid);
    lemma_take_run_stable(w, ext, ByteClass::Token);
    lemma_run_within(w, ByteClass::Token);
    lemma_then_stable(spec_take_run1(w, ByteClass::Token), w, ext);
}

/// [`spec_vcd_bit_change`] answers the same when more bytes follow.
pub proof fn lemma_vcd_bit_change_stable(w: Seq<u8>, ext: Seq<u8>)
    ensures
        !(spec_vcd_bit_change(w) is Incomplete) ==> spec_vcd_bit_change(w + ext) == grown(
            spec_vcd_bit_change(w),
            w,
            ext,
        ),
{
    reveal(spec_vcd_bit_change);
    lemma_first_byte_stable(w, ext, ByteClass::Bit, 0);
    lemma_then_stable(spec_one_of(w, ByteClass::Bit), w, ext);
    lemma_then_within(spec_one_of(w, ByteClass::Bit), w);
    if let Outcome::Match { len, value: _ } = then_spaces0(spec_one_of(w, ByteClass::Bit), w) {
        lemma_skip_concat(w, ext, len);
        lemma_vcd_varid_stable(w.skip(len as int), ext);
        crate::extent::lemma_vcd_varid_within(w.skip(len as int));
    }
}

/// [`spec_vcd_vec_change`] answers the same when more bytes follow.
pub proof fn lemma_vcd_vec_change_stable(w: Seq<u8>, ext: Seq<u8>)
    ensures
        !(spec_vcd_vec_change(w) is Incomplete) ==> spec_vcd_vec_change(w + ext) == grown(
            spec_vcd_vec_change(w),
            w,
            ext,
        ),
{
    reveal(spec_vcd_vec_change);
    lemma_mark_stable(w, ext, 'b' as u8);
    lemma_mark_within(w, 'b' as u8);
    if let Outcome::Match { len, value: _ } = spec_mark(w, 'b' as u8) {
        let rest = w.skip(len as int);
        lemma_skip_concat(w, ext, len);
        lemma_vcd_bits_stable(rest, ext);
        lemma_vcd_bits_within(rest);
        if let Outcome::Match { len: bits, value: _ } = spec_vcd_bits(rest) {
            lemma_skip_concat(w, ext, len + bits);
            lemma_vcd_varid_stable(w.skip((len + bits) as int), ext);
            crate::extent::lemma_vcd_varid_within(w.skip((len + bits) as int));
        }
    }
}

/// [`spec_mantissa`] answers the same when more bytes follow.
pub proof fn lemma_mantissa_stable(w: Seq<u8>, ext: Seq<u8>)
    ensures
        !(spec_mantissa(w) is Incomplete) ==> spec_mantissa(w + ext) == spec_mantissa(w),
{
    reveal(spec_mantissa);
    lemma_take_run_stable(w, ext, ByteClass::Digit);
    lemma_run_len_bounds(w, ByteClass::Digit);
    match spec_take_run1(w, ByteClass::Digit) {
        Outcome::Match { len, value: _ } => {
            assert((w + ext)[len as int] == w[len as int]);
            lemma_skip_concat(w, ext, len + 1);
            lemma_take_run_stable(w.skip((len + 1) as int), ext, ByteClass::Digit);
        },
        Outcome::Incomplete => {},
        Outcome::Failure => {
            assert((w + ext)[0] == w[0]);
            lemma_skip_concat(w, ext, 1);
            lemma_take_run_stable(w.skip(1), ext, ByteClass::Digit);
        },
    }
}

/// [`spec_exponent`] answers the same when more bytes follow.
pub proof fn lemma_exponent_stable(w: Seq<u8>, ext: Seq<u8>)
    ensures
        !(spec_exponent(w) is Incomplete) ==> spec_exponent(w + ext) == spec_exponent(w),
{
    reveal(spec_exponent);
    if w.len() > 0 {
        assert((w + ext)[0] == w[0]);
        lemma_skip_concat(w, ext, 1);
        lemma_first_byte_stable(w.skip(1), ext, ByteClass::Space, 0);
        if let Outcome::Match { len: sign, value: _ } = spec_sign(w.skip(1)) {
            lemma_skip_concat(w, ext, 1 + sign);
            lemma_take_run_stable(w.skip((1 + sign) as int), ext, ByteClass::Digit);
        }
    }
}

/// [`spec_real_text`] answers the same when more bytes follow.
pub proof fn lemma_real_text_stable(w: Seq<u8>, ext: Seq<u8>)
    ensures
        !(spec_real_text(w) is Incomplete) ==> spec_real_text(w + ext) == spec_real_text(w),
{
    reveal(spec_real_text);
    lemma_first_byte_stable(w, ext, ByteClass::Space, 0);
    if let Outcome::Match { len: sign, value: _ } = spec_sign(w) {
        let rest = w.skip(sign as int);
        lemma_skip_concat(w, ext, sign);
        lemma_mantissa_stable(rest, ext);
        lemma_mantissa_within(rest);
        if let Outcome::Match { len: digits, value: _ } = spec_mantissa(rest) {
            lemma_skip_concat(w, ext, sign + digits);
            lemma_exponent_stable(w.skip((sign + digits) as int), ext);
            crate::extent::lemma_exponent_within(w.skip((sign + digits) as int));
            if let Outcome::Match { len: exponent, value: _ } = spec_exponent(
                w.skip((sign + digits) as int),
            ) {
                let total = (sign + digits + exponent) as int;
                assert((w + ext).take(total) =~= w.take(total));
            }
        }
    }
}

/// [`spec_vcd_real_change`] answers the same when more bytes follow.
pub proof fn lemma_vcd_real_change_stable(w: Seq<u8>, ext: Seq<u8>)
    ensures
        !(spec_vcd_real_change(w) is Incomplete) ==> spec_vcd_real_change(w + ext) == grown(
            spec_vcd_real_change(w),
            w,
            ext,
        ),
{
    reveal(spec_vcd_real_change);
    lemma_mark_stable(w, ext, 'r' as u8);
    lemma_mark_within(w, 'r' as u8);
    if let Outcome::Match { len, value: _ } = spec_mark(w, 'r' as u8) {
        let rest = w.skip(len as int);
        lemma_skip_concat(w, ext, len);
        lemma_real_text_stable(rest, ext);
        lemma_real_text_within(rest);
        lemma_then_stable(spec_real_text(rest), rest, ext);
        lemma_then_within(spec_real_text(rest), rest);
        if let Outcome::Match { len: text, value: _ } = then_spaces0(spec_real_text(rest), rest) {
            lemma_skip_concat(w, ext, len + text);
            lemma_vcd_varid_stable(w.skip((len + text) as int), ext);
            crate::extent::lemma_vcd_varid_within(w.skip((len + text) as int));
        }
    }
}

/// [`spec_vcd_change`] answers the same when more bytes follow.
pub proof fn lemma_vcd_change_stable(w: Seq<u8>, ext: Seq<u8>)
    ensures
        !(spec_vcd_change(w) is Incomplete) ==> spec_vcd_change(w + ext) == grown(
            spec_vcd_change(w),
            w,
            ext,
        ),
{
    reveal(spec_vcd_change);
    lemma_vcd_bit_change_stable(w, ext);
    lemma_vcd_vec_change_stable(w, ext);
    lemma_vcd_real_change_stable(w, ext);
}

/// [`spec_directive_name`] answers the same when more bytes follow.
pub proof fn lemma_directive_name_stable(w: Seq<u8>, ext: Seq<u8>)
    ensures
        !(spec_directive_name(w) is Incomplete) ==> spec_directive_name(w + ext) == grown(
            spec_directive_name(w),
            w,
            ext,
        ),
{
    reveal(spec_directive_name);
    lemma_first_byte_stable(w, ext, ByteClass::Space, '$' as u8);
    if w.len() > 0 {
        let rest = w.skip(1);
        lemma_skip_concat(w, ext, 1);
        lemma_take_run_stable(rest, ext, ByteClass::Alnum);
        lemma_run_within(rest, ByteClass::Alnum);
        lemma_then_stable(spec_take_run1(rest, ByteClass::Alnum), rest, ext);
        lemma_then_within(spec_take_run1(rest, ByteClass::Alnum), rest);
    }
}

/// [`spec_vcd_directive`] answers the same when more bytes follow.
pub proof fn lemma_vcd_directive_stable(w: Seq<u8>, ext: Seq<u8>)
    ensures
        !(spec_vcd_directive(w) is Incomplete) ==> spec_vcd_directive(w + ext) == grown(
            spec_vcd_directive(w),
            w,
            ext,
        ),
{
    reveal(spec_vcd_directive);
    reveal(spec_skip_until_vcd_end);
    lemma_directive_name_stable(w, ext);
    lemma_directive_name_within(w);
    if let Outcome::Match { len, value: _ } = spec_directive_name(w) {
        if len < w.len() {
            lemma_skip_concat(w, ext, len);
            lemma_skip_until_vcd_end_stable(w.skip(len as int), ext);
            crate::extent::lemma_skip_until_vcd_end_within(w.skip(len as int));
        } else {
            assert(w.skip(len as int).len() == 0);
        }
    }
}

/// A record that was parsed from some bytes is the record that is parsed
/// when more bytes follow.
pub proof fn lemma_vcd_command_stable(w: Seq<u8>, ext: Seq<u8>)
    ensures
        !(spec_vcd_command(w) is Incomplete) ==> spec_vcd_command(w + ext) == grown(
            spec_vcd_command(w),
            w,
            ext,
        ),
{
    reveal(spec_vcd_command);
    lemma_vcd_change_stable(w, ext);
    lemma_vcd_cycle_stable(w, ext);
    lemma_vcd_directive_stable(w, ext);
}

/// [`spec_header_name`] answers the same when more bytes follow.
pub proof fn lemma_header_name_stable(w: Seq<u8>, ext: Seq<u8>)
    ensures
        !(spec_header_name(w) is Incomplete) ==> spec_header_name(w + ext) == spec_header_name(w),
{
    reveal(spec_header_name);
    lemma_first_byte_stable(w, ext, ByteClass::Space, '$' as u8);
    if w.len() > 0 {
        let rest = w.skip(1);
        lemma_skip_concat(w, ext, 1);
        lemma_take_run_stable(rest, ext, ByteClass::Alnum);
        lemma_run_within(rest, ByteClass::Alnum);
        lemma_then_stable(spec_take_run1(rest, ByteClass::Alnum), rest, ext);
    }
}

/// [`spec_scope_body`] answers the same when more bytes follow.
pub proof fn lemma_scope_body_stable(w: Seq<u8>, ext: Seq<u8>)
    ensures
        !(spec_scope_body(w) is Incomplete) ==> spec_scope_body(w + ext) == grown(
            spec_scope_body(w),
            w,
            ext,
        ),
{
    reveal(spec_scope_body);
    lemma_vcd_word_stable(w, ext);
    lemma_vcd_word_within(w);
    if let Outcome::Match { len: a, value: _ } = spec_vcd_word(w) {
        let rest = w.skip(a as int);
        lemma_skip_concat(w, ext, a);
        lemma_vcd_word_stable(rest, ext);
        lemma_vcd_word_within(rest);
        if let Outcome::Match { len: b, value: _ } = spec_vcd_word(rest) {
            lemma_skip_concat(w, ext, a + b);
            lemma_vcd_end_stable(w.skip((a + b) as int), ext);
            crate::extent::lemma_vcd_end_within(w.skip((a + b) as int));
        }
    }
}

/// [`spec_optional_range`] answers the same when more bytes follow.
pub proof fn lemma_optional_range_stable(w: Seq<u8>, ext: Seq<u8>)
    ensures
        !(spec_optional_range(w) is Incomplete) ==> spec_optional_range(w + ext)
            == spec_optional_range(w),
{
    reveal(spec_optional_range);
    lemma_var_range_stable(w, ext);
}

/// [`spec_var_body`] answers the same when more bytes follow.
pub proof fn lemma_var_body_stable(w: Seq<u8>, ext: Seq<u8>)
    ensures
        !(spec_var_body(w) is Incomplete) ==> spec_var_body(w + ext) == grown(
            spec_var_body(w),
            w,
            ext,
        ),
{
    reveal(spec_var_body);
    lemma_vcd_word_stable(w, ext);
    lemma_vcd_word_within(w);
    if let Outcome::Match { len: a, value: _ } = spec_vcd_word(w) {
        let r1 = w.skip(a as int);
        lemma_skip_concat(w, ext, a);
        lemma_var_width_stable(r1, ext);
        lemma_var_width_within(r1);
        if let Outcome::Match { len: b, value: _ } = spec_var_width(r1) {
            let r2 = w.skip((a + b) as int);
            lemma_skip_concat(w, ext, a + b);
            lemma_vcd_word_stable(r2, ext);
            lemma_vcd_word_within(r2);
            if let Outcome::Match { len: c, value: _ } = spec_vcd_word(r2) {
                let r3 = w.skip((a + b + c) as int);
                lemma_skip_concat(w, ext, a + b + c);
                lemma_var_name_stable(r3, ext);
                lemma_var_name_within(r3);
                if let Outcome::Match { len: d, value: _ } = spec_var_name(r3) {
                    let r4 = w.skip((a + b + c + d) as int);
                    lemma_skip_concat(w, ext, a + b + c + d);
                    lemma_optional_range_stable(r4, ext);
                    reveal(spec_optional_range);
                    lemma_var_range_within(r4);
                    if let Outcome::Match { len: e, value: _ } = spec_optional_range(r4) {
                        let r5 = w.skip((a + b + c + d + e) as int);
                        lemma_skip_concat(w, ext, a + b + c + d + e);
                        lemma_vcd_end_stable(r5, ext);
                        crate::extent::lemma_vcd_end_within(r5);
                    }
                }
            }
        }
    }
}

/// [`spec_closed`] answers the same when more bytes follow, up to the separators behind it.
pub proof fn lemma_closed_stable(w: Seq<u8>, ext: Seq<u8>, value: DirectiveView)
    ensures
        !(spec_closed(w, value) is Incomplete) ==> spec_closed(w + ext, value) == grown(
            spec_closed(w, value),
            w,
            ext,
        ),
{
    lemma_vcd_end_stable(w, ext);
}

/// A header directive that was parsed from some bytes is the directive that
/// is parsed when more bytes follow.
pub proof fn lemma_header_directive_stable(sealed: bool, w: Seq<u8>, ext: Seq<u8>)
    ensures
        !(spec_header_directive(sealed, w) is Incomplete) ==> spec_header_directive(
            sealed,
            w + ext,
        ) == grown(spec_header_directive(sealed, w), w, ext),
{
    reveal(spec_header_directive);
    reveal(spec_header_body);
    lemma_header_name_stable(w, ext);
    lemma_header_name_within(w);
    if let Outcome::Match { len, value: _ } = spec_header_name(w) {
        let rest = w.skip(len as int);
        lemma_skip_concat(w, ext, len);
        lemma_closed_stable(rest, ext, DirectiveView::EndDefinitions);
        lemma_closed_stable(rest, ext, DirectiveView::Upscope);
        lemma_scope_body_stable(rest, ext);
        lemma_var_body_stable(rest, ext);
        lemma_skip_until_vcd_end_stable(rest, ext);
        crate::extent::lemma_vcd_end_within(rest);
        crate::extent::lemma_scope_body_within(rest);
        crate::extent::lemma_var_body_within(rest);
        crate::extent::lemma_skip_until_vcd_end_within(rest);
    }
}

} // verus!
