//! How far a form reaches: what a parser matches lies in its input, and the
//! records and directives are never empty.

use crate::grammar::{
    spec_directive_name, spec_exponent, spec_mantissa, spec_mark, spec_number, spec_range_body,
    spec_real_text, spec_sign, spec_skip_until_vcd_end, spec_var_name, spec_var_range,
    spec_var_width, spec_vcd_bit_change, spec_vcd_bits, spec_vcd_change, spec_vcd_command,
    spec_vcd_cycle, spec_vcd_directive, spec_vcd_end, spec_vcd_real_change, spec_vcd_varid,
    spec_vcd_vec_change, spec_vcd_word, then_fill1, then_spaces0, then_spaces1,
};
use crate::header::{
    spec_header_body, spec_header_directive, spec_header_name, spec_optional_range,
    spec_scope_body, spec_var_body,
};
use crate::scan::{
    lemma_run_len_bounds, spec_byte, spec_one_of, spec_tag, spec_take_run0, spec_take_run1,
    ByteClass, Outcome,
};
use vstd::prelude::*;
use vstd::string::StringSliceAdditionalSpecFns;

verus! {

/// A run of a class lies in the input.
pub proof fn lemma_run_within(s: Seq<u8>, class: ByteClass)
    ensures
        spec_take_run0(s, class).within(s),
        spec_take_run1(s, class).within(s),
        spec_take_run1(s, class).takes_bytes(),
{
    lemma_run_len_bounds(s, class);
}

/// Separators behind a match that lies in the input lie in the input too.
pub proof fn lemma_then_within<T>(first: Outcome<T>, s: Seq<u8>)
    requires
        first.within(s),
    ensures
        then_spaces0(first, s).within(s),
        then_spaces1(first, s).within(s),
        then_fill1(first, s).within(s),
        first.takes_bytes() ==> then_spaces0(first, s).takes_bytes() && then_spaces1(
            first,
            s,
        ).takes_bytes() && then_fill1(first, s).takes_bytes(),
{
    if let Outcome::Match { len, value: _ } = first {
        lemma_run_len_bounds(s.skip(len as int), ByteClass::Space);
    }
}

/// What [`spec_number`] matches lies in its input.
pub proof fn lemma_number_within(s: Seq<u8>)
    ensures
        spec_number(s).within(s),
        spec_number(s).takes_bytes(),
{
    reveal(spec_number);
    if s.len() > 0 {
        let sign: nat = if s[0] == '-' as u8 {
            1
        } else {
            0
        };
        lemma_run_within(s.skip(sign as int), ByteClass::Digit);
    }
}

/// What [`spec_var_width`] matches lies in its input.
pub proof fn lemma_var_width_within(s: Seq<u8>)
    ensures
        spec_var_width(s).within(s),
        spec_var_width(s).takes_bytes(),
{
    reveal(spec_var_width);
    lemma_number_within(s);
    lemma_then_within(spec_number(s), s);
}

/// What [`spec_mark`] matches lies in its input.
pub proof fn lemma_mark_within(s: Seq<u8>, b: u8)
    ensures
        spec_mark(s, b).within(s),
        spec_mark(s, b).takes_bytes(),
{
    reveal(spec_mark);
    lemma_then_within(spec_byte(s, b), s);
}

/// What [`spec_range_body`] matches lies in its input.
pub proof fn lemma_range_body_within(s: Seq<u8>)
    ensures
        spec_range_body(s).within(s),
{
    reveal(spec_range_body);
    lemma_var_width_within(s);
    if let Outcome::Match { len, value: _ } = spec_var_width(s) {
        let rest = s.skip(len as int);
        lemma_mark_within(rest, ':' as u8);
        if let Outcome::Match { len: colon, value: _ } = spec_mark(rest, ':' as u8) {
            lemma_var_width_within(s.skip((len + colon) as int));
        }
    }
}

/// What [`spec_var_range`] matches lies in its input.
pub proof fn lemma_var_range_within(s: Seq<u8>)
    ensures
        spec_var_range(s).within(s),
        spec_var_range(s).takes_bytes(),
{
    reveal(spec_var_range);
    lemma_mark_within(s, '[' as u8);
    if let Outcome::Match { len, value: _ } = spec_mark(s, '[' as u8) {
        lemma_range_body_within(s.skip(len as int));
        if let Outcome::Match { len: body, value: _ } = spec_range_body(s.skip(len as int)) {
            lemma_mark_within(s.skip((len + body) as int), ']' as u8);
        }
    }
}

/// What [`spec_var_name`] matches lies in its input.
pub proof fn lemma_var_name_within(s: Seq<u8>)
    ensures
        spec_var_name(s).within(s),
        spec_var_name(s).takes_bytes(),
{
    reveal(spec_var_name);
    lemma_run_within(s, ByteClass::Name);
    lemma_then_within(spec_take_run1(s, ByteClass::Name), s);
}

/// What [`spec_vcd_word`] matches lies in its input.
pub proof fn lemma_vcd_word_within(s: Seq<u8>)
    ensures
        spec_vcd_word(s).within(s),
        spec_vcd_word(s).takes_bytes(),
{
    reveal(spec_vcd_word);
    lemma_run_within(s, ByteClass::Token);
    lemma_then_within(spec_take_run1(s, ByteClass::Token), s);
}

/// What [`spec_vcd_end`] matches lies in its input.
pub proof fn lemma_vcd_end_within(s: Seq<u8>)
    ensures
        spec_vcd_end(s).within(s),
        spec_vcd_end(s).takes_bytes(),
{
    reveal(spec_vcd_end);
    if let Outcome::Match { len, value: _ } = spec_tag(s, "$end".spec_bytes()) {
        lemma_run_len_bounds(s.skip(len as int), ByteClass::Space);
    }
}

/// What [`spec_skip_until_vcd_end`] matches lies in its input.
pub proof fn lemma_skip_until_vcd_end_within(s: Seq<u8>)
    ensures
        spec_skip_until_vcd_end(s).within(s),
        spec_skip_until_vcd_end(s).takes_bytes(),
    decreases s.len(),
{
    reveal(spec_skip_until_vcd_end);
    lemma_run_len_bounds(s, ByteClass::Body);
    let body = crate::scan::run_len(s, ByteClass::Body);
    if body < s.len() {
        lemma_vcd_end_within(s.skip(body as int));
        lemma_skip_until_vcd_end_within(s.skip((body + 1) as int));
    }
}

/// What [`spec_vcd_cycle`] matches lies in its input.
pub proof fn lemma_vcd_cycle_within(s: Seq<u8>)
    ensures
        spec_vcd_cycle(s).within(s),
        spec_vcd_cycle(s).takes_bytes(),
{
    reveal(spec_vcd_cycle);
    if s.len() > 0 {
        lemma_run_within(s.skip(1), ByteClass::Digit);
        lemma_then_within(spec_take_run1(s.skip(1), ByteClass::Digit), s.skip(1));
    }
}

/// What [`spec_vcd_varid`] matches lies in its input.
pub proof fn lemma_vcd_varid_within(s: Seq<u8>)
    ensures
        spec_vcd_varid(s).within(s),
        spec_vcd_varid(s).takes_bytes(),
{
    reveal(spec_vcd_varid);
    lemma_run_within(s, ByteClass::Token);
    lemma_then_within(spec_take_run1(s, ByteClass::Token), s);
}

/// What [`spec_vcd_bit_change`] matches lies in its input.
pub proof fn lemma_vcd_bit_change_within(s: Seq<u8>)
    ensures
        spec_vcd_bit_change(s).within(s),
        spec_vcd_bit_change(s).takes_bytes(),
{
    reveal(spec_vcd_bit_change);
    lemma_then_within(spec_one_of(s, ByteClass::Bit), s);
    if let Outcome::Match { len, value: _ } = then_spaces0(spec_one_of(s, ByteClass::Bit), s) {
        lemma_vcd_varid_within(s.skip(len as int));
    }
}

/// What [`spec_vcd_bits`] matches lies in its input.
pub proof fn lemma_vcd_bits_within(s: Seq<u8>)
    ensures
        spec_vcd_bits(s).within(s),
{
    reveal(spec_vcd_bits);
    lemma_run_within(s, ByteClass::Bit);
    lemma_then_within(spec_take_run1(s, ByteClass::Bit), s);
}

/// What [`spec_vcd_vec_change`] matches lies in its input.
pub proof fn lemma_vcd_vec_change_within(s: Seq<u8>)
    ensures
        spec_vcd_vec_change(s).within(s),
        spec_vcd_vec_change(s).takes_bytes(),
{
    reveal(spec_vcd_vec_change);
    lemma_mark_within(s, 'b' as u8);
    if let Outcome::Match { len, value: _ } = spec_mark(s, 'b' as u8) {
        lemma_vcd_bits_within(s.skip(len as int));
        if let Outcome::Match { len: bits, value: _ } = spec_vcd_bits(s.skip(len as int)) {
            lemma_vcd_varid_within(s.skip((len + bits) as int));
        }
    }
}

/// What [`spec_mantissa`] matches lies in its input.
pub proof fn lemma_mantissa_within(s: Seq<u8>)
    ensures
        spec_mantissa(s).within(s),
{
    reveal(spec_mantissa);
    lemma_run_within(s, ByteClass::Digit);
    lemma_run_len_bounds(s, ByteClass::Digit);
    match spec_take_run1(s, ByteClass::Digit) {
        Outcome::Match { len, value: _ } => {
            lemma_run_within(s.skip((len + 1) as int), ByteClass::Digit);
        },
        Outcome::Incomplete => {},
        Outcome::Failure => {
            lemma_run_within(s.skip(1), ByteClass::Digit);
        },
    }
}

/// What [`spec_exponent`] matches lies in its input.
pub proof fn lemma_exponent_within(s: Seq<u8>)
    ensures
        spec_exponent(s).within(s),
{
    reveal(spec_exponent);
    if s.len() > 0 {
        if let Outcome::Match { len: sign, value: _ } = spec_sign(s.skip(1)) {
            lemma_run_within(s.skip((1 + sign) as int), ByteClass::Digit);
        }
    }
}

/// What [`spec_real_text`] matches lies in its input.
pub proof fn lemma_real_text_within(s: Seq<u8>)
    ensures
        spec_real_text(s).within(s),
{
    reveal(spec_real_text);
    if let Outcome::Match { len: sign, value: _ } = spec_sign(s) {
        lemma_mantissa_within(s.skip(sign as int));
        if let Outcome::Match { len: digits, value: _ } = spec_mantissa(s.skip(sign as int)) {
            lemma_exponent_within(s.skip((sign + digits) as int));
        }
    }
}

/// What [`spec_vcd_real_change`] matches lies in its input.
pub proof fn lemma_vcd_real_change_within(s: Seq<u8>)
    ensures
        spec_vcd_real_change(s).within(s),
        spec_vcd_real_change(s).takes_bytes(),
{
    reveal(spec_vcd_real_change);
    lemma_mark_within(s, 'r' as u8);
    if let Outcome::Match { len, value: _ } = spec_mark(s, 'r' as u8) {
        let rest = s.skip(len as int);
        lemma_real_text_within(rest);
        lemma_then_within(spec_real_text(rest), rest);
        if let Outcome::Match { len: text, value: _ } = then_spaces0(spec_real_text(rest), rest) {
            lemma_vcd_varid_within(s.skip((len + text) as int));
        }
    }
}

/// What [`spec_vcd_change`] matches lies in its input.
pub proof fn lemma_vcd_change_within(s: Seq<u8>)
    ensures
        spec_vcd_change(s).within(s),
        spec_vcd_change(s).takes_bytes(),
{
    reveal(spec_vcd_change);
    lemma_vcd_bit_change_within(s);
    lemma_vcd_vec_change_within(s);
    lemma_vcd_real_change_within(s);
}

/// What [`spec_directive_name`] matches lies in its input.
pub proof fn lemma_directive_name_within(s: Seq<u8>)
    ensures
        spec_directive_name(s).within(s),
        spec_directive_name(s).takes_bytes(),
{
    reveal(spec_directive_name);
    if s.len() > 0 {
        lemma_run_within(s.skip(1), ByteClass::Alnum);
        lemma_then_within(spec_take_run1(s.skip(1), ByteClass::Alnum), s.skip(1));
    }
}

/// What [`spec_vcd_directive`] matches lies in its input.
pub proof fn lemma_vcd_directive_within(s: Seq<u8>)
    ensures
        spec_vcd_directive(s).within(s),
        spec_vcd_directive(s).takes_bytes(),
{
    reveal(spec_vcd_directive);
    lemma_directive_name_within(s);
    if let Outcome::Match { len, value: _ } = spec_directive_name(s) {
        lemma_skip_until_vcd_end_within(s.skip(len as int));
    }
}

/// A record lies in the input and is never empty.
pub proof fn lemma_vcd_command_within(s: Seq<u8>)
    ensures
        spec_vcd_command(s).within(s),
        spec_vcd_command(s).takes_bytes(),
{
    reveal(spec_vcd_command);
    lemma_vcd_change_within(s);
    lemma_vcd_cycle_within(s);
    lemma_vcd_directive_within(s);
}

/// What [`spec_header_name`] matches lies in its input.
pub proof fn lemma_header_name_within(s: Seq<u8>)
    ensures
        spec_header_name(s).within(s),
        spec_header_name(s).takes_bytes(),
{
    reveal(spec_header_name);
    if s.len() > 0 {
        lemma_run_within(s.skip(1), ByteClass::Alnum);
        lemma_then_within(spec_take_run1(s.skip(1), ByteClass::Alnum), s.skip(1));
    }
}

/// What [`spec_scope_body`] matches lies in its input.
pub proof fn lemma_scope_body_within(s: Seq<u8>)
    ensures
        spec_scope_body(s).within(s),
{
    reveal(spec_scope_body);
    lemma_vcd_word_within(s);
    if let Outcome::Match { len: a, value: _ } = spec_vcd_word(s) {
        lemma_vcd_word_within(s.skip(a as int));
        if let Outcome::Match { len: b, value: _ } = spec_vcd_word(s.skip(a as int)) {
            lemma_vcd_end_within(s.skip((a + b) as int));
        }
    }
}

/// What [`spec_var_body`] matches lies in its input.
pub proof fn lemma_var_body_within(s: Seq<u8>)
    ensures
        spec_var_body(s).within(s),
{
    reveal(spec_var_body);
    reveal(spec_optional_range);
    lemma_vcd_word_within(s);
    if let Outcome::Match { len: a, value: _ } = spec_vcd_word(s) {
        lemma_var_width_within(s.skip(a as int));
        if let Outcome::Match { len: b, value: _ } = spec_var_width(s.skip(a as int)) {
            lemma_vcd_word_within(s.skip((a + b) as int));
            if let Outcome::Match { len: c, value: _ } = spec_vcd_word(s.skip((a + b) as int)) {
                lemma_var_name_within(s.skip((a + b + c) as int));
                if let Outcome::Match { len: d, value: _ } = spec_var_name(
                    s.skip((a + b + c) as int),
                ) {
                    lemma_var_range_within(s.skip((a + b + c + d) as int));
                    if let Outcome::Match { len: e, value: _ } = spec_optional_range(
                        s.skip((a + b + c + d) as int),
                    ) {
                        lemma_vcd_end_within(s.skip((a + b + c + d + e) as int));
                    }
                }
            }
        }
    }
}

/// A header directive lies in the input and is never empty.
pub proof fn lemma_header_directive_within(sealed: bool, s: Seq<u8>)
    ensures
        spec_header_directive(sealed, s).within(s),
        spec_header_directive(sealed, s).takes_bytes(),
{
    reveal(spec_header_directive);
    reveal(spec_header_body);
    lemma_header_name_within(s);
    if let Outcome::Match { len, value: _ } = spec_header_name(s) {
        let rest = s.skip(len as int);
        lemma_vcd_end_within(rest);
        lemma_scope_body_within(rest);
        lemma_var_body_within(rest);
        lemma_skip_until_vcd_end_within(rest);
    }
}

/// A match has taken the whitespace behind it: it ends at the end of the
/// input or before a byte that is no whitespace.
pub open spec fn closed_at<T>(o: Outcome<T>, s: Seq<u8>) -> bool {
    o matches Outcome::Match { len, value: _ } ==> len <= s.len() && (len == s.len()
        || !ByteClass::Space.contains(s[len as int]))
}

/// A match that is closed in what stands behind some bytes is closed in the whole.
pub proof fn lemma_closed_shift<T, U>(inner: Outcome<T>, outer: Outcome<U>, s: Seq<u8>, by: nat)
    requires
        by <= s.len(),
        closed_at(inner, s.skip(by as int)),
        outer matches Outcome::Match { len, value: _ } ==> inner matches Outcome::Match {
            len: inner_len,
            value: _,
        } && len == by + inner_len,
    ensures
        closed_at(outer, s),
{
    if let Outcome::Match { len, value: _ } = inner {
        if len < s.skip(by as int).len() {
            assert(s.skip(by as int)[len as int] == s[(by + len) as int]);
        }
    }
}

/// Whitespace that may run to the end of the input closes a match.
pub proof fn lemma_fill_closed<T>(first: Outcome<T>, s: Seq<u8>)
    requires
        first.within(s),
    ensures
        closed_at(then_fill1(first, s), s),
{
    if let Outcome::Match { len, value: _ } = first {
        let rest = s.skip(len as int);
        lemma_run_len_bounds(rest, ByteClass::Space);
        let n = crate::scan::run_len(rest, ByteClass::Space);
        if n < rest.len() {
            assert(rest[n as int] == s[(len + n) as int]);
        }
    }
}

/// [`spec_vcd_end`] takes the whitespace behind it.
pub proof fn lemma_vcd_end_closed(s: Seq<u8>)
    ensures
        closed_at(spec_vcd_end(s), s),
{
    reveal(spec_vcd_end);
    if let Outcome::Match { len, value: _ } = spec_tag(s, "$end".spec_bytes()) {
        let rest = s.skip(len as int);
        lemma_run_len_bounds(rest, ByteClass::Space);
        let n = crate::scan::run_len(rest, ByteClass::Space);
        if n < rest.len() {
            assert(rest[n as int] == s[(len + n) as int]);
        }
    }
}

/// [`spec_skip_until_vcd_end`] takes the whitespace behind it.
pub proof fn lemma_skip_until_vcd_end_closed(s: Seq<u8>)
    ensures
        closed_at(spec_skip_until_vcd_end(s), s),
    decreases s.len(),
{
    reveal(spec_skip_until_vcd_end);
    lemma_run_len_bounds(s, ByteClass::Body);
    let body = crate::scan::run_len(s, ByteClass::Body);
    if body < s.len() {
        let at = s.skip(body as int);
        lemma_vcd_end_closed(at);
        lemma_vcd_end_within(at);
        if !(spec_vcd_end(at) is Failure) {
            lemma_closed_shift(spec_vcd_end(at), spec_skip_until_vcd_end(s), s, body);
        } else {
            lemma_skip_until_vcd_end_closed(s.skip((body + 1) as int));
            lemma_skip_until_vcd_end_within(s.skip((body + 1) as int));
            lemma_closed_shift(
                spec_skip_until_vcd_end(s.skip((body + 1) as int)),
                spec_skip_until_vcd_end(s),
                s,
                body + 1,
            );
        }
    }
}

/// [`spec_vcd_varid`] takes the whitespace behind it.
pub proof fn lemma_vcd_varid_closed(s: Seq<u8>)
    ensures
        closed_at(spec_vcd_varid(s), s),
{
    reveal(spec_vcd_varid);
    lemma_run_within(s, ByteClass::Token);
    lemma_fill_closed(spec_take_run1(s, ByteClass::Token), s);
}

/// A record takes the whitespace behind it.
pub proof fn lemma_vcd_command_closed(s: Seq<u8>)
    ensures
        closed_at(spec_vcd_command(s), s),
{
    reveal(spec_vcd_command);
    reveal(spec_vcd_change);
    reveal(spec_vcd_bit_change);
    reveal(spec_vcd_vec_change);
    reveal(spec_vcd_real_change);
    reveal(spec_vcd_cycle);
    reveal(spec_vcd_directive);
    reveal(spec_directive_name);
    // one wire value
    lemma_then_within(spec_one_of(s, ByteClass::Bit), s);
    if let Outcome::Match { len, value: _ } = then_spaces0(spec_one_of(s, ByteClass::Bit), s) {
        lemma_vcd_varid_closed(s.skip(len as int));
        lemma_closed_shift(spec_vcd_varid(s.skip(len as int)), spec_vcd_bit_change(s), s, len);
    }
    // a vector
    lemma_mark_within(s, 'b' as u8);
    if let Outcome::Match { len, value: _ } = spec_mark(s, 'b' as u8) {
        lemma_vcd_bits_within(s.skip(len as int));
        if let Outcome::Match { len: bits, value: _ } = spec_vcd_bits(s.skip(len as int)) {
            lemma_vcd_varid_closed(s.skip((len + bits) as int));
            lemma_closed_shift(
                spec_vcd_varid(s.skip((len + bits) as int)),
                spec_vcd_vec_change(s),
                s,
                len + bits,
            );
        }
    }
    // a real
    lemma_mark_within(s, 'r' as u8);
    if let Outcome::Match { len, value: _ } = spec_mark(s, 'r' as u8) {
        let rest = s.skip(len as int);
        lemma_real_text_within(rest);
        lemma_then_within(spec_real_text(rest), rest);
        if let Outcome::Match { len: text, value: _ } = then_spaces0(spec_real_text(rest), rest) {
            lemma_vcd_varid_closed(s.skip((len + text) as int));
            lemma_closed_shift(
                spec_vcd_varid(s.skip((len + text) as int)),
                spec_vcd_real_change(s),
                s,
                len + text,
            );
        }
    }
    // a time and a directive
    if s.len() > 0 {
        let rest = s.skip(1);
        lemma_run_within(rest, ByteClass::Digit);
        lemma_fill_closed(spec_take_run1(rest, ByteClass::Digit), rest);
        lemma_closed_shift(
            then_fill1(spec_take_run1(rest, ByteClass::Digit), rest),
            spec_vcd_cycle(s),
            s,
            1,
        );
        lemma_run_within(rest, ByteClass::Alnum);
        lemma_fill_closed(spec_take_run1(rest, ByteClass::Alnum), rest);
        lemma_closed_shift(
            then_fill1(spec_take_run1(rest, ByteClass::Alnum), rest),
            spec_directive_name(s),
            s,
            1,
        );
        lemma_directive_name_within(s);
        if let Outcome::Match { len, value: name } = spec_directive_name(s) {
            if name != "end".spec_bytes() && name == "comment".spec_bytes() {
                lemma_skip_until_vcd_end_closed(s.skip(len as int));
                lemma_closed_shift(
                    spec_skip_until_vcd_end(s.skip(len as int)),
                    spec_vcd_directive(s),
                    s,
                    len,
                );
            }
        }
    }
}

/// A header directive takes the whitespace behind it.
pub proof fn lemma_header_directive_closed(sealed: bool, s: Seq<u8>)
    ensures
        closed_at(spec_header_directive(sealed, s), s),
{
    reveal(spec_header_directive);
    reveal(spec_header_body);
    reveal(spec_scope_body);
    reveal(spec_var_body);
    reveal(spec_optional_range);
    lemma_header_name_within(s);
    if let Outcome::Match { len, value: _ } = spec_header_name(s) {
        let rest = s.skip(len as int);
        lemma_vcd_end_closed(rest);
        lemma_skip_until_vcd_end_closed(rest);
        // a scope
        lemma_vcd_word_within(rest);
        if let Outcome::Match { len: a, value: _ } = spec_vcd_word(rest) {
            lemma_vcd_word_within(rest.skip(a as int));
            if let Outcome::Match { len: b, value: _ } = spec_vcd_word(rest.skip(a as int)) {
                lemma_vcd_end_closed(rest.skip((a + b) as int));
                lemma_closed_shift(
                    spec_vcd_end(rest.skip((a + b) as int)),
                    spec_scope_body(rest),
                    rest,
                    a + b,
                );
            }
            // a variable
            lemma_var_width_within(rest.skip(a as int));
            if let Outcome::Match { len: b, value: _ } = spec_var_width(rest.skip(a as int)) {
                lemma_vcd_word_within(rest.skip((a + b) as int));
                if let Outcome::Match { len: c, value: _ } = spec_vcd_word(
                    rest.skip((a + b) as int),
                ) {
                    lemma_var_name_within(rest.skip((a + b + c) as int));
                    if let Outcome::Match { len: d, value: _ } = spec_var_name(
                        rest.skip((a + b + c) as int),
                    ) {
                        lemma_var_range_within(rest.skip((a + b + c + d) as int));
                        if let Outcome::Match { len: e, value: _ } = spec_optional_range(
                            rest.skip((a + b + c + d) as int),
                        ) {
                            lemma_vcd_end_closed(rest.skip((a + b + c + d + e) as int));
                            lemma_closed_shift(
                                spec_vcd_end(rest.skip((a + b + c + d + e) as int)),
                                spec_var_body(rest),
                                rest,
                                a + b + c + d + e,
                            );
                        }
                    }
                }
            }
        }
        lemma_closed_shift(
            spec_header_body(spec_header_name(s)->Match_value, rest),
            spec_header_directive(sealed, s),
            s,
            len,
        );
    }
}

} // verus!
