use wavetk::command::{VcdChange, VcdCommand, VcdValue};
use wavetk::grammar::{
    number, real_text, skip_until_vcd_end, var_name, var_range, var_width, vcd_bit_change,
    vcd_bits, vcd_change, vcd_command, vcd_cycle, vcd_directive, vcd_end, vcd_real_change,
    vcd_varid, vcd_vec_change, vcd_word,
};
use wavetk::scan::GrammarError;
use wavetk::types::Range;

#[test]
fn test_var_width() {
    assert_eq!(var_width(b"1209   ..."), Ok((&b"..."[..], 1209)));
    assert_eq!(var_width(b"3\n\t   ..."), Ok((&b"..."[..], 3)));
    assert_eq!(var_width(b"43xx "), Ok((&b"xx "[..], 43)));
    assert_eq!(var_width(b"1 a"), Ok((&b"a"[..], 1)));
    // Cannot fit in an u64
    assert!(var_width(b"184467440737095516160000").is_err());
    assert!(var_width(b" 3").is_err());
}

#[test]
fn test_var_range() {
    for v in [&b"[ 4  ]  ..."[..], &b"[4 ]\n..."[..], &b"[4]\t..."[..]].iter() {
        assert_eq!(var_range(v), Ok((&b"..."[..], Range::Bit(4))));
    }
    let w = [
        &b"[12:0]xx"[..],
        &b"[ 12:0]\nxx"[..],
        &b"[12 :0]\nxx"[..],
        &b"[12 : 0]\nxx"[..],
        &b"[ 12 : 0 ]\nxx"[..],
    ];
    for v in w.iter() {
        assert_eq!(var_range(v), Ok((&b"xx"[..], Range::Range((12, 0)))));
    }
    assert_eq!(
        var_range(b"[-1: 0] xx"),
        Ok((&b"xx"[..], Range::Range((-1, 0))))
    );
}

#[test]
fn test_vcd_end() {
    assert_eq!(vcd_end(b"$end "), Ok((&b""[..], &b"$end"[..])));
    assert_eq!(vcd_end(b"$end \nab"), Ok((&b"ab"[..], &b"$end"[..])));
    assert!(vcd_end(b"$enddefinition \nab").is_err());
}

#[test]
fn test_var_name() {
    assert_eq!(var_name(b"foo \nab"), Ok((&b"ab"[..], &b"foo"[..])));
    assert_eq!(var_name(b"foo[7] \nab"), Ok((&b"[7] \nab"[..], &b"foo"[..])));
    assert!(var_name(b"$foo[7] \nab").is_err());
    assert!(var_name(b" foo[7] \nab").is_err());
    assert!(var_name(b"[foo[7] \nab").is_err());
}

#[test]
fn test_vcd_word() {
    assert_eq!(vcd_word(b"foo $xxx "), Ok((&b"$xxx "[..], &b"foo"[..])));
    assert_eq!(vcd_word(b"$foo aa"), Ok((&b"aa"[..], &b"$foo"[..])));
}

#[test]
fn test_skip_until_end() {
    assert_eq!(skip_until_vcd_end(b"foo$hello $end "), Ok((&b""[..], ())));
    assert_eq!(
        skip_until_vcd_end(b"body \n\n hello $date $end \t x"),
        Ok((&b"x"[..], ()))
    );
}

#[test]
fn test_vcd_cycle() {
    assert_eq!(vcd_cycle(b"#1244 $end"), Ok((&b"$end"[..], 1244)));
    assert_eq!(vcd_cycle(b"#123456789 "), Ok((&b""[..], 123456789)));
    assert!(vcd_cycle(b"#bla $end").is_err());
    assert!(vcd_cycle(b"# 12 $end").is_err());
}

#[test]
fn test_vcd_change() {
    assert_eq!(vcd_bit_change(b"x!! #2"), Ok((&b"#2"[..], ('x', &b"!!"[..]))));
    assert_eq!(
        vcd_bit_change(b"1 hhhxr' 0"),
        Ok((&b"0"[..], ('1', &b"hhhxr'"[..])))
    );
    assert_eq!(vcd_vec_change(b"b1 x "), Ok((&b""[..], (&b"1"[..], &b"x"[..]))));
    assert_eq!(
        vcd_vec_change(b"b1001101 lala "),
        Ok((&b""[..], (&b"1001101"[..], &b"lala"[..])))
    );
    assert_eq!(
        vcd_vec_change(b"bZzXxUu01 vid ..."),
        Ok((&b"..."[..], (&b"ZzXxUu01"[..], &b"vid"[..])))
    );
    assert_eq!(
        vcd_real_change(b"r3.22 # oups"),
        Ok((&b"oups"[..], (&b"3.22"[..], &b"#"[..])))
    );
    assert_eq!(
        vcd_change(b"b01110 ! "),
        Ok((
            &b""[..],
            VcdChange {
                var_id: b"!",
                value: VcdValue::Vector(b"01110"),
            }
        ))
    );
}

#[test]
fn number_reads_sign_and_checks_the_range() {
    assert_eq!(number(b"0;"), Ok((&b";"[..], 0)));
    assert_eq!(number(b"-17 "), Ok((&b" "[..], -17)));
    assert_eq!(number(b"007x"), Ok((&b"x"[..], 7)));
    assert_eq!(
        number(b"9223372036854775807 "),
        Ok((&b" "[..], 9223372036854775807))
    );
    assert_eq!(number(b"9223372036854775808 "), Err(GrammarError::Failure));
    assert_eq!(number(b"-9223372036854775808 "), Err(GrammarError::Failure));
    assert_eq!(number(b""), Err(GrammarError::Incomplete));
    assert_eq!(number(b"-"), Err(GrammarError::Incomplete));
    assert_eq!(number(b"123"), Err(GrammarError::Incomplete));
    assert_eq!(number(b"x1 "), Err(GrammarError::Failure));
    assert_eq!(number(b"+1 "), Err(GrammarError::Failure));
    assert_eq!(number(b"-x"), Err(GrammarError::Failure));
}

#[test]
fn forms_that_end_with_the_input_ask_for_more() {
    assert_eq!(var_width(b"43 "), Err(GrammarError::Incomplete));
    assert_eq!(var_range(b"[4]"), Err(GrammarError::Incomplete));
    assert_eq!(var_range(b"[4"), Err(GrammarError::Incomplete));
    assert_eq!(var_name(b"foo"), Err(GrammarError::Incomplete));
    assert_eq!(var_name(b"foo "), Err(GrammarError::Incomplete));
    assert_eq!(vcd_word(b"foo"), Err(GrammarError::Incomplete));
    assert_eq!(vcd_word(b"foo "), Err(GrammarError::Incomplete));
    assert_eq!(vcd_end(b"$en"), Err(GrammarError::Incomplete));
    assert_eq!(vcd_end(b"$end"), Err(GrammarError::Incomplete));
    assert_eq!(vcd_end(b""), Err(GrammarError::Incomplete));
    assert_eq!(skip_until_vcd_end(b"no dollar here"), Err(GrammarError::Incomplete));
    assert_eq!(skip_until_vcd_end(b"text $en"), Err(GrammarError::Incomplete));
    assert_eq!(vcd_cycle(b"#12"), Err(GrammarError::Incomplete));
    assert_eq!(vcd_cycle(b"#"), Err(GrammarError::Incomplete));
    assert_eq!(vcd_varid(b"abc"), Err(GrammarError::Incomplete));
    assert_eq!(vcd_bit_change(b"1"), Err(GrammarError::Incomplete));
    assert_eq!(vcd_bit_change(b"1 "), Err(GrammarError::Incomplete));
    assert_eq!(vcd_vec_change(b"b"), Err(GrammarError::Incomplete));
    assert_eq!(vcd_vec_change(b"b0101"), Err(GrammarError::Incomplete));
    assert_eq!(vcd_vec_change(b"b0101 "), Err(GrammarError::Incomplete));
    assert_eq!(vcd_real_change(b"r1.5"), Err(GrammarError::Incomplete));
    assert_eq!(vcd_command(b""), Err(GrammarError::Incomplete));
    assert_eq!(vcd_command(b"$dumpvars"), Err(GrammarError::Incomplete));
    assert_eq!(vcd_command(b"$comment text"), Err(GrammarError::Incomplete));
}

#[test]
fn forms_that_cannot_begin_fail() {
    assert_eq!(var_range(b"(4) "), Err(GrammarError::Failure));
    assert_eq!(var_range(b"[x] "), Err(GrammarError::Failure));
    assert_eq!(var_range(b"[4:x] "), Err(GrammarError::Failure));
    assert_eq!(var_range(b"[4;5] "), Err(GrammarError::Failure));
    assert_eq!(vcd_end(b"$endx"), Err(GrammarError::Failure));
    assert_eq!(vcd_end(b"$eno "), Err(GrammarError::Failure));
    assert_eq!(vcd_end(b"$"), Err(GrammarError::Incomplete));
    assert_eq!(vcd_end(b"end "), Err(GrammarError::Failure));
    assert_eq!(vcd_word(b" foo "), Err(GrammarError::Failure));
    assert_eq!(vcd_word(b"\x0cfoo "), Err(GrammarError::Failure));
    assert_eq!(vcd_varid(b"\nab "), Err(GrammarError::Failure));
    assert_eq!(vcd_cycle(b"#12x "), Err(GrammarError::Failure));
    assert_eq!(vcd_cycle(b"#18446744073709551616 "), Err(GrammarError::Failure));
    assert_eq!(vcd_bits(b"2 "), Err(GrammarError::Failure));
    assert_eq!(vcd_command(b"y! "), Err(GrammarError::Failure));
    assert_eq!(vcd_command(b" 1! "), Err(GrammarError::Failure));
    assert_eq!(vcd_command(b"\x0c1! "), Err(GrammarError::Failure));
    assert_eq!(vcd_command(b"$ x "), Err(GrammarError::Failure));
}

#[test]
fn whitespace_is_space_tab_line_feed_form_feed_and_carriage_return() {
    assert_eq!(vcd_word(b"foo \t\n\x0c\rbar"), Ok((&b"bar"[..], &b"foo"[..])));
    assert_eq!(vcd_word(b"foo\x0cbar"), Ok((&b"bar"[..], &b"foo"[..])));
    assert_eq!(vcd_word(b"foo\x0bbar x"), Ok((&b"x"[..], &b"foo\x0bbar"[..])));
    assert_eq!(vcd_varid(b"ab\x0ccd "), Ok((&b"cd "[..], &b"ab"[..])));
    assert_eq!(vcd_end(b"$end\x0cx"), Ok((&b"x"[..], &b"$end"[..])));
    assert_eq!(vcd_cycle(b"#5\x0c1!"), Ok((&b"1!"[..], 5)));
    assert_eq!(var_width(b"8\x0c!"), Ok((&b"!"[..], 8)));
    assert_eq!(vcd_cycle(b"#5\x0b1!"), Err(GrammarError::Failure));
}

#[test]
fn a_single_index_is_not_negative() {
    assert_eq!(var_range(b"[0] x"), Ok((&b"x"[..], Range::Bit(0))));
    assert_eq!(var_range(b"[-4] x"), Err(GrammarError::Failure));
    assert_eq!(
        var_range(b"[-4:-7] x"),
        Ok((&b"x"[..], Range::Range((-4, -7))))
    );
}

#[test]
fn the_largest_time_is_read() {
    assert_eq!(
        vcd_cycle(b"#18446744073709551615\n"),
        Ok((&b""[..], 18446744073709551615))
    );
    assert_eq!(vcd_cycle(b"#0 \t\r\n1!"), Ok((&b"1!"[..], 0)));
}

#[test]
fn skipping_passes_over_dollars_that_begin_no_end() {
    assert_eq!(skip_until_vcd_end(b"$$$end $end x"), Ok((&b"$end x"[..], ())));
    assert_eq!(skip_until_vcd_end(b"a $endx b $end\nrest"), Ok((&b"rest"[..], ())));
    assert_eq!(skip_until_vcd_end(b"$end\n"), Ok((&b""[..], ())));
    assert_eq!(skip_until_vcd_end(b"cost: 5$ $end "), Ok((&b""[..], ())));
}

#[test]
fn real_numbers_are_recognised() {
    assert_eq!(real_text(b"3.22 "), Ok((&b" "[..], &b"3.22"[..])));
    assert_eq!(real_text(b"3 "), Ok((&b" "[..], &b"3"[..])));
    assert_eq!(real_text(b"3. "), Ok((&b" "[..], &b"3."[..])));
    assert_eq!(real_text(b".5 "), Ok((&b" "[..], &b".5"[..])));
    assert_eq!(real_text(b"-12.5e-3 "), Ok((&b" "[..], &b"-12.5e-3"[..])));
    assert_eq!(real_text(b"+1E10x"), Ok((&b"x"[..], &b"+1E10"[..])));
    assert_eq!(real_text(b"3.e5 "), Ok((&b" "[..], &b"3.e5"[..])));
    assert_eq!(real_text(b"1.5K"), Ok((&b"K"[..], &b"1.5"[..])));
    assert_eq!(real_text(b". "), Err(GrammarError::Failure));
    assert_eq!(real_text(b"e5 "), Err(GrammarError::Failure));
    assert_eq!(real_text(b"1ex "), Err(GrammarError::Failure));
    assert_eq!(real_text(b"1e+ "), Err(GrammarError::Failure));
    assert_eq!(real_text(b"-"), Err(GrammarError::Incomplete));
    assert_eq!(real_text(b"1"), Err(GrammarError::Incomplete));
    assert_eq!(real_text(b"1."), Err(GrammarError::Incomplete));
    assert_eq!(real_text(b"1.5e"), Err(GrammarError::Incomplete));
    assert_eq!(real_text(b"1.5e-"), Err(GrammarError::Incomplete));
    assert_eq!(real_text(b"1.5e-3"), Err(GrammarError::Incomplete));
    assert_eq!(
        vcd_real_change(b"r -0.25  temp\n#1"),
        Ok((&b"#1"[..], (&b"-0.25"[..], &b"temp"[..])))
    );
}

#[test]
fn commands_are_told_apart() {
    assert_eq!(
        vcd_command(b"1! #5"),
        Ok((
            &b"#5"[..],
            VcdCommand::ValueChange(VcdChange { var_id: b"!", value: VcdValue::Bit('1') })
        ))
    );
    assert_eq!(
        vcd_command(b"bx1 ab\n"),
        Ok((
            &b""[..],
            VcdCommand::ValueChange(VcdChange { var_id: b"ab", value: VcdValue::Vector(b"x1") })
        ))
    );
    assert_eq!(
        vcd_command(b"r1.5 t "),
        Ok((
            &b""[..],
            VcdCommand::ValueChange(VcdChange { var_id: b"t", value: VcdValue::Real(b"1.5") })
        ))
    );
    assert_eq!(vcd_command(b"#42\n1!"), Ok((&b"1!"[..], VcdCommand::SetCycle(42))));
    assert_eq!(vcd_command(b"$end\n"), Ok((&b""[..], VcdCommand::VcdEnd)));
    assert_eq!(
        vcd_command(b"$dumpvars\n1!\n$end\n"),
        Ok((&b"1!\n$end\n"[..], VcdCommand::Directive(b"dumpvars")))
    );
    assert_eq!(
        vcd_command(b"$comment 1! #4 $end\n0!"),
        Ok((&b"0!"[..], VcdCommand::Directive(b"comment")))
    );
    assert_eq!(
        vcd_directive(b"$dumpall next"),
        Ok((&b"next"[..], VcdCommand::Directive(b"dumpall")))
    );
}

#[test]
fn a_value_has_a_width() {
    assert_eq!(VcdValue::Bit('x').width(), 1);
    assert_eq!(VcdValue::Vector(b"0101").width(), 4);
    assert_eq!(VcdValue::Vector(b"").width(), 0);
    assert_eq!(VcdValue::Real(b"1.25").width(), 1);
}
