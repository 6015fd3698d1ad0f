use wavetk::scan::GrammarError;
use wavetk::types::{Direction, Range, Scope, ScopeKind, VariableKind};
use wavetk::utils::ByteSource;
use wavetk::stream::VcdStreamParser;
use wavetk::vcd::{
    process_vcd_commands, CommandCounter, CommandSlot, OwnedCommand, OwnedValue, VcdError,
    VcdHeaderParser, VcdParser,
};

const SAMPLE: &[u8] = b"$date
   Date text. For example: November 11, 2009.
$end
$version
   VCD generator tool version info text.
$end
$comment
   Any comment text, with a $ sign.
$end
$timescale 1ps $end
$scope module logic $end
$var wire 8 # data $end
$var wire 1 $ data_valid $end
$var wire 1 % en $end
$var wire 1 & rx_en $end
$var wire 1 ' tx_en $end
$var wire 1 ( empty $end
$var wire 1 ) underrun $end
$upscope $end
$enddefinitions $end
$dumpvars
bxxxxxxxx #
x$
0%
x&
x'
1(
0)
$end
#0
b10000001 #
0$
1%
0&
1'
0(
0)
#2211
0'
#2296
b0 #
1$
#2302
0$
#2303
";

fn parser(bytes: &[u8], chunk_size: usize) -> VcdParser {
    VcdParser::with_chunk_size(chunk_size, ByteSource::new(bytes.to_vec()))
}

fn parse(bytes: &[u8], chunk_size: usize) -> Result<(usize, u64), VcdError> {
    let mut parser = parser(bytes, chunk_size);
    let n_var = parser.load_header()?.variables.len();
    let mut counter = CommandCounter { count: 0 };
    parser.process_vcd_commands(&mut counter)?;
    assert!(parser.done());
    Ok((n_var, counter.count))
}

#[test]
fn the_sample_has_seven_variables_and_twenty_five_commands() {
    assert_eq!(parse(SAMPLE, 4096).unwrap(), (7, 25));
}

#[test]
fn the_counts_do_not_depend_on_the_chunk_size() {
    for chunk_size in [1usize, 2, 3, 5, 7, 13, 16, 31, 64, 128, 255, 256, 257, 1024] {
        assert_eq!(parse(SAMPLE, chunk_size).unwrap(), (7, 25), "chunk size {}", chunk_size);
    }
}

#[test]
fn the_header_holds_the_declarations_in_order() {
    let mut parser = parser(SAMPLE, 32);
    assert!(parser.header().is_none());
    let header = parser.load_header().unwrap().clone();
    assert_eq!(header.variables.len(), 7);
    let first = &header.variables[0];
    assert_eq!(first.id, b"#");
    assert_eq!(first.name, b"data");
    assert_eq!(first.kind, VariableKind::VcdWire);
    assert_eq!(first.width, 8);
    assert_eq!(first.range, None);
    assert_eq!(first.handle, 0);
    assert_eq!(first.direction, Direction::Implicit);
    assert_eq!(first.scope, vec![Scope { kind: ScopeKind::VcdModule, name: b"logic".to_vec() }]);
    assert_eq!(header.variables[1].id, b"$");
    assert_eq!(header.variables[6].name, b"underrun");
    assert_eq!(parser.header(), Some(&header));
}

#[test]
fn scopes_nest_and_ranges_are_kept() {
    let text = b"$scope module top $end
$var reg 4 ! count [3:0] $end
$scope begin inner $end
$var wire 1 \" flag[2] $end
$var real 64 # ratio $end
$upscope $end
$var integer 32 $ total [ 31 : 0 ] $end
$upscope $end
$upscope $end
$upscope $end
$var bit 1 % loose $end
$enddefinitions $end
";
    let mut parser = parser(text, 7);
    let header = parser.load_header().unwrap().clone();
    let v = &header.variables;
    assert_eq!(v.len(), 5);
    assert_eq!(v[0].range, Some(Range::Range((3, 0))));
    assert_eq!(v[0].kind, VariableKind::VcdReg);
    assert_eq!(v[0].scope.len(), 1);
    assert_eq!(v[1].name, b"flag");
    assert_eq!(v[1].range, Some(Range::Bit(2)));
    assert_eq!(
        v[1].scope,
        vec![
            Scope { kind: ScopeKind::VcdModule, name: b"top".to_vec() },
            Scope { kind: ScopeKind::VcdBegin, name: b"inner".to_vec() },
        ]
    );
    assert_eq!(v[2].kind, VariableKind::VcdReal);
    assert_eq!(v[2].width, 64);
    assert_eq!(v[3].range, Some(Range::Range((31, 0))));
    assert_eq!(v[3].scope.len(), 1);
    assert_eq!(v[4].kind, VariableKind::End);
    assert!(v[4].scope.is_empty());
    assert!(parser.done());
}

#[test]
fn a_header_parser_runs_over_a_whole_header() {
    let mut header_parser = VcdHeaderParser::new();
    assert!(!header_parser.header_valid());
    assert!(header_parser.header().is_none());
    let text = b"$version x $end $var wire 1 ! a $end $enddefinitions $end #0 ";
    assert_eq!(header_parser.run(text), Ok((&b"#0 "[..], ())));
    assert!(header_parser.header_valid());
    assert_eq!(header_parser.header().unwrap().variables.len(), 1);
    assert_eq!(header_parser.collected().variables[0].id, b"!");
}

#[test]
fn a_header_parser_stops_when_the_input_is_used_up() {
    let mut header_parser = VcdHeaderParser::new();
    assert_eq!(header_parser.run(b"$var wire 1 ! a $end "), Ok((&b""[..], ())));
    assert!(!header_parser.header_valid());
    assert_eq!(header_parser.collected().variables.len(), 1);
    assert_eq!(header_parser.run(b"$var wire 1"), Err(GrammarError::Incomplete));
    assert_eq!(header_parser.run(b"var wire 1"), Err(GrammarError::Failure));
    assert_eq!(header_parser.collected().variables.len(), 1);
}

#[test]
fn a_sealed_header_takes_no_more_declarations() {
    let mut header_parser = VcdHeaderParser::new();
    assert_eq!(
        header_parser.next_header_command(b"$enddefinitions $end\n"),
        Ok((&b""[..], true))
    );
    assert_eq!(
        header_parser.next_header_command(b"$var wire 1 ! a $end\n"),
        Err(GrammarError::Failure)
    );
    assert_eq!(
        header_parser.next_header_command(b"$scope module m $end\n"),
        Err(GrammarError::Failure)
    );
    assert_eq!(header_parser.next_header_command(b"$upscope $end\n"), Err(GrammarError::Failure));
    assert_eq!(
        header_parser.next_header_command(b"$enddefinitions $end\n"),
        Err(GrammarError::Failure)
    );
    assert_eq!(header_parser.next_header_command(b"$date now $end\n"), Ok((&b""[..], false)));
    assert_eq!(header_parser.header().unwrap().variables.len(), 0);
}

#[test]
fn a_width_is_a_bit_count_of_thirty_two_bits() {
    let mut header_parser = VcdHeaderParser::new();
    assert_eq!(
        header_parser.next_header_command(b"$var wire 4294967295 ! a $end\n"),
        Ok((&b""[..], false))
    );
    assert_eq!(header_parser.collected().variables[0].width, 4294967295);
    assert_eq!(
        header_parser.next_header_command(b"$var wire 4294967296 ! a $end\n"),
        Err(GrammarError::Failure)
    );
    assert_eq!(
        header_parser.next_header_command(b"$var wire -1 ! a $end\n"),
        Err(GrammarError::Failure)
    );
    assert_eq!(
        header_parser.next_header_command(b"$var wire 0 ! a $end\n"),
        Ok((&b""[..], false))
    );
    assert_eq!(header_parser.collected().variables.len(), 2);
}

#[test]
fn upscope_at_the_top_changes_nothing() {
    let mut header_parser = VcdHeaderParser::new();
    assert_eq!(header_parser.next_header_command(b"$upscope $end\n"), Ok((&b""[..], false)));
    assert_eq!(
        header_parser.next_header_command(b"$var wire 1 ! a $end\n"),
        Ok((&b""[..], false))
    );
    assert!(header_parser.collected().variables[0].scope.is_empty());
}

#[test]
fn an_input_that_ends_with_the_header_is_done() {
    let mut parser = parser(b"$enddefinitions $end\n", 4096);
    assert!(!parser.done());
    parser.load_header().unwrap();
    assert!(parser.done());
    let mut counter = CommandCounter { count: 0 };
    parser.process_vcd_commands(&mut counter).unwrap();
    assert_eq!(counter.count, 0);
}

#[test]
fn a_header_that_is_not_sealed_is_missing_data() {
    let mut parser = parser(b"$var wire 1 ! a $end\n", 16);
    assert!(matches!(parser.load_header(), Err(VcdError::MissingData)));
    assert!(parser.header().is_none());
    for chunk_size in [1usize, 5, 4096] {
        let mut cut = self::parser(b"$var wire 1 ! a $end\n$enddefinitions", chunk_size);
        assert!(matches!(cut.load_header(), Err(VcdError::MissingData)));
        let mut wrong = self::parser(b"$var wire 1 ! a $end\n$enddefinitions $en", chunk_size);
        assert!(matches!(wrong.load_header(), Err(VcdError::ParseError)));
    }
}

#[test]
fn a_header_that_cannot_be_parsed_is_a_parse_error() {
    let mut parser = parser(b"\n$enddefinitions $end\n", 16);
    assert!(matches!(parser.load_header(), Err(VcdError::ParseError)));
    let mut other = self::parser(b"$var wire x ! a $end\n$enddefinitions $end\n", 5);
    assert!(matches!(other.load_header(), Err(VcdError::ParseError)));
}

#[test]
fn a_record_cut_short_is_missing_data() {
    for chunk_size in [1usize, 4, 4096] {
        let mut parser = parser(b"$enddefinitions $end\n#1\nb0101", chunk_size);
        parser.load_header().unwrap();
        let mut counter = CommandCounter { count: 0 };
        let res = parser.process_vcd_commands(&mut counter);
        assert!(matches!(res, Err(VcdError::MissingData)), "chunk size {}", chunk_size);
        assert_eq!(counter.count, 1);
    }
}

#[test]
fn a_last_record_without_a_line_feed_is_read_at_every_chunk_size() {
    let text = b"$enddefinitions $end\n#1";
    for chunk_size in [1usize, 2, 3, 5, 21, 22, 23, 24, 100, 4096] {
        let mut parser = parser(text, chunk_size);
        parser.load_header().unwrap();
        let mut counter = CommandCounter { count: 0 };
        parser.process_vcd_commands(&mut counter).unwrap();
        assert_eq!(counter.count, 1, "chunk size {}", chunk_size);
        assert!(parser.done());
    }
}

#[test]
fn a_header_without_a_line_feed_is_loaded_at_every_chunk_size() {
    for chunk_size in [1usize, 3, 20, 21, 4096] {
        let mut parser = parser(b"$var wire 1 ! a $end $enddefinitions $end", chunk_size);
        assert_eq!(parser.load_header().unwrap().variables.len(), 1);
        assert!(parser.done());
    }
}

#[test]
fn failures_do_not_depend_on_the_chunk_size() {
    let texts: [&[u8]; 6] = [
        b"$enddefinitions $end\n#1\nb0101",
        b"$enddefinitions $end\n#1\n?!\n#2\n",
        b"$enddefinitions $end\n#1 \x0b#2\n",
        b"$var wire 1 ! a $end\n",
        b"$var wire x ! a $end\n$enddefinitions $end\n",
        b"\n$enddefinitions $end\n",
    ];
    for text in texts.iter() {
        let run = |chunk_size: usize| {
            let mut parser = parser(text, chunk_size);
            let mut counter = CommandCounter { count: 0 };
            let res = match parser.load_header() {
                Ok(_) => parser.process_vcd_commands(&mut counter),
                Err(e) => Err(e),
            };
            (res.map_err(|e| e.describe()), counter.count)
        };
        let expected = run(4096);
        assert!(expected.0.is_err());
        for chunk_size in [1usize, 2, 3, 7, 20, 21, 22, 64] {
            assert_eq!(run(chunk_size), expected, "chunk size {}", chunk_size);
        }
    }
}

#[test]
fn whitespace_between_records_is_passed_over_at_every_chunk_size() {
    let text = b"$enddefinitions $end\n\x0c\n#1 \x0c\r\n 1!\x0c#2\x0c";
    for chunk_size in [1usize, 2, 3, 4, 5, 8, 21, 22, 23, 64] {
        assert_eq!(parse(text, chunk_size).unwrap(), (0, 3), "chunk size {}", chunk_size);
    }
}

#[test]
fn a_trimming_refill_tests_every_byte_that_it_reads() {
    let source = ByteSource::new(vec![0x20, 0x41, 0xc8, 0x42]);
    let mut stream = VcdStreamParser::with_chunk_size(2, source);
    assert!(matches!(stream.refill(false), Ok(2)));
    assert_eq!(stream.data(), b" A");
    assert!(matches!(stream.refill(true), Err(VcdError::Utf8Error)));
    let source = ByteSource::new(vec![0x20, 0x20, 0x20, 0x20, 0xc8, 0x20, 0x41, 0x42]);
    let mut stream = VcdStreamParser::with_chunk_size(2, source);
    assert!(matches!(stream.refill(true), Err(VcdError::Utf8Error)));
    let source = ByteSource::new(vec![0x20, 0x20, 0x20, 0x41, 0x42, 0x43, 0xc8]);
    let mut stream = VcdStreamParser::with_chunk_size(2, source);
    assert!(matches!(stream.refill(true), Ok(1)));
    assert_eq!(stream.data(), b"A");
    assert!(matches!(stream.refill(true), Ok(2)));
    assert_eq!(stream.data(), b"ABC");
    assert!(matches!(stream.refill(false), Err(VcdError::Utf8Error)));
}

#[test]
fn a_refill_at_the_end_closes_the_window_unless_it_trims() {
    let mut stream = VcdStreamParser::with_chunk_size(4, ByteSource::new(b"#1".to_vec()));
    assert!(!stream.done());
    assert!(matches!(stream.refill(false), Ok(2)));
    assert!(matches!(stream.refill(false), Ok(0)));
    assert_eq!(stream.data(), b"#1\n");
    assert!(matches!(stream.extend(), Err(VcdError::MissingData)));
    assert!(matches!(stream.advance(3), Ok(())));
    assert!(stream.done());
    let mut stream = VcdStreamParser::with_chunk_size(4, ByteSource::new(b" \n".to_vec()));
    assert!(matches!(stream.trim_refill(), Ok(0)));
    assert!(matches!(stream.refill(true), Ok(0)));
    assert_eq!(stream.data(), b"");
    assert!(stream.done());
}

#[test]
fn records_are_taken_one_by_one_with_bytes_of_their_own() {
    let mut parser = parser(b"$enddefinitions $end\n#7\nb01 !\n$dumpoff\n1\"\nr1.5 t\n$end", 5);
    parser.load_header().unwrap();
    let mut taken = Vec::new();
    loop {
        let mut slot = CommandSlot { command: None };
        parser.process_vcd_commands(&mut slot).unwrap();
        match slot.command {
            Some(command) => taken.push(command),
            None => break,
        }
    }
    assert!(parser.done());
    assert_eq!(
        taken,
        vec![
            OwnedCommand::SetCycle(7),
            OwnedCommand::ValueChange {
                var_id: b"!".to_vec(),
                value: OwnedValue::Vector(b"01".to_vec())
            },
            OwnedCommand::Directive(b"dumpoff".to_vec()),
            OwnedCommand::ValueChange { var_id: b"\"".to_vec(), value: OwnedValue::Bit('1') },
            OwnedCommand::ValueChange {
                var_id: b"t".to_vec(),
                value: OwnedValue::Real(b"1.5".to_vec())
            },
            OwnedCommand::VcdEnd,
        ]
    );
    assert_eq!(taken[1].as_command().owned(), taken[1]);
}

#[test]
fn a_byte_that_is_not_ascii_is_an_error() {
    let mut parser = parser(b"$enddefinitions $end\n#1\n1\xc3\xa9\n", 4096);
    assert!(matches!(parser.load_header(), Err(VcdError::Utf8Error)));
    let mut text = b"$enddefinitions $end\n#1\n".to_vec();
    for _ in 0..30 {
        text.extend_from_slice(b"1!\n");
    }
    text.extend_from_slice(b"1\xc3\xa9\n");
    let mut late = self::parser(&text, 21);
    late.load_header().unwrap();
    let mut counter = CommandCounter { count: 0 };
    assert!(matches!(late.process_vcd_commands(&mut counter), Err(VcdError::Utf8Error)));
    assert_eq!(counter.count, 4);
}

#[test]
fn a_record_that_cannot_be_parsed_is_a_parse_error() {
    let mut parser = parser(b"$enddefinitions $end\n#1\n?!\n", 4096);
    parser.load_header().unwrap();
    let mut counter = CommandCounter { count: 0 };
    assert!(matches!(parser.process_vcd_commands(&mut counter), Err(VcdError::ParseError)));
    assert_eq!(counter.count, 1);
}

#[test]
fn padding_between_records_is_passed_over() {
    let text = b"$enddefinitions $end\n\n\n   #1 \t\r\n 1!\n\n\n#2   \n";
    for chunk_size in [1usize, 2, 3, 4, 5, 8, 64] {
        assert_eq!(parse(text, chunk_size).unwrap(), (0, 3), "chunk size {}", chunk_size);
    }
}

#[test]
fn a_chunk_size_of_zero_reads_nothing() {
    let mut parser = parser(SAMPLE, 0);
    assert!(matches!(parser.load_header(), Err(VcdError::ParseError)));
    let mut empty = self::parser(b"", 0);
    assert!(matches!(empty.load_header(), Err(VcdError::ParseError)));
    let mut nothing = self::parser(b"", 16);
    assert!(matches!(nothing.load_header(), Err(VcdError::ParseError)));
}

#[test]
fn records_in_memory_are_processed_until_none_is_left() {
    let mut counter = CommandCounter { count: 0 };
    assert_eq!(
        process_vcd_commands(b"#0 1! 0\" b101 # $dumpoff $end #5 ", &mut counter),
        Ok((&b""[..], ()))
    );
    assert_eq!(counter.count, 7);
    let mut counter = CommandCounter { count: 0 };
    assert_eq!(process_vcd_commands(b"#0 1! #5", &mut counter), Err(GrammarError::Incomplete));
    assert_eq!(counter.count, 2);
    let mut counter = CommandCounter { count: 0 };
    assert_eq!(process_vcd_commands(b"#0 ?", &mut counter), Err(GrammarError::Failure));
    assert_eq!(counter.count, 1);
}

#[test]
fn a_counter_stays_at_the_largest_number() {
    let mut counter = CommandCounter { count: u64::MAX - 1 };
    assert_eq!(process_vcd_commands(b"#0 #1 #2 ", &mut counter), Ok((&b""[..], ())));
    assert_eq!(counter.count, u64::MAX);
}
