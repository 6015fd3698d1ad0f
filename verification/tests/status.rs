use wavetk::fst::{FstError, FstFileType, FstHeaderBuilder, HierEvent};
use wavetk::scan::GrammarError;
use wavetk::status::{encode_error, pack_version};
use wavetk::types::{Direction, Scope, ScopeKind, VariableKind};
use wavetk::vcd::VcdError;

#[test]
fn failures_have_status_codes() {
    let io = std::io::Error::new(std::io::ErrorKind::NotFound, "no such file");
    assert_eq!(encode_error(&VcdError::IoError(io)), 1);
    assert_eq!(encode_error(&VcdError::ParseError), 2);
    assert_eq!(encode_error(&VcdError::MissingData), 3);
    assert_eq!(encode_error(&VcdError::PartialHeader), 4);
    assert_eq!(encode_error(&VcdError::Utf8Error), 5);
    assert_eq!(encode_error(&VcdError::EndOfInput), 6);
}

#[test]
fn failures_describe_themselves() {
    assert_eq!(VcdError::ParseError.describe(), "ParseError");
    assert_eq!(VcdError::MissingData.describe(), "MissingData");
    assert_eq!(VcdError::PartialHeader.describe(), "PartialHeader");
    assert_eq!(VcdError::Utf8Error.describe(), "Utf8Error");
    assert_eq!(VcdError::EndOfInput.describe(), "EndOfInput");
    let io = std::io::Error::new(std::io::ErrorKind::NotFound, "no such file");
    let err = VcdError::from(io);
    assert_eq!(err.describe(), "no such file");
    assert!(err.source().is_some());
    assert_eq!(err.source().unwrap().kind(), std::io::ErrorKind::NotFound);
    assert!(VcdError::ParseError.source().is_none());
}

#[test]
fn grammar_failures_become_failures_of_the_waveform() {
    assert!(matches!(VcdError::from(GrammarError::Incomplete), VcdError::MissingData));
    assert!(matches!(VcdError::from(GrammarError::Failure), VcdError::ParseError));
}

#[test]
fn a_version_is_packed_into_one_number() {
    assert_eq!(pack_version(0, 0, 0), 0);
    assert_eq!(pack_version(1, 2, 3), 0x010203);
    assert_eq!(pack_version(0, 1, 0), 256);
    assert_eq!(pack_version(255, 255, 255), 0xffffff);
}

#[test]
fn kinds_of_file_have_codes() {
    assert_eq!(FstFileType::from_code(0), Ok(FstFileType::Verilog));
    assert_eq!(FstFileType::from_code(1), Ok(FstFileType::Vhdl));
    assert_eq!(FstFileType::from_code(2), Ok(FstFileType::VerilogVhdl));
    assert_eq!(FstFileType::from_code(3), Err(FstError::InvalidConversion));
    assert_eq!(FstFileType::from_code(u32::MAX), Err(FstError::InvalidConversion));
}

#[test]
fn a_header_is_built_from_the_events_of_a_hierarchy() {
    let mut builder = FstHeaderBuilder::new();
    let events = [
        HierEvent::Scope { kind: 0, name: b"top".to_vec() },
        HierEvent::AttrBegin,
        HierEvent::AttrEnd,
        HierEvent::Var { kind: 16, direction: 1, name: b"clk".to_vec(), width: 1, handle: 1 },
        HierEvent::Scope { kind: 16, name: b"p".to_vec() },
        HierEvent::Var { kind: 5, direction: 0, name: b"q".to_vec(), width: 8, handle: 2 },
        HierEvent::Upscope,
        HierEvent::Upscope,
        HierEvent::Upscope,
        HierEvent::Var { kind: 29, direction: 5, name: b"r".to_vec(), width: 32, handle: 3 },
    ];
    for event in events.iter() {
        assert_eq!(builder.apply(event), Ok(()));
    }
    let header = builder.finish();
    let v = &header.variables;
    assert_eq!(v.len(), 3);
    assert_eq!(v[0].id, b"");
    assert_eq!(v[0].name, b"clk");
    assert_eq!(v[0].kind, VariableKind::VcdWire);
    assert_eq!(v[0].direction, Direction::Input);
    assert_eq!(v[0].width, 1);
    assert_eq!(v[0].handle, 1);
    assert_eq!(v[0].range, None);
    assert_eq!(v[0].scope, vec![Scope { kind: ScopeKind::VcdModule, name: b"top".to_vec() }]);
    assert_eq!(v[1].kind, VariableKind::VcdReg);
    assert_eq!(
        v[1].scope,
        vec![
            Scope { kind: ScopeKind::VcdModule, name: b"top".to_vec() },
            Scope { kind: ScopeKind::VhdlProcess, name: b"p".to_vec() },
        ]
    );
    assert_eq!(v[2].kind, VariableKind::SvShortreal);
    assert_eq!(v[2].direction, Direction::Linkage);
    assert!(v[2].scope.is_empty());
    assert_eq!(header.clone(), header);
}

#[test]
fn an_event_with_a_code_that_is_no_kind_is_refused() {
    let mut builder = FstHeaderBuilder::new();
    assert_eq!(
        builder.apply(&HierEvent::Scope { kind: 23, name: b"x".to_vec() }),
        Err(FstError::InvalidConversion)
    );
    assert_eq!(
        builder.apply(&HierEvent::Var {
            kind: 30,
            direction: 0,
            name: b"x".to_vec(),
            width: 1,
            handle: 1
        }),
        Err(FstError::InvalidConversion)
    );
    assert_eq!(
        builder.apply(&HierEvent::Var {
            kind: 0,
            direction: 6,
            name: b"x".to_vec(),
            width: 1,
            handle: 1
        }),
        Err(FstError::InvalidConversion)
    );
    assert_eq!(
        builder.apply(&HierEvent::Var {
            kind: 0,
            direction: 0,
            name: b"x".to_vec(),
            width: 1,
            handle: 1
        }),
        Ok(())
    );
    let header = builder.finish();
    assert_eq!(header.variables.len(), 1);
    assert!(header.variables[0].scope.is_empty());
}
