use std::convert::TryFrom;
use wavetk::types::{
    Direction, FstHeader, FstScope, FstVariable, LogicLevel, Scope, ScopeKind, VariableKind,
};

#[test]
fn scope_kinds_have_contiguous_codes() {
    assert_eq!(ScopeKind::VcdModule.code(), 0);
    assert_eq!(ScopeKind::VhdlPackage.code(), 21);
    assert_eq!(ScopeKind::Other.code(), 22);
    assert_eq!(ScopeKind::End.code(), 23);
    for code in 0u8..23 {
        let kind = ScopeKind::try_from(code).unwrap();
        assert_eq!(kind.code(), code);
    }
    assert_eq!(ScopeKind::try_from(12), Ok(ScopeKind::VhdlArchitecture));
    assert_eq!(ScopeKind::try_from(23), Err(()));
    assert_eq!(ScopeKind::try_from(255), Err(()));
}

#[test]
fn variable_kinds_have_contiguous_codes() {
    assert_eq!(VariableKind::VcdEvent.code(), 0);
    assert_eq!(VariableKind::VcdReal.code(), 3);
    assert_eq!(VariableKind::VcdWire.code(), 16);
    assert_eq!(VariableKind::SvShortreal.code(), 29);
    assert_eq!(VariableKind::End.code(), 30);
    for code in 0u8..30 {
        let kind = VariableKind::try_from(code).unwrap();
        assert_eq!(kind.code(), code);
    }
    assert_eq!(VariableKind::try_from(21), Ok(VariableKind::GenString));
    assert_eq!(VariableKind::try_from(30), Err(()));
}

#[test]
fn directions_have_contiguous_codes() {
    assert_eq!(Direction::Implicit.code(), 0);
    assert_eq!(Direction::Linkage.code(), 5);
    assert_eq!(Direction::End.code(), 6);
    for code in 0u8..6 {
        let direction = Direction::try_from(code).unwrap();
        assert_eq!(direction.code(), code);
    }
    assert_eq!(Direction::try_from(3), Ok(Direction::Inout));
    assert_eq!(Direction::try_from(6), Err(()));
}

#[test]
fn variable_kinds_are_named() {
    assert_eq!(VariableKind::from("event"), VariableKind::VcdEvent);
    assert_eq!(VariableKind::from("integer"), VariableKind::VcdInteger);
    assert_eq!(VariableKind::from("parameter"), VariableKind::VcdParameter);
    assert_eq!(VariableKind::from("real"), VariableKind::VcdReal);
    assert_eq!(VariableKind::from("reg"), VariableKind::VcdReg);
    assert_eq!(VariableKind::from("supply0"), VariableKind::VcdSupply0);
    assert_eq!(VariableKind::from("supply1"), VariableKind::VcdSupply1);
    assert_eq!(VariableKind::from("time"), VariableKind::VcdTime);
    assert_eq!(VariableKind::from("tri"), VariableKind::VcdTri);
    assert_eq!(VariableKind::from("triand"), VariableKind::VcdTriand);
    assert_eq!(VariableKind::from("trior"), VariableKind::VcdTrior);
    assert_eq!(VariableKind::from("trireg"), VariableKind::VcdTrireg);
    assert_eq!(VariableKind::from("tri0"), VariableKind::VcdTri0);
    assert_eq!(VariableKind::from("tri1"), VariableKind::VcdTri1);
    assert_eq!(VariableKind::from("wand"), VariableKind::VcdWand);
    assert_eq!(VariableKind::from("wire"), VariableKind::VcdWire);
    assert_eq!(VariableKind::from("wor"), VariableKind::VcdWor);
    assert_eq!(VariableKind::from("realtime"), VariableKind::End);
    assert_eq!(VariableKind::from("Wire"), VariableKind::End);
    assert_eq!(VariableKind::from(""), VariableKind::End);
    assert_eq!(VariableKind::named(b"wire"), VariableKind::VcdWire);
}

#[test]
fn scopes_are_named() {
    assert_eq!(
        Scope::from_str("module", "top"),
        Scope { kind: ScopeKind::VcdModule, name: b"top".to_vec() }
    );
    assert_eq!(Scope::from_str("begin", "b").kind, ScopeKind::VcdBegin);
    assert_eq!(Scope::from_str("fork", "f").kind, ScopeKind::VcdFork);
    assert_eq!(Scope::from_str("function", "f").kind, ScopeKind::VcdFunction);
    assert_eq!(Scope::from_str("task", "t").kind, ScopeKind::VcdTask);
    assert_eq!(Scope::from_str("generate", "g").kind, ScopeKind::Other);
    assert_eq!(Scope::from_bytes(b"task", b"t"), Scope::from_str("task", "t"));
    let scope = Scope::from_str("module", "top");
    assert_eq!(scope.clone(), scope);
}

#[test]
fn a_new_binary_header_is_empty() {
    assert!(FstHeader::default().variables.is_empty());
}

#[test]
fn a_logic_level_is_the_byte_of_a_wire_value() {
    assert_eq!(LogicLevel::new('0').value(), 0);
    assert_eq!(LogicLevel::new('1').value(), 1);
    assert_eq!(LogicLevel::new('u').value(), -1);
    assert_eq!(LogicLevel::new('W').value(), -2);
    assert_eq!(LogicLevel::new('z').value(), -3);
    assert_eq!(LogicLevel::new('X').value(), -4);
    assert_eq!(LogicLevel::new('?').value(), -5);
    assert_eq!(LogicLevel::new('x'), LogicLevel::new('X'));
}

#[test]
fn a_variable_of_the_binary_format_has_the_shape_of_a_declaration() {
    let variable = FstVariable {
        name: b"clk".to_vec(),
        direction: Direction::Input,
        kind: VariableKind::VcdWire,
        width: 1,
        handle: 7,
        scope: vec![FstScope { kind: ScopeKind::VcdModule, name: b"top".to_vec() }],
    };
    let info = variable.info();
    assert_eq!(info.id, b"");
    assert_eq!(info.name, b"clk");
    assert_eq!(info.direction, Direction::Input);
    assert_eq!(info.kind, VariableKind::VcdWire);
    assert_eq!(info.width, 1);
    assert_eq!(info.handle, 7);
    assert_eq!(info.range, None);
    assert_eq!(info.scope, vec![Scope { kind: ScopeKind::VcdModule, name: b"top".to_vec() }]);
}
