//! The header of a waveform in the binary format, built from the events of
//! its hierarchy, and the kinds of file of that format.

use crate::types::{
    clone_scopes, scopes_view, Direction, FstHeader, Scope, ScopeKind, ScopeView, VariableInfo,
    VariableKind, VariableView,
};
use vstd::prelude::*;
use vstd::slice::slice_to_vec;

verus! {

/// Why reading a waveform in the binary format failed.
#[derive(Debug, Copy, Clone, PartialEq, Eq, Hash)]
pub enum FstError {
    InvalidFile,
    InvalidConversion,
    NullPointer,
    Utf8Error,
}

/// The language that a waveform in the binary format came from.
#[derive(Debug, Copy, Clone, PartialEq, Eq, Hash)]
pub enum FstFileType {
    Verilog,
    Vhdl,
    VerilogVhdl,
}

impl FstFileType {
    /// The kind of file with the code `code`: 0, 1 and 2 are kinds, nothing else is.
    pub open spec fn spec_from_code(code: u32) -> Result<FstFileType, FstError> {
        if code == 0 {
            Ok(FstFileType::Verilog)
        } else if code == 1 {
            Ok(FstFileType::Vhdl)
        } else if code == 2 {
            Ok(FstFileType::VerilogVhdl)
        } else {
            Err(FstError::InvalidConversion)
        }
    }

    /// The kind of file with the code `code`.
    pub fn from_code(code: u32) -> (kind: Result<FstFileType, FstError>)
        ensures
            kind == Self::spec_from_code(code),
    {
        match code {
            0 => Ok(FstFileType::Verilog),
            1 => Ok(FstFileType::Vhdl),
            2 => Ok(FstFileType::VerilogVhdl),
            _ => Err(FstError::InvalidConversion),
        }
    }
}

/// One event of the hierarchy of a waveform, with the codes as the file has them.
#[derive(Debug, PartialEq, Eq)]
pub enum HierEvent {
    /// A scope opens.
    Scope { kind: u8, name: Vec<u8> },
    /// The innermost scope closes.
    Upscope,
    /// A variable is declared.
    Var { kind: u8, direction: u8, name: Vec<u8>, width: u32, handle: u32 },
    /// An attribute begins.
    AttrBegin,
    /// An attribute ends.
    AttrEnd,
}

/// An event as a mathematical value.
pub enum HierEventView {
    Scope { kind: u8, name: Seq<u8> },
    Upscope,
    Var { kind: u8, direction: u8, name: Seq<u8>, width: u32, handle: u32 },
    AttrBegin,
    AttrEnd,
}

impl View for HierEvent {
    type V = HierEventView;

    open spec fn view(&self) -> HierEventView {
        match *self {
            HierEvent::Scope { kind, name } => HierEventView::Scope { kind, name: name@ },
            HierEvent::Upscope => HierEventView::Upscope,
            HierEvent::Var { kind, direction, name, width, handle } => HierEventView::Var {
                kind,
                direction,
                name: name@,
                width,
                handle,
            },
            HierEvent::AttrBegin => HierEventView::AttrBegin,
            HierEvent::AttrEnd => HierEventView::AttrEnd,
        }
    }
}

impl HierEventView {
    /// Whether the codes of the event stand for kinds and directions.
    pub open spec fn valid(self) -> bool {
        match self {
            HierEventView::Scope { kind, name: _ } => ScopeKind::spec_from_code(kind) is Some,
            HierEventView::Var { kind, direction, name: _, width: _, handle: _ } => {
                &&& VariableKind::spec_from_code(kind) is Some
                &&& Direction::spec_from_code(direction) is Some
            },
            _ => true,
        }
    }
}

/// A header builder as a mathematical value.
pub struct BuilderView {
    /// The variables declared so far.
    pub variables: Seq<VariableView>,
    /// The scopes that are open, outermost first.
    pub scope: Seq<ScopeView>,
}

impl BuilderView {
    /// The builder after the valid event `event`. A variable is declared in
    /// the scopes that are open; it has no identifier and no range.
    pub open spec fn apply(self, event: HierEventView) -> BuilderView {
        match event {
            HierEventView::Scope { kind, name } => BuilderView {
                scope: self.scope.push(
                    ScopeView { kind: ScopeKind::spec_from_code(kind)->Some_0, name },
                ),
                ..self
            },
            HierEventView::Upscope => BuilderView {
                scope: if self.scope.len() > 0 {
                    self.scope.drop_last()
                } else {
                    self.scope
                },
                ..self
            },
            HierEventView::Var { kind, direction, name, width, handle } => BuilderView {
                variables: self.variables.push(
                    VariableView {
                        id: Seq::empty(),
                        name,
                        direction: Direction::spec_from_code(direction)->Some_0,
                        kind: VariableKind::spec_from_code(kind)->Some_0,
                        width,
                        range: None,
                        handle,
                        scope: self.scope,
                    },
                ),
                ..self
            },
            HierEventView::AttrBegin => self,
            HierEventView::AttrEnd => self,
        }
    }
}

/// Builds the header of a waveform from the events of its hierarchy.
pub struct FstHeaderBuilder {
    header: FstHeader,
    scope: Vec<Scope>,
}

impl View for FstHeaderBuilder {
    type V = BuilderView;

    closed spec fn view(&self) -> BuilderView {
        BuilderView { variables: self.header@, scope: scopes_view(self.scope@) }
    }
}

impl FstHeaderBuilder {
    /// A builder that has seen no event.
    pub fn new() -> (builder: FstHeaderBuilder)
        ensures
            builder@ == (BuilderView { variables: Seq::empty(), scope: Seq::empty() }),
    {
        let builder = FstHeaderBuilder { header: FstHeader::default(), scope: Vec::new() };
        assert(builder@.scope =~= Seq::empty());
        builder
    }

    /// Takes one event into the header. An event with a code that stands for
    /// no kind or direction is refused and changes nothing.
    pub fn apply(&mut self, event: &HierEvent) -> (res: Result<(), FstError>)
        ensures
            event@.valid() ==> res is Ok && final(self)@ == old(self)@.apply(event@),
            !event@.valid() ==> res == Err::<(), FstError>(FstError::InvalidConversion)
                && final(self)@ == old(self)@,
    {
        match event {
            HierEvent::Scope { kind, name } => {
                match ScopeKind::try_from(*kind) {
                    Ok(kind) => {
                        self.scope.push(Scope { kind, name: slice_to_vec(name.as_slice()) });
                        assert(self@.scope =~= old(self)@.apply(event@).scope);
                        Ok(())
                    },
                    Err(_) => Err(FstError::InvalidConversion),
                }
            },
            HierEvent::Upscope => {
                let _ = self.scope.pop();
                assert(self@.scope =~= old(self)@.apply(event@).scope);
                Ok(())
            },
            HierEvent::Var { kind, direction, name, width, handle } => {
                let kind = match VariableKind::try_from(*kind) {
                    Ok(kind) => kind,
                    Err(_) => {
                        return Err(FstError::InvalidConversion);
                    },
                };
                let direction = match Direction::try_from(*direction) {
                    Ok(direction) => direction,
                    Err(_) => {
                        return Err(FstError::InvalidConversion);
                    },
                };
                let variable = VariableInfo {
                    id: Vec::new(),
                    name: slice_to_vec(name.as_slice()),
                    direction,
                    kind,
                    width: *width,
                    range: None,
                    handle: *handle,
                    scope: clone_scopes(&self.scope),
                };
                self.header.variables.push(variable);
                assert(self@.variables =~= old(self)@.apply(event@).variables);
                Ok(())
            },
            HierEvent::AttrBegin => Ok(()),
            HierEvent::AttrEnd => Ok(()),
        }
    }

    /// The header as built so far.
    pub fn finish(self) -> (header: FstHeader)
        ensures
            header@ == self@.variables,
    {
        self.header
    }
}

} // verus!
