//! The descriptors that a waveform header is made of: scopes, variables,
//! their kinds, and the integer codes of those kinds.

use crate::circuit::{logic_level, spec_logic_level};
use crate::scan::is_word;
use vstd::prelude::*;
use vstd::slice::slice_to_vec;
use vstd::std_specs::convert::{FromSpecImpl, TryFromSpecImpl};
use vstd::string::StringSliceAdditionalSpecFns;

verus! {

/// The index part of a variable declaration: one bit, or an inclusive pair of
/// bounds, either of which may be negative.
#[derive(Clone, Copy, Debug, PartialEq, Eq)]
pub enum Range {
    Bit(u64),
    Range((i64, i64)),
}

impl View for Range {
    type V = Range;

    open spec fn view(&self) -> Range {
        *self
    }
}

/// The kind of a scope. The codes are contiguous; `End` is one past the last kind.
#[derive(Clone, Copy, Debug, PartialEq, Eq, Structural)]
pub enum ScopeKind {
    VcdModule,
    VcdTask,
    VcdFunction,
    VcdBegin,
    VcdFork,
    VcdGenerate,
    VcdStruct,
    VcdUnion,
    VcdClass,
    VcdInterface,
    VcdPackage,
    VcdProgram,
    VhdlArchitecture,
    VhdlProcedure,
    VhdlFunction,
    VhdlRecord,
    VhdlProcess,
    VhdlBlock,
    VhdlForGenerate,
    VhdlIfGenerate,
    VhdlGenerate,
    VhdlPackage,
    Other,
    End,
}

impl ScopeKind {
    /// The integer code of the kind.
    pub open spec fn spec_code(self) -> u8 {
        match self {
            ScopeKind::VcdModule => 0,
            ScopeKind::VcdTask => 1,
            ScopeKind::VcdFunction => 2,
            ScopeKind::VcdBegin => 3,
            ScopeKind::VcdFork => 4,
            ScopeKind::VcdGenerate => 5,
            ScopeKind::VcdStruct => 6,
            ScopeKind::VcdUnion => 7,
            ScopeKind::VcdClass => 8,
            ScopeKind::VcdInterface => 9,
            ScopeKind::VcdPackage => 10,
            ScopeKind::VcdProgram => 11,
            ScopeKind::VhdlArchitecture => 12,
            ScopeKind::VhdlProcedure => 13,
            ScopeKind::VhdlFunction => 14,
            ScopeKind::VhdlRecord => 15,
            ScopeKind::VhdlProcess => 16,
            ScopeKind::VhdlBlock => 17,
            ScopeKind::VhdlForGenerate => 18,
            ScopeKind::VhdlIfGenerate => 19,
            ScopeKind::VhdlGenerate => 20,
            ScopeKind::VhdlPackage => 21,
            ScopeKind::Other => 22,
            ScopeKind::End => 23,
        }
    }

    /// The integer code of the kind.
    #[verifier::when_used_as_spec(spec_code)]
    pub fn code(self) -> (c: u8)
        ensures
            c == self.spec_code(),
    {
        match self {
            ScopeKind::VcdModule => 0,
            ScopeKind::VcdTask => 1,
            ScopeKind::VcdFunction => 2,
            ScopeKind::VcdBegin => 3,
            ScopeKind::VcdFork => 4,
            ScopeKind::VcdGenerate => 5,
            ScopeKind::VcdStruct => 6,
            ScopeKind::VcdUnion => 7,
            ScopeKind::VcdClass => 8,
            ScopeKind::VcdInterface => 9,
            ScopeKind::VcdPackage => 10,
            ScopeKind::VcdProgram => 11,
            ScopeKind::VhdlArchitecture => 12,
            ScopeKind::VhdlProcedure => 13,
            ScopeKind::VhdlFunction => 14,
            ScopeKind::VhdlRecord => 15,
            ScopeKind::VhdlProcess => 16,
            ScopeKind::VhdlBlock => 17,
            ScopeKind::VhdlForGenerate => 18,
            ScopeKind::VhdlIfGenerate => 19,
            ScopeKind::VhdlGenerate => 20,
            ScopeKind::VhdlPackage => 21,
            ScopeKind::Other => 22,
            ScopeKind::End => 23,
        }
    }

    /// The kind that a `$scope` directive names; names outside the table are `Other`.
    pub open spec fn spec_named(name: Seq<u8>) -> ScopeKind {
        if name == "module".spec_bytes() {
            ScopeKind::VcdModule
        } else if name == "begin".spec_bytes() {
            ScopeKind::VcdBegin
        } else if name == "fork".spec_bytes() {
            ScopeKind::VcdFork
        } else if name == "function".spec_bytes() {
            ScopeKind::VcdFunction
        } else if name == "task".spec_bytes() {
            ScopeKind::VcdTask
        } else {
            ScopeKind::Other
        }
    }

    /// The kind of the given name.
    pub fn named(name: &[u8]) -> (kind: ScopeKind)
        ensures
            kind == Self::spec_named(name@),
    {
        if is_word(name, "module") {
            ScopeKind::VcdModule
        } else if is_word(name, "begin") {
            ScopeKind::VcdBegin
        } else if is_word(name, "fork") {
            ScopeKind::VcdFork
        } else if is_word(name, "function") {
            ScopeKind::VcdFunction
        } else if is_word(name, "task") {
            ScopeKind::VcdTask
        } else {
            ScopeKind::Other
        }
    }
}

impl ScopeKind {
    /// The kind with code `x`; codes from `End` on stand for no kind.
    pub open spec fn spec_from_code(x: u8) -> Option<ScopeKind> {
        match x {
            0 => Some(ScopeKind::VcdModule),
            1 => Some(ScopeKind::VcdTask),
            2 => Some(ScopeKind::VcdFunction),
            3 => Some(ScopeKind::VcdBegin),
            4 => Some(ScopeKind::VcdFork),
            5 => Some(ScopeKind::VcdGenerate),
            6 => Some(ScopeKind::VcdStruct),
            7 => Some(ScopeKind::VcdUnion),
            8 => Some(ScopeKind::VcdClass),
            9 => Some(ScopeKind::VcdInterface),
            10 => Some(ScopeKind::VcdPackage),
            11 => Some(ScopeKind::VcdProgram),
            12 => Some(ScopeKind::VhdlArchitecture),
            13 => Some(ScopeKind::VhdlProcedure),
            14 => Some(ScopeKind::VhdlFunction),
            15 => Some(ScopeKind::VhdlRecord),
            16 => Some(ScopeKind::VhdlProcess),
            17 => Some(ScopeKind::VhdlBlock),
            18 => Some(ScopeKind::VhdlForGenerate),
            19 => Some(ScopeKind::VhdlIfGenerate),
            20 => Some(ScopeKind::VhdlGenerate),
            21 => Some(ScopeKind::VhdlPackage),
            22 => Some(ScopeKind::Other),
            _ => None,
        }
    }

    /// Code and kind determine each other, and the codes run up to `End`.
    pub proof fn lemma_codes(x: u8, kind: ScopeKind)
        ensures
            Self::spec_from_code(x) == Some(kind) <==> kind.spec_code() == x && kind != ScopeKind::End,
            Self::spec_from_code(x) is Some <==> x < ScopeKind::End.spec_code(),
    {
    }
}

impl TryFrom<u8> for ScopeKind {
    type Error = ();

    /// The kind with code `x`; codes from `End` on stand for no kind.
    fn try_from(x: u8) -> (r: Result<ScopeKind, ()>) {
        match x {
            0 => Ok(ScopeKind::VcdModule),
            1 => Ok(ScopeKind::VcdTask),
            2 => Ok(ScopeKind::VcdFunction),
            3 => Ok(ScopeKind::VcdBegin),
            4 => Ok(ScopeKind::VcdFork),
            5 => Ok(ScopeKind::VcdGenerate),
            6 => Ok(ScopeKind::VcdStruct),
            7 => Ok(ScopeKind::VcdUnion),
            8 => Ok(ScopeKind::VcdClass),
            9 => Ok(ScopeKind::VcdInterface),
            10 => Ok(ScopeKind::VcdPackage),
            11 => Ok(ScopeKind::VcdProgram),
            12 => Ok(ScopeKind::VhdlArchitecture),
            13 => Ok(ScopeKind::VhdlProcedure),
            14 => Ok(ScopeKind::VhdlFunction),
            15 => Ok(ScopeKind::VhdlRecord),
            16 => Ok(ScopeKind::VhdlProcess),
            17 => Ok(ScopeKind::VhdlBlock),
            18 => Ok(ScopeKind::VhdlForGenerate),
            19 => Ok(ScopeKind::VhdlIfGenerate),
            20 => Ok(ScopeKind::VhdlGenerate),
            21 => Ok(ScopeKind::VhdlPackage),
            22 => Ok(ScopeKind::Other),
            _ => Err(()),
        }
    }
}

impl TryFromSpecImpl<u8> for ScopeKind {
    open spec fn obeys_try_from_spec() -> bool {
        true
    }

    open spec fn try_from_spec(x: u8) -> Result<ScopeKind, ()> {
        match Self::spec_from_code(x) {
            Some(kind) => Ok(kind),
            None => Err(()),
        }
    }
}

/// The kind of a variable. The codes are contiguous; `End` is one past the last kind
/// and also stands for a kind that the table of names does not hold.
#[derive(Clone, Copy, Debug, PartialEq, Eq, Structural)]
pub enum VariableKind {
    VcdEvent,
    VcdInteger,
    VcdParameter,
    VcdReal,
    VcdRealParameter,
    VcdReg,
    VcdSupply0,
    VcdSupply1,
    VcdTime,
    VcdTri,
    VcdTriand,
    VcdTrior,
    VcdTrireg,
    VcdTri0,
    VcdTri1,
    VcdWand,
    VcdWire,
    VcdWor,
    VcdPort,
    VcdSparray,
    VcdRealtime,
    GenString,
    SvBit,
    SvLogic,
    SvInt,
    SvShortint,
    SvLongint,
    SvByte,
    SvEnum,
    SvShortreal,
    End,
}

impl VariableKind {
    /// The integer code of the kind.
    pub open spec fn spec_code(self) -> u8 {
        match self {
            VariableKind::VcdEvent => 0,
            VariableKind::VcdInteger => 1,
            VariableKind::VcdParameter => 2,
            VariableKind::VcdReal => 3,
            VariableKind::VcdRealParameter => 4,
            VariableKind::VcdReg => 5,
            VariableKind::VcdSupply0 => 6,
            VariableKind::VcdSupply1 => 7,
            VariableKind::VcdTime => 8,
            VariableKind::VcdTri => 9,
            VariableKind::VcdTriand => 10,
            VariableKind::VcdTrior => 11,
            VariableKind::VcdTrireg => 12,
            VariableKind::VcdTri0 => 13,
            VariableKind::VcdTri1 => 14,
            VariableKind::VcdWand => 15,
            VariableKind::VcdWire => 16,
            VariableKind::VcdWor => 17,
            VariableKind::VcdPort => 18,
            VariableKind::VcdSparray => 19,
            VariableKind::VcdRealtime => 20,
            VariableKind::GenString => 21,
            VariableKind::SvBit => 22,
            VariableKind::SvLogic => 23,
            VariableKind::SvInt => 24,
            VariableKind::SvShortint => 25,
            VariableKind::SvLongint => 26,
            VariableKind::SvByte => 27,
            VariableKind::SvEnum => 28,
            VariableKind::SvShortreal => 29,
            VariableKind::End => 30,
        }
    }

    /// The integer code of the kind.
    #[verifier::when_used_as_spec(spec_code)]
    pub fn code(self) -> (c: u8)
        ensures
            c == self.spec_code(),
    {
        match self {
            VariableKind::VcdEvent => 0,
            VariableKind::VcdInteger => 1,
            VariableKind::VcdParameter => 2,
            VariableKind::VcdReal => 3,
            VariableKind::VcdRealParameter => 4,
            VariableKind::VcdReg => 5,
            VariableKind::VcdSupply0 => 6,
            VariableKind::VcdSupply1 => 7,
            VariableKind::VcdTime => 8,
            VariableKind::VcdTri => 9,
            VariableKind::VcdTriand => 10,
            VariableKind::VcdTrior => 11,
            VariableKind::VcdTrireg => 12,
            VariableKind::VcdTri0 => 13,
            VariableKind::VcdTri1 => 14,
            VariableKind::VcdWand => 15,
            VariableKind::VcdWire => 16,
            VariableKind::VcdWor => 17,
            VariableKind::VcdPort => 18,
            VariableKind::VcdSparray => 19,
            VariableKind::VcdRealtime => 20,
            VariableKind::GenString => 21,
            VariableKind::SvBit => 22,
            VariableKind::SvLogic => 23,
            VariableKind::SvInt => 24,
            VariableKind::SvShortint => 25,
            VariableKind::SvLongint => 26,
            VariableKind::SvByte => 27,
            VariableKind::SvEnum => 28,
            VariableKind::SvShortreal => 29,
            VariableKind::End => 30,
        }
    }

    /// The kind that a `$var` directive names; names outside the table give `End`.
    pub open spec fn spec_named(name: Seq<u8>) -> VariableKind {
        if name == "event".spec_bytes() {
            VariableKind::VcdEvent
        } else if name == "integer".spec_bytes() {
            VariableKind::VcdInteger
        } else if name == "parameter".spec_bytes() {
            VariableKind::VcdParameter
        } else if name == "real".spec_bytes() {
            VariableKind::VcdReal
        } else if name == "reg".spec_bytes() {
            VariableKind::VcdReg
        } else if name == "supply0".spec_bytes() {
            VariableKind::VcdSupply0
        } else if name == "supply1".spec_bytes() {
            VariableKind::VcdSupply1
        } else if name == "time".spec_bytes() {
            VariableKind::VcdTime
        } else if name == "tri".spec_bytes() {
            VariableKind::VcdTri
        } else if name == "triand".spec_bytes() {
            VariableKind::VcdTriand
        } else if name == "trior".spec_bytes() {
            VariableKind::VcdTrior
        } else if name == "trireg".spec_bytes() {
            VariableKind::VcdTrireg
        } else if name == "tri0".spec_bytes() {
            VariableKind::VcdTri0
        } else if name == "tri1".spec_bytes() {
            VariableKind::VcdTri1
        } else if name == "wand".spec_bytes() {
            VariableKind::VcdWand
        } else if name == "wire".spec_bytes() {
            VariableKind::VcdWire
        } else if name == "wor".spec_bytes() {
            VariableKind::VcdWor
        } else {
            VariableKind::End
        }
    }

    /// The kind of the given name.
    pub fn named(name: &[u8]) -> (kind: VariableKind)
        ensures
            kind == Self::spec_named(name@),
    {
        if is_word(name, "event") {
            VariableKind::VcdEvent
        } else if is_word(name, "integer") {
            VariableKind::VcdInteger
        } else if is_word(name, "parameter") {
            VariableKind::VcdParameter
        } else if is_word(name, "real") {
            VariableKind::VcdReal
        } else if is_word(name, "reg") {
            VariableKind::VcdReg
        } else if is_word(name, "supply0") {
            VariableKind::VcdSupply0
        } else if is_word(name, "supply1") {
            VariableKind::VcdSupply1
        } else if is_word(name, "time") {
            VariableKind::VcdTime
        } else if is_word(name, "tri") {
            VariableKind::VcdTri
        } else if is_word(name, "triand") {
            VariableKind::VcdTriand
        } else if is_word(name, "trior") {
            VariableKind::VcdTrior
        } else if is_word(name, "trireg") {
            VariableKind::VcdTrireg
        } else if is_word(name, "tri0") {
            VariableKind::VcdTri0
        } else if is_word(name, "tri1") {
            VariableKind::VcdTri1
        } else if is_word(name, "wand") {
            VariableKind::VcdWand
        } else if is_word(name, "wire") {
            VariableKind::VcdWire
        } else if is_word(name, "wor") {
            VariableKind::VcdWor
        } else {
            VariableKind::End
        }
    }
}

impl From<&str> for VariableKind {
    fn from(name: &str) -> (kind: VariableKind) {
        VariableKind::named(name.as_bytes())
    }
}

impl FromSpecImpl<&str> for VariableKind {
    open spec fn obeys_from_spec() -> bool {
        true
    }

    open spec fn from_spec(name: &str) -> VariableKind {
        VariableKind::spec_named(name.spec_bytes())
    }
}

impl VariableKind {
    /// The kind with code `x`; codes from `End` on stand for no kind.
    pub open spec fn spec_from_code(x: u8) -> Option<VariableKind> {
        match x {
            0 => Some(VariableKind::VcdEvent),
            1 => Some(VariableKind::VcdInteger),
            2 => Some(VariableKind::VcdParameter),
            3 => Some(VariableKind::VcdReal),
            4 => Some(VariableKind::VcdRealParameter),
            5 => Some(VariableKind::VcdReg),
            6 => Some(VariableKind::VcdSupply0),
            7 => Some(VariableKind::VcdSupply1),
            8 => Some(VariableKind::VcdTime),
            9 => Some(VariableKind::VcdTri),
            10 => Some(VariableKind::VcdTriand),
            11 => Some(VariableKind::VcdTrior),
            12 => Some(VariableKind::VcdTrireg),
            13 => Some(VariableKind::VcdTri0),
            14 => Some(VariableKind::VcdTri1),
            15 => Some(VariableKind::VcdWand),
            16 => Some(VariableKind::VcdWire),
            17 => Some(VariableKind::VcdWor),
            18 => Some(VariableKind::VcdPort),
            19 => Some(VariableKind::VcdSparray),
            20 => Some(VariableKind::VcdRealtime),
            21 => Some(VariableKind::GenString),
            22 => Some(VariableKind::SvBit),
            23 => Some(VariableKind::SvLogic),
            24 => Some(VariableKind::SvInt),
            25 => Some(VariableKind::SvShortint),
            26 => Some(VariableKind::SvLongint),
            27 => Some(VariableKind::SvByte),
            28 => Some(VariableKind::SvEnum),
            29 => Some(VariableKind::SvShortreal),
            _ => None,
        }
    }

    /// Code and kind determine each other, and the codes run up to `End`.
    pub proof fn lemma_codes(x: u8, kind: VariableKind)
        ensures
            Self::spec_from_code(x) == Some(kind) <==> kind.spec_code() == x && kind != VariableKind::End,
            Self::spec_from_code(x) is Some <==> x < VariableKind::End.spec_code(),
    {
    }
}

impl TryFrom<u8> for VariableKind {
    type Error = ();

    /// The kind with code `x`; codes from `End` on stand for no kind.
    fn try_from(x: u8) -> (r: Result<VariableKind, ()>) {
        match x {
            0 => Ok(VariableKind::VcdEvent),
            1 => Ok(VariableKind::VcdInteger),
            2 => Ok(VariableKind::VcdParameter),
            3 => Ok(VariableKind::VcdReal),
            4 => Ok(VariableKind::VcdRealParameter),
            5 => Ok(VariableKind::VcdReg),
            6 => Ok(VariableKind::VcdSupply0),
            7 => Ok(VariableKind::VcdSupply1),
            8 => Ok(VariableKind::VcdTime),
            9 => Ok(VariableKind::VcdTri),
            10 => Ok(VariableKind::VcdTriand),
            11 => Ok(VariableKind::VcdTrior),
            12 => Ok(VariableKind::VcdTrireg),
            13 => Ok(VariableKind::VcdTri0),
            14 => Ok(VariableKind::VcdTri1),
            15 => Ok(VariableKind::VcdWand),
            16 => Ok(VariableKind::VcdWire),
            17 => Ok(VariableKind::VcdWor),
            18 => Ok(VariableKind::VcdPort),
            19 => Ok(VariableKind::VcdSparray),
            20 => Ok(VariableKind::VcdRealtime),
            21 => Ok(VariableKind::GenString),
            22 => Ok(VariableKind::SvBit),
            23 => Ok(VariableKind::SvLogic),
            24 => Ok(VariableKind::SvInt),
            25 => Ok(VariableKind::SvShortint),
            26 => Ok(VariableKind::SvLongint),
            27 => Ok(VariableKind::SvByte),
            28 => Ok(VariableKind::SvEnum),
            29 => Ok(VariableKind::SvShortreal),
            _ => Err(()),
        }
    }
}

impl TryFromSpecImpl<u8> for VariableKind {
    open spec fn obeys_try_from_spec() -> bool {
        true
    }

    open spec fn try_from_spec(x: u8) -> Result<VariableKind, ()> {
        match Self::spec_from_code(x) {
            Some(kind) => Ok(kind),
            None => Err(()),
        }
    }
}

/// The direction of a variable. A dump of value changes declares none: there every
/// variable is `Implicit`.
#[derive(Clone, Copy, Debug, PartialEq, Eq, Structural)]
pub enum Direction {
    Implicit,
    Input,
    Output,
    Inout,
    Buffer,
    Linkage,
    End,
}

impl Direction {
    /// The integer code of the kind.
    pub open spec fn spec_code(self) -> u8 {
        match self {
            Direction::Implicit => 0,
            Direction::Input => 1,
            Direction::Output => 2,
            Direction::Inout => 3,
            Direction::Buffer => 4,
            Direction::Linkage => 5,
            Direction::End => 6,
        }
    }

    /// The integer code of the kind.
    #[verifier::when_used_as_spec(spec_code)]
    pub fn code(self) -> (c: u8)
        ensures
            c == self.spec_code(),
    {
        match self {
            Direction::Implicit => 0,
            Direction::Input => 1,
            Direction::Output => 2,
            Direction::Inout => 3,
            Direction::Buffer => 4,
            Direction::Linkage => 5,
            Direction::End => 6,
        }
    }
}

impl Direction {
    /// The kind with code `x`; codes from `End` on stand for no kind.
    pub open spec fn spec_from_code(x: u8) -> Option<Direction> {
        match x {
            0 => Some(Direction::Implicit),
            1 => Some(Direction::Input),
            2 => Some(Direction::Output),
            3 => Some(Direction::Inout),
            4 => Some(Direction::Buffer),
            5 => Some(Direction::Linkage),
            _ => None,
        }
    }

    /// Code and kind determine each other, and the codes run up to `End`.
    pub proof fn lemma_codes(x: u8, kind: Direction)
        ensures
            Self::spec_from_code(x) == Some(kind) <==> kind.spec_code() == x && kind != Direction::End,
            Self::spec_from_code(x) is Some <==> x < Direction::End.spec_code(),
    {
    }
}

impl TryFrom<u8> for Direction {
    type Error = ();

    /// The kind with code `x`; codes from `End` on stand for no kind.
    fn try_from(x: u8) -> (r: Result<Direction, ()>) {
        match x {
            0 => Ok(Direction::Implicit),
            1 => Ok(Direction::Input),
            2 => Ok(Direction::Output),
            3 => Ok(Direction::Inout),
            4 => Ok(Direction::Buffer),
            5 => Ok(Direction::Linkage),
            _ => Err(()),
        }
    }
}

impl TryFromSpecImpl<u8> for Direction {
    open spec fn obeys_try_from_spec() -> bool {
        true
    }

    open spec fn try_from_spec(x: u8) -> Result<Direction, ()> {
        match Self::spec_from_code(x) {
            Some(kind) => Ok(kind),
            None => Err(()),
        }
    }
}

/// One level of the hierarchy that a variable is declared in.
#[derive(Debug, PartialEq, Eq)]
pub struct Scope {
    pub kind: ScopeKind,
    pub name: Vec<u8>,
}

/// A scope as a mathematical value.
pub struct ScopeView {
    pub kind: ScopeKind,
    pub name: Seq<u8>,
}

impl View for Scope {
    type V = ScopeView;

    open spec fn view(&self) -> ScopeView {
        ScopeView { kind: self.kind, name: self.name@ }
    }
}

impl Clone for Scope {
    fn clone(&self) -> (copy: Scope)
        ensures
            copy@ == self@,
    {
        Scope { kind: self.kind, name: slice_to_vec(self.name.as_slice()) }
    }
}

impl Scope {
    /// The scope that `$scope kind name` opens.
    pub fn from_bytes(kind: &[u8], name: &[u8]) -> (scope: Scope)
        ensures
            scope@ == (ScopeView { kind: ScopeKind::spec_named(kind@), name: name@ }),
    {
        Scope { kind: ScopeKind::named(kind), name: slice_to_vec(name) }
    }

    /// The scope of the given kind name and name.
    pub fn from_str(kind_str: &str, name: &str) -> (scope: Scope)
        ensures
            scope@ == (ScopeView {
                kind: ScopeKind::spec_named(kind_str.spec_bytes()),
                name: name.spec_bytes(),
            }),
    {
        Scope::from_bytes(kind_str.as_bytes(), name.as_bytes())
    }
}

/// The views of a stack of scopes, outermost first.
pub open spec fn scopes_view(scopes: Seq<Scope>) -> Seq<ScopeView> {
    scopes.map_values(|s: Scope| s@)
}

/// Copies a stack of scopes.
pub fn clone_scopes(scopes: &Vec<Scope>) -> (copy: Vec<Scope>)
    ensures
        scopes_view(copy@) == scopes_view(scopes@),
{
    let mut copy: Vec<Scope> = Vec::new();
    let mut i: usize = 0;
    while i < scopes.len()
        invariant
            i <= scopes.len(),
            copy.len() == i,
            forall|k: int| 0 <= k < i ==> copy@[k]@ == scopes@[k]@,
        decreases scopes.len() - i,
    {
        copy.push(scopes[i].clone());
        i += 1;
    }
    assert(scopes_view(copy@) =~= scopes_view(scopes@));
    copy
}

/// What a header declares of one variable.
#[derive(Debug, PartialEq, Eq)]
pub struct VariableInfo {
    /// The short identifier that value changes name the variable by.
    pub id: Vec<u8>,
    pub name: Vec<u8>,
    pub direction: Direction,
    pub kind: VariableKind,
    /// The number of bits.
    pub width: u32,
    pub range: Option<Range>,
    pub handle: u32,
    /// The scopes around the declaration, outermost first.
    pub scope: Vec<Scope>,
}

/// A variable declaration as a mathematical value.
pub struct VariableView {
    pub id: Seq<u8>,
    pub name: Seq<u8>,
    pub direction: Direction,
    pub kind: VariableKind,
    pub width: u32,
    pub range: Option<Range>,
    pub handle: u32,
    pub scope: Seq<ScopeView>,
}

impl View for VariableInfo {
    type V = VariableView;

    open spec fn view(&self) -> VariableView {
        VariableView {
            id: self.id@,
            name: self.name@,
            direction: self.direction,
            kind: self.kind,
            width: self.width,
            range: self.range,
            handle: self.handle,
            scope: scopes_view(self.scope@),
        }
    }
}

impl Clone for VariableInfo {
    fn clone(&self) -> (copy: VariableInfo)
        ensures
            copy@ == self@,
    {
        VariableInfo {
            id: slice_to_vec(self.id.as_slice()),
            name: slice_to_vec(self.name.as_slice()),
            direction: self.direction,
            kind: self.kind,
            width: self.width,
            range: self.range,
            handle: self.handle,
            scope: clone_scopes(&self.scope),
        }
    }
}

/// The views of a list of variable declarations, in order.
pub open spec fn variables_view(variables: Seq<VariableInfo>) -> Seq<VariableView> {
    variables.map_values(|v: VariableInfo| v@)
}

/// The variables that a waveform in the binary format declares.
#[derive(Debug, PartialEq, Eq)]
pub struct FstHeader {
    pub variables: Vec<VariableInfo>,
}

impl View for FstHeader {
    type V = Seq<VariableView>;

    open spec fn view(&self) -> Seq<VariableView> {
        variables_view(self.variables@)
    }
}

impl Clone for FstHeader {
    fn clone(&self) -> (copy: FstHeader)
        ensures
            copy@ == self@,
    {
        let mut variables: Vec<VariableInfo> = Vec::new();
        let mut i: usize = 0;
        while i < self.variables.len()
            invariant
                i <= self.variables.len(),
                variables.len() == i,
                forall|k: int| 0 <= k < i ==> variables@[k]@ == self.variables@[k]@,
            decreases self.variables.len() - i,
        {
            variables.push(self.variables[i].clone());
            i += 1;
        }
        let copy = FstHeader { variables };
        assert(copy@ =~= self@);
        copy
    }
}

impl Default for FstHeader {
    fn default() -> (header: FstHeader)
        ensures
            header@ == Seq::<VariableView>::empty(),
    {
        let header = FstHeader { variables: Vec::new() };
        assert(header@ =~= Seq::<VariableView>::empty());
        header
    }
}

/// One level of the hierarchy of a waveform in the binary format.
#[derive(Debug, PartialEq, Eq)]
pub struct FstScope {
    pub kind: ScopeKind,
    pub name: Vec<u8>,
}

impl View for FstScope {
    type V = ScopeView;

    open spec fn view(&self) -> ScopeView {
        ScopeView { kind: self.kind, name: self.name@ }
    }
}

impl FstScope {
    /// The scope as a scope of a header.
    pub fn scope(&self) -> (scope: Scope)
        ensures
            scope@ == self@,
    {
        Scope { kind: self.kind, name: slice_to_vec(self.name.as_slice()) }
    }
}

/// What a waveform in the binary format declares of one variable: it has a
/// handle in place of an identifier, and no range.
#[derive(Debug, PartialEq, Eq)]
pub struct FstVariable {
    pub name: Vec<u8>,
    pub direction: Direction,
    pub kind: VariableKind,
    pub width: u32,
    pub handle: u32,
    pub scope: Vec<FstScope>,
}

impl FstVariable {
    /// The declaration as a mathematical value, in the shape of the
    /// declarations of a header.
    pub open spec fn spec_info(&self) -> VariableView {
        VariableView {
            id: Seq::empty(),
            name: self.name@,
            direction: self.direction,
            kind: self.kind,
            width: self.width,
            range: None,
            handle: self.handle,
            scope: self.scope@.map_values(|s: FstScope| s@),
        }
    }

    /// The declaration in the shape of the declarations of a header.
    pub fn info(&self) -> (info: VariableInfo)
        ensures
            info@ == self.spec_info(),
    {
        let mut scope: Vec<Scope> = Vec::new();
        let mut i: usize = 0;
        while i < self.scope.len()
            invariant
                i <= self.scope.len(),
                scope.len() == i,
                forall|k: int| 0 <= k < i ==> scope@[k]@ == self.scope@[k]@,
            decreases self.scope.len() - i,
        {
            scope.push(self.scope[i].scope());
            i += 1;
        }
        assert(scopes_view(scope@) =~= self.scope@.map_values(|s: FstScope| s@));
        let info = VariableInfo {
            id: Vec::new(),
            name: slice_to_vec(self.name.as_slice()),
            direction: self.direction,
            kind: self.kind,
            width: self.width,
            range: None,
            handle: self.handle,
            scope,
        };
        assert(info@.id =~= Seq::<u8>::empty());
        info
    }
}

/// One logic level: the signed byte that stands for a wire value.
#[derive(Debug, Clone, Copy, PartialEq, Eq)]
pub struct LogicLevel(i8);

impl LogicLevel {
    #[verifier::type_invariant]
    spec fn in_range(&self) -> bool {
        -5 <= self.0 <= 1
    }

    /// The byte.
    pub closed spec fn spec_value(&self) -> i8 {
        self.0
    }

    /// The logic level of the wire value `c`.
    pub fn new(c: char) -> (level: LogicLevel)
        ensures
            level.spec_value() == spec_logic_level(c),
    {
        LogicLevel(logic_level(c))
    }

    /// The byte: one of -5, -4, -3, -2, -1, 0, 1.
    #[verifier::when_used_as_spec(spec_value)]
    pub fn value(&self) -> (value: i8)
        ensures
            value == self.spec_value(),
            -5 <= value <= 1,
    {
        proof {
            use_type_invariant(self);
        }
        self.0
    }
}

} // verus!
