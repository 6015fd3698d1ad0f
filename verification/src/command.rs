//! The records of a waveform body. What they hold is borrowed from the bytes
//! that were parsed.

use vstd::prelude::*;
use vstd::slice::slice_to_vec;

verus! {

/// The new value that a value-change record gives to a variable.
#[derive(Clone, Copy, Debug, PartialEq, Eq)]
pub enum VcdValue<'a> {
    /// One wire value.
    Bit(char),
    /// The wire values of a vector, leftmost first.
    Vector(&'a [u8]),
    /// The text of a real number.
    Real(&'a [u8]),
}

/// A value as a mathematical value.
pub enum ValueView {
    Bit(char),
    Vector(Seq<u8>),
    Real(Seq<u8>),
}

impl<'a> View for VcdValue<'a> {
    type V = ValueView;

    open spec fn view(&self) -> ValueView {
        match *self {
            VcdValue::Bit(c) => ValueView::Bit(c),
            VcdValue::Vector(bits) => ValueView::Vector(bits@),
            VcdValue::Real(text) => ValueView::Real(text@),
        }
    }
}

impl ValueView {
    /// The number of wire values that the record writes.
    pub open spec fn width(self) -> nat {
        match self {
            ValueView::Bit(_) => 1,
            ValueView::Vector(bits) => bits.len(),
            ValueView::Real(_) => 1,
        }
    }
}

impl<'a> VcdValue<'a> {
    /// The number of wire values that the record writes.
    pub fn width(&self) -> (w: usize)
        ensures
            w == self@.width(),
    {
        match self {
            VcdValue::Bit(_) => 1,
            VcdValue::Vector(bits) => bits.len(),
            VcdValue::Real(_) => 1,
        }
    }
}

/// A value-change record: the variable's identifier and its new value.
#[derive(Clone, Copy, Debug, PartialEq, Eq)]
pub struct VcdChange<'a> {
    pub var_id: &'a [u8],
    pub value: VcdValue<'a>,
}

/// A value-change record as a mathematical value.
pub struct ChangeView {
    pub var_id: Seq<u8>,
    pub value: ValueView,
}

impl<'a> View for VcdChange<'a> {
    type V = ChangeView;

    open spec fn view(&self) -> ChangeView {
        ChangeView { var_id: self.var_id@, value: self.value@ }
    }
}

/// One record of a waveform body.
#[derive(Clone, Copy, Debug, PartialEq, Eq)]
pub enum VcdCommand<'a> {
    /// A `$name` directive other than `$end`.
    Directive(&'a [u8]),
    /// The `$end` that closes a directive.
    VcdEnd,
    /// A `#t` record: the time from which the following changes hold.
    SetCycle(u64),
    ValueChange(VcdChange<'a>),
}

/// A record as a mathematical value.
pub enum CommandView {
    Directive(Seq<u8>),
    VcdEnd,
    SetCycle(u64),
    ValueChange(ChangeView),
}

impl<'a> View for VcdCommand<'a> {
    type V = CommandView;

    open spec fn view(&self) -> CommandView {
        match *self {
            VcdCommand::Directive(name) => CommandView::Directive(name@),
            VcdCommand::VcdEnd => CommandView::VcdEnd,
            VcdCommand::SetCycle(t) => CommandView::SetCycle(t),
            VcdCommand::ValueChange(change) => CommandView::ValueChange(change@),
        }
    }
}

/// The new value of a value-change record, holding its own bytes.
#[derive(Debug, PartialEq, Eq)]
pub enum OwnedValue {
    Bit(char),
    Vector(Vec<u8>),
    Real(Vec<u8>),
}

impl View for OwnedValue {
    type V = ValueView;

    open spec fn view(&self) -> ValueView {
        match *self {
            OwnedValue::Bit(c) => ValueView::Bit(c),
            OwnedValue::Vector(bits) => ValueView::Vector(bits@),
            OwnedValue::Real(text) => ValueView::Real(text@),
        }
    }
}

/// A record of a waveform body that holds its own bytes, to be kept when
/// the window it was parsed from has moved on.
#[derive(Debug, PartialEq, Eq)]
pub enum OwnedCommand {
    Directive(Vec<u8>),
    VcdEnd,
    SetCycle(u64),
    ValueChange { var_id: Vec<u8>, value: OwnedValue },
}

impl View for OwnedCommand {
    type V = CommandView;

    open spec fn view(&self) -> CommandView {
        match *self {
            OwnedCommand::Directive(name) => CommandView::Directive(name@),
            OwnedCommand::VcdEnd => CommandView::VcdEnd,
            OwnedCommand::SetCycle(t) => CommandView::SetCycle(t),
            OwnedCommand::ValueChange { var_id, value } => CommandView::ValueChange(
                ChangeView { var_id: var_id@, value: value@ },
            ),
        }
    }
}

impl<'a> VcdCommand<'a> {
    /// The record with bytes of its own.
    pub fn owned(&self) -> (copy: OwnedCommand)
        ensures
            copy@ == self@,
    {
        match self {
            VcdCommand::Directive(name) => OwnedCommand::Directive(slice_to_vec(name)),
            VcdCommand::VcdEnd => OwnedCommand::VcdEnd,
            VcdCommand::SetCycle(t) => OwnedCommand::SetCycle(*t),
            VcdCommand::ValueChange(change) => OwnedCommand::ValueChange {
                var_id: slice_to_vec(change.var_id),
                value: match change.value {
                    VcdValue::Bit(c) => OwnedValue::Bit(c),
                    VcdValue::Vector(bits) => OwnedValue::Vector(slice_to_vec(bits)),
                    VcdValue::Real(text) => OwnedValue::Real(slice_to_vec(text)),
                },
            },
        }
    }
}

impl OwnedCommand {
    /// The record, borrowing its bytes.
    pub fn as_command(&self) -> (command: VcdCommand<'_>)
        ensures
            command@ == self@,
    {
        match self {
            OwnedCommand::Directive(name) => VcdCommand::Directive(name.as_slice()),
            OwnedCommand::VcdEnd => VcdCommand::VcdEnd,
            OwnedCommand::SetCycle(t) => VcdCommand::SetCycle(*t),
            OwnedCommand::ValueChange { var_id, value } => VcdCommand::ValueChange(
                VcdChange {
                    var_id: var_id.as_slice(),
                    value: match value {
                        OwnedValue::Bit(c) => VcdValue::Bit(*c),
                        OwnedValue::Vector(bits) => VcdValue::Vector(bits.as_slice()),
                        OwnedValue::Real(text) => VcdValue::Real(text.as_slice()),
                    },
                },
            ),
        }
    }
}

} // verus!
