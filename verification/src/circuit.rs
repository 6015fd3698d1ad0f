//! The state vector of a circuit and the table that maps each variable to its
//! bytes in it. The circuit is the sink that value changes are applied to.

use crate::command::{ChangeView, CommandView, ValueView, VcdChange, VcdCommand, VcdValue};
use crate::scan::same_bytes;
use crate::types::{variables_view, VariableInfo, VariableKind, VariableView};
use crate::vcd::CommandSink;
use vstd::prelude::*;
use vstd::slice::slice_to_vec;

verus! {

/// The signed byte that stands for one wire value: `0` and `1` for themselves,
/// -1 for `U`, -2 for `W`, -3 for `Z`, -4 for `X`, in either case, and -5 for
/// anything else.
pub open spec fn spec_logic_level(c: char) -> i8 {
    if c == '0' {
        0i8
    } else if c == '1' {
        1i8
    } else if c == 'U' || c == 'u' {
        -1i8
    } else if c == 'W' || c == 'w' {
        -2i8
    } else if c == 'Z' || c == 'z' {
        -3i8
    } else if c == 'X' || c == 'x' {
        -4i8
    } else {
        -5i8
    }
}

/// The signed byte that stands for the wire value `c`.
#[verifier::when_used_as_spec(spec_logic_level)]
pub fn logic_level(c: char) -> (level: i8)
    ensures
        level == spec_logic_level(c),
        -5 <= level <= 1,
{
    match c {
        '0' => 0,
        '1' => 1,
        'U' | 'u' => -1,
        'W' | 'w' => -2,
        'Z' | 'z' => -3,
        'X' | 'x' => -4,
        _ => -5,
    }
}

/// Where a variable lives in the state vector.
pub struct Slot {
    id: Vec<u8>,
    offset: usize,
    width: usize,
}

/// A slot as a mathematical value.
pub struct SlotView {
    pub id: Seq<u8>,
    pub offset: nat,
    pub width: nat,
}

impl View for Slot {
    type V = SlotView;

    closed spec fn view(&self) -> SlotView {
        SlotView { id: self.id@, offset: self.offset as nat, width: self.width as nat }
    }
}

/// The sum of the widths of `slots`.
pub open spec fn total_width(slots: Seq<SlotView>) -> nat
    decreases slots.len(),
{
    if slots.len() == 0 {
        0
    } else {
        total_width(slots.drop_last()) + slots.last().width
    }
}

/// Each slot begins where the one before it ends, and the first at zero.
pub open spec fn packed(slots: Seq<SlotView>) -> bool {
    forall|i: int| 0 <= i < slots.len() ==> (#[trigger] slots[i]).offset == total_width(slots.take(i))
}

/// No two slots have the same identifier.
pub open spec fn distinct_ids(slots: Seq<SlotView>) -> bool {
    forall|i: int, j: int|
        0 <= i < j < slots.len() ==> (#[trigger] slots[i]).id != (#[trigger] slots[j]).id
}

/// The slot of the variable `id`, if it has one.
pub open spec fn find_slot(slots: Seq<SlotView>, id: Seq<u8>) -> Option<SlotView>
    decreases slots.len(),
{
    if slots.len() == 0 {
        None
    } else if slots[0].id == id {
        Some(slots[0])
    } else {
        find_slot(slots.skip(1), id)
    }
}

/// Whether the tracking set `watched` leaves the variable `id` out. An empty
/// set leaves nothing out.
pub open spec fn unwatched(watched: Seq<Seq<u8>>, id: Seq<u8>) -> bool {
    watched.len() > 0 && !watched.contains(id)
}

/// Whether the declaration `v` gets no slot of its own: it is real-valued, or
/// it is not watched, or its identifier has a slot already.
pub open spec fn passed_over(v: VariableView, before: Seq<SlotView>, watched: Seq<Seq<u8>>) -> bool {
    ||| v.kind == VariableKind::VcdReal
    ||| unwatched(watched, v.id)
    ||| find_slot(before, v.id) is Some
}

/// The slots that the declarations `variables` get, in the order of the
/// declarations.
pub open spec fn allocation(variables: Seq<VariableView>, watched: Seq<Seq<u8>>) -> Seq<SlotView>
    decreases variables.len(),
{
    if variables.len() == 0 {
        Seq::empty()
    } else {
        let before = allocation(variables.drop_last(), watched);
        let v = variables.last();
        if passed_over(v, before, watched) {
            before
        } else {
            before.push(SlotView { id: v.id, offset: total_width(before), width: v.width as nat })
        }
    }
}

/// Whether the declaration `v` repeats an identifier that has a slot of another width.
pub open spec fn clashes(v: VariableView, before: Seq<SlotView>, watched: Seq<Seq<u8>>) -> bool {
    &&& v.kind != VariableKind::VcdReal
    &&& !unwatched(watched, v.id)
    &&& find_slot(before, v.id) matches Some(slot)
    &&& slot.width != v.width
}

/// Every declaration that repeats an identifier agrees with the first on the width.
pub open spec fn widths_agree(variables: Seq<VariableView>, watched: Seq<Seq<u8>>) -> bool
    decreases variables.len(),
{
    variables.len() == 0 || (widths_agree(variables.drop_last(), watched) && !clashes(
        variables.last(),
        allocation(variables.drop_last(), watched),
        watched,
    ))
}

/// The state vector after the wire values `bits` were written to the `width`
/// bytes at `offset`, leftmost first. Values that are fewer than the width are
/// extended to the left by the first of them.
pub open spec fn write_levels(state: Seq<i8>, offset: nat, width: nat, bits: Seq<u8>) -> Seq<i8> {
    Seq::new(
        state.len(),
        |k: int|
            if offset <= k < offset + width {
                let pad = width - bits.len();
                if k - offset < pad {
                    spec_logic_level(bits[0] as char)
                } else {
                    spec_logic_level(bits[k - offset - pad] as char)
                }
            } else {
                state[k]
            },
    )
}

/// Why a value change cannot be applied: the waveform contradicts its header.
#[derive(Clone, Copy, Debug, PartialEq, Eq, Structural)]
pub enum ChangeFault {
    /// The variable has no slot.
    UnknownVariable,
    /// The value does not fit the width of the variable.
    WidthMismatch,
}

/// A circuit as a mathematical value.
pub struct CircuitView {
    /// The state vector.
    pub state: Seq<i8>,
    /// The slots, in the order in which they were allocated.
    pub slots: Seq<SlotView>,
    /// The identifiers of the watched variables; if there are none, all are watched.
    pub watched: Seq<Seq<u8>>,
    /// The time of the last time record taken.
    pub cycle: i64,
    /// The first value change that could not be applied, if there was one.
    pub fault: Option<ChangeFault>,
}

impl CircuitView {
    /// The slots are packed and fill the state vector, no identifier has two
    /// slots, and every byte of the state vector is a logic level.
    pub open spec fn wf(self) -> bool {
        &&& packed(self.slots)
        &&& distinct_ids(self.slots)
        &&& self.state.len() == total_width(self.slots)
        &&& forall|k: int| 0 <= k < self.state.len() ==> -5 <= #[trigger] self.state[k] <= 1
    }

    /// Why `change` cannot be applied, if it cannot. A change of an
    /// unwatched variable is dropped, which is no fault.
    pub open spec fn fault_of(self, change: ChangeView) -> Option<ChangeFault> {
        if unwatched(self.watched, change.var_id) {
            None
        } else {
            match find_slot(self.slots, change.var_id) {
                None => Some(ChangeFault::UnknownVariable),
                Some(slot) => match change.value {
                    ValueView::Bit(_) => if slot.width == 0 {
                        Some(ChangeFault::WidthMismatch)
                    } else {
                        None
                    },
                    ValueView::Vector(bits) => if bits.len() > slot.width || (bits.len() == 0
                        && slot.width > 0) {
                        Some(ChangeFault::WidthMismatch)
                    } else {
                        None
                    },
                    ValueView::Real(_) => None,
                },
            }
        }
    }

    /// The state vector after `change`, which can be applied. One wire value
    /// is written to the first byte of the variable; the wire values of a
    /// vector fill the variable; a real value changes nothing.
    pub open spec fn changed(self, change: ChangeView) -> Seq<i8> {
        if unwatched(self.watched, change.var_id) {
            self.state
        } else {
            match find_slot(self.slots, change.var_id) {
                None => self.state,
                Some(slot) => match change.value {
                    ValueView::Bit(c) => self.state.update(
                        slot.offset as int,
                        spec_logic_level(c),
                    ),
                    ValueView::Vector(bits) => write_levels(
                        self.state,
                        slot.offset,
                        slot.width,
                        bits,
                    ),
                    ValueView::Real(_) => self.state,
                },
            }
        }
    }

    /// The circuit after the value change `change`: it is applied, or it is
    /// kept as the fault.
    pub open spec fn apply(self, change: ChangeView) -> CircuitView {
        match self.fault_of(change) {
            Some(fault) => CircuitView { fault: Some(fault), ..self },
            None => CircuitView { state: self.changed(change), ..self },
        }
    }

    /// The circuit after the record `command`. A time record sets the time; a
    /// value change is applied; directives change nothing.
    pub open spec fn absorb(self, command: CommandView) -> CircuitView {
        match command {
            CommandView::SetCycle(t) => CircuitView { cycle: t as i64, ..self },
            CommandView::ValueChange(change) => self.apply(change),
            _ => self,
        }
    }

    /// Whether the circuit stops the parser after `command`: at a time record,
    /// and at a value change that cannot be applied.
    pub open spec fn stops(self, command: CommandView) -> bool {
        match command {
            CommandView::SetCycle(_) => true,
            CommandView::ValueChange(change) => self.fault_of(change) is Some,
            _ => false,
        }
    }
}

/// The prefix sums of widths grow with the prefix.
pub proof fn lemma_total_width_grows(slots: Seq<SlotView>, i: int, j: int)
    requires
        0 <= i <= j <= slots.len(),
    ensures
        total_width(slots.take(i)) <= total_width(slots.take(j)),
        i < j ==> total_width(slots.take(i)) + slots[i].width <= total_width(slots.take(j)),
    decreases j - i,
{
    if i < j {
        lemma_total_width_grows(slots, i, j - 1);
        assert(slots.take(j).drop_last() =~= slots.take(j - 1));
        assert(slots.take(j).last() == slots[j - 1]);
    }
}

/// In a well-formed circuit every slot lies in the state vector.
pub proof fn lemma_slot_in_state(circuit: CircuitView, i: int)
    requires
        circuit.wf(),
        0 <= i < circuit.slots.len(),
    ensures
        circuit.slots[i].offset + circuit.slots[i].width <= circuit.state.len(),
{
    lemma_total_width_grows(circuit.slots, i, circuit.slots.len() as int);
    assert(circuit.slots.take(circuit.slots.len() as int) =~= circuit.slots);
}

/// What `find_slot` finds is one of the slots, and it finds every identifier
/// that has a slot.
pub proof fn lemma_find_slot(slots: Seq<SlotView>, id: Seq<u8>)
    ensures
        find_slot(slots, id) matches Some(slot) ==> exists|i: int|
            0 <= i < slots.len() && slots[i] == slot && slot.id == id,
        find_slot(slots, id) is None ==> forall|i: int|
            0 <= i < slots.len() ==> (#[trigger] slots[i]).id != id,
    decreases slots.len(),
{
    if slots.len() > 0 && slots[0].id != id {
        let rest = slots.skip(1);
        lemma_find_slot(rest, id);
        if let Some(slot) = find_slot(rest, id) {
            let i = choose|i: int| 0 <= i < rest.len() && rest[i] == slot && slot.id == id;
            assert(slots[i + 1] == slot);
        } else {
            assert forall|i: int| 0 <= i < slots.len() implies (#[trigger] slots[i]).id != id by {
                if i > 0 {
                    assert(rest[i - 1] == slots[i]);
                }
            }
        }
    } else if slots.len() > 0 {
        assert(slots[0] == find_slot(slots, id)->Some_0);
    }
}

/// The views of a list of identifiers.
pub open spec fn ids_view(ids: Seq<Vec<u8>>) -> Seq<Seq<u8>> {
    ids.map_values(|id: Vec<u8>| id@)
}

/// The views of a list of slots.
pub open spec fn slots_view(slots: Seq<Slot>) -> Seq<SlotView> {
    slots.map_values(|s: Slot| s@)
}

/// Whether the tracking set `watched` leaves the variable `id` out.
pub fn left_out(watched: &Vec<Vec<u8>>, id: &[u8]) -> (out: bool)
    ensures
        out == unwatched(ids_view(watched@), id@),
{
    if watched.len() == 0 {
        return false;
    }
    let mut i: usize = 0;
    while i < watched.len()
        invariant
            i <= watched.len(),
            forall|k: int| 0 <= k < i ==> ids_view(watched@)[k] != id@,
        decreases watched.len() - i,
    {
        if same_bytes(watched[i].as_slice(), id) {
            assert(ids_view(watched@)[i as int] == id@);
            return false;
        }
        i += 1;
    }
    true
}

/// The index of the slot of the variable `id` among `slots`, if it has one.
pub fn find_index(slots: &Vec<Slot>, id: &[u8]) -> (found: Option<usize>)
    ensures
        match found {
            Some(i) => i < slots.len() && find_slot(slots_view(slots@), id@) == Some(slots@[i as int]@),
            None => find_slot(slots_view(slots@), id@) is None,
        },
{
    let ghost views = slots_view(slots@);
    let mut i: usize = 0;
    assert(views.skip(0) =~= views);
    while i < slots.len()
        invariant
            i <= slots.len(),
            views == slots_view(slots@),
            find_slot(views, id@) == find_slot(views.skip(i as int), id@),
        decreases slots.len() - i,
    {
        let ghost rest = views.skip(i as int);
        assert(rest[0] == slots@[i as int]@);
        if same_bytes(slots[i].id.as_slice(), id) {
            return Some(i);
        }
        assert(rest.skip(1) =~= views.skip(i + 1));
        i += 1;
    }
    None
}

/// One more slot adds its width to the sum.
pub proof fn lemma_total_width_push(slots: Seq<SlotView>, slot: SlotView)
    ensures
        total_width(slots.push(slot)) == total_width(slots) + slot.width,
{
    assert(slots.push(slot).drop_last() =~= slots);
}

/// The slots of the first `i` declarations are the first of the slots of
/// all, so they take no more room; and if all agree on widths, so do the first `i`.
pub proof fn lemma_allocation_prefix(variables: Seq<VariableView>, watched: Seq<Seq<u8>>, i: int)
    requires
        0 <= i <= variables.len(),
    ensures
        total_width(allocation(variables.take(i), watched)) <= total_width(
            allocation(variables, watched),
        ),
        widths_agree(variables, watched) ==> widths_agree(variables.take(i), watched),
    decreases variables.len() - i,
{
    if i < variables.len() {
        lemma_allocation_prefix(variables, watched, i + 1);
        let longer = variables.take(i + 1);
        assert(longer.drop_last() =~= variables.take(i));
        let before = allocation(variables.take(i), watched);
        if !passed_over(longer.last(), before, watched) {
            lemma_total_width_push(
                before,
                SlotView {
                    id: longer.last().id,
                    offset: total_width(before),
                    width: longer.last().width as nat,
                },
            );
        }
    } else {
        assert(variables.take(i) =~= variables);
    }
}

/// The slots that declarations get are packed, and no identifier gets two.
pub proof fn lemma_allocation_wf(variables: Seq<VariableView>, watched: Seq<Seq<u8>>)
    ensures
        packed(allocation(variables, watched)),
        distinct_ids(allocation(variables, watched)),
    decreases variables.len(),
{
    if variables.len() > 0 {
        lemma_allocation_wf(variables.drop_last(), watched);
        let before = allocation(variables.drop_last(), watched);
        let v = variables.last();
        if !passed_over(v, before, watched) {
            let slot = SlotView { id: v.id, offset: total_width(before), width: v.width as nat };
            let after = before.push(slot);
            lemma_find_slot(before, v.id);
            assert forall|i: int| 0 <= i < after.len() implies (#[trigger] after[i]).offset
                == total_width(after.take(i)) by {
                if i < before.len() {
                    assert(after.take(i) =~= before.take(i));
                    assert(after[i] == before[i]);
                } else {
                    assert(after.take(i) =~= before);
                }
            }
            assert forall|i: int, j: int| 0 <= i < j < after.len() implies (#[trigger] after[i]).id
                != (#[trigger] after[j]).id by {
                if j < before.len() {
                    assert(after[i] == before[i] && after[j] == before[j]);
                } else {
                    assert(after[i] == before[i]);
                }
            }
        }
    }
}

/// The slots that the declarations `variables` get and the room they take,
/// unless a declaration repeats an identifier with another width, or the
/// room is more than a state vector can have.
pub fn plan(variables: &Vec<VariableInfo>, watched: &Vec<Vec<u8>>) -> (planned: Option<
    (Vec<Slot>, usize),
>)
    ensures
        planned is Some <==> widths_agree(variables_view(variables@), ids_view(watched@))
            && total_width(allocation(variables_view(variables@), ids_view(watched@)))
            <= usize::MAX,
        planned matches Some((slots, total)) ==> slots_view(slots@) == allocation(
            variables_view(variables@),
            ids_view(watched@),
        ) && total == total_width(slots_view(slots@)),
{
    let ghost all = variables_view(variables@);
    let ghost set = ids_view(watched@);
    let mut slots: Vec<Slot> = Vec::new();
    let mut offset: usize = 0;
    let mut i: usize = 0;
    assert(all.take(0) =~= Seq::<VariableView>::empty());
    assert(slots_view(slots@) =~= Seq::<SlotView>::empty());
    while i < variables.len()
        invariant
            i <= variables.len(),
            all == variables_view(variables@),
            set == ids_view(watched@),
            slots_view(slots@) == allocation(all.take(i as int), set),
            offset == total_width(slots_view(slots@)),
            widths_agree(all.take(i as int), set),
        decreases variables.len() - i,
    {
        let v = &variables[i];
        let ghost before = slots_view(slots@);
        proof {
            assert(all.take(i + 1).drop_last() =~= all.take(i as int));
            assert(all.take(i + 1).last() == v@);
            lemma_allocation_prefix(all, set, i + 1);
        }
        let is_real = match v.kind {
            VariableKind::VcdReal => true,
            _ => false,
        };
        if !is_real && !left_out(watched, v.id.as_slice()) {
            match find_index(&slots, v.id.as_slice()) {
                Some(at) => {
                    if slots[at].width != v.width as usize {
                        return None;
                    }
                },
                None => {
                    let width = v.width as usize;
                    if usize::MAX - offset < width {
                        proof {
                            lemma_total_width_push(
                                before,
                                SlotView { id: v@.id, offset: offset as nat, width: width as nat },
                            );
                        }
                        return None;
                    }
                    slots.push(Slot { id: slice_to_vec(v.id.as_slice()), offset, width });
                    proof {
                        let slot = SlotView { id: v@.id, offset: offset as nat, width: width as nat };
                        assert(slots_view(slots@) =~= before.push(slot));
                        lemma_total_width_push(before, slot);
                    }
                    offset += width;
                },
            }
        }
        i += 1;
    }
    assert(all.take(i as int) =~= all);
    Some((slots, offset))
}

/// The state vector of a circuit, the table of its slots, and the set of
/// watched variables. The slots stand in the order of their allocation,
/// which is the order of their offsets; an identifier, a byte string of any
/// length, is found by going through them.
pub struct Circuit {
    state: Vec<i8>,
    slots: Vec<Slot>,
    watched: Vec<Vec<u8>>,
    cycle: i64,
    fault: Option<ChangeFault>,
}

impl View for Circuit {
    type V = CircuitView;

    closed spec fn view(&self) -> CircuitView {
        CircuitView {
            state: self.state@,
            slots: slots_view(self.slots@),
            watched: ids_view(self.watched@),
            cycle: self.cycle,
            fault: self.fault,
        }
    }
}

impl Circuit {
    /// The circuit is well formed.
    pub open spec fn wf(&self) -> bool {
        self@.wf()
    }

    /// A circuit without variables.
    pub fn new() -> (circuit: Circuit)
        ensures
            circuit.wf(),
            circuit@ == (CircuitView {
                state: Seq::empty(),
                slots: Seq::empty(),
                watched: Seq::empty(),
                cycle: 0,
                fault: None,
            }),
    {
        let circuit = Circuit {
            state: Vec::new(),
            slots: Vec::new(),
            watched: Vec::new(),
            cycle: 0,
            fault: None,
        };
        assert(circuit@.slots =~= Seq::empty());
        assert(circuit@.watched =~= Seq::empty());
        circuit
    }

    /// The state vector.
    pub fn state(&self) -> (state: &[i8])
        ensures
            state@ == self@.state,
    {
        self.state.as_slice()
    }

    /// The time of the last time record taken.
    pub fn cycle(&self) -> (cycle: i64)
        ensures
            cycle == self@.cycle,
    {
        self.cycle
    }

    /// The first value change that could not be applied, if there was one.
    pub fn fault(&self) -> (fault: Option<ChangeFault>)
        ensures
            fault == self@.fault,
    {
        self.fault
    }

    /// Forgets the time and the fault of the records taken so far.
    pub fn rearm(&mut self)
        ensures
            final(self)@ == (CircuitView { cycle: 0, fault: None, ..old(self)@ }),
    {
        self.cycle = 0;
        self.fault = None;
    }

    /// Adds the identifiers `ids` to the tracking set.
    pub fn track(&mut self, ids: &[&[u8]])
        ensures
            final(self)@ == (CircuitView {
                watched: old(self)@.watched + ids@.map_values(|id: &[u8]| id@),
                ..old(self)@
            }),
    {
        let mut i: usize = 0;
        while i < ids.len()
            invariant
                i <= ids.len(),
                self@ == (CircuitView {
                    watched: old(self)@.watched + ids@.take(i as int).map_values(|id: &[u8]| id@),
                    ..old(self)@
                }),
            decreases ids.len() - i,
        {
            let ghost before = self@.watched;
            self.watched.push(slice_to_vec(ids[i]));
            assert(self@.watched =~= before.push(ids@[i as int]@));
            assert(ids@.take(i + 1).map_values(|id: &[u8]| id@) =~= ids@.take(i as int).map_values(
                |id: &[u8]| id@,
            ).push(ids@[i as int]@));
            i += 1;
            assert(self@.watched =~= old(self)@.watched + ids@.take(i as int).map_values(
                |id: &[u8]| id@,
            ));
        }
        assert(ids@.take(i as int) =~= ids@);
    }

    /// Whether the tracking set leaves the variable `id` out.
    pub fn is_unwatched(&self, id: &[u8]) -> (out: bool)
        ensures
            out == unwatched(self@.watched, id@),
    {
        left_out(&self.watched, id)
    }

    /// The index of the slot of the variable `id`, if it has one.
    pub fn find(&self, id: &[u8]) -> (found: Option<usize>)
        ensures
            match found {
                Some(i) => i < self@.slots.len() && find_slot(self@.slots, id@) == Some(
                    self@.slots[i as int],
                ),
                None => find_slot(self@.slots, id@) is None,
            },
    {
        find_index(&self.slots, id)
    }

    /// The offset of the variable `id` in the state vector, if it has a slot.
    pub fn offset_of(&self, id: &[u8]) -> (offset: Option<usize>)
        ensures
            match find_slot(self@.slots, id@) {
                Some(slot) => offset matches Some(at) && at == slot.offset,
                None => offset is None,
            },
    {
        match self.find(id) {
            Some(i) => Some(self.slots[i].offset),
            None => None,
        }
    }

    /// The width of the variable `id` in the state vector, if it has a slot.
    pub fn width_of(&self, id: &[u8]) -> (width: Option<usize>)
        ensures
            match find_slot(self@.slots, id@) {
                Some(slot) => width matches Some(w) && w == slot.width,
                None => width is None,
            },
    {
        match self.find(id) {
            Some(i) => Some(self.slots[i].width),
            None => None,
        }
    }
}

/// A state vector of `len` bytes, all zero.
pub open spec fn zeros(len: nat) -> Seq<i8> {
    Seq::new(len, |k: int| 0i8)
}

impl Circuit {
    /// Whether the declarations `variables` can be given slots: those that
    /// repeat an identifier agree on its width, and the state vector is no
    /// longer than a vector can be.
    pub open spec fn spec_can_allocate(&self, variables: Seq<VariableView>) -> bool {
        &&& widths_agree(variables, self@.watched)
        &&& total_width(allocation(variables, self@.watched)) <= usize::MAX
    }

    /// Whether the declarations `variables` can be given slots.
    pub fn can_allocate(&self, variables: &Vec<VariableInfo>) -> (can: bool)
        ensures
            can == self.spec_can_allocate(variables_view(variables@)),
    {
        plan(variables, &self.watched).is_some()
    }

    /// Gives the declarations `variables` their slots, in the order of the
    /// declarations, and makes the state vector anew: as long as the slots
    /// together, and all zero.
    pub fn allocate(&mut self, variables: &Vec<VariableInfo>)
        requires
            old(self).spec_can_allocate(variables_view(variables@)),
        ensures
            final(self).wf(),
            final(self)@ == (CircuitView {
                state: zeros(total_width(allocation(variables_view(variables@), old(self)@.watched))),
                slots: allocation(variables_view(variables@), old(self)@.watched),
                ..old(self)@
            }),
    {
        match plan(variables, &self.watched) {
            Some((slots, total)) => {
                self.slots = slots;
                self.state.clear();
                let mut k: usize = 0;
                while k < total
                    invariant
                        k <= total,
                        self.state@ == zeros(k as nat),
                        self.slots == slots,
                        self.watched == old(self).watched,
                        self.cycle == old(self).cycle,
                        self.fault == old(self).fault,
                    decreases total - k,
                {
                    self.state.push(0);
                    k += 1;
                    assert(self.state@ =~= zeros(k as nat));
                }
                proof {
                    lemma_allocation_wf(variables_view(variables@), old(self)@.watched);
                }
            },
            None => {},
        }
    }

    /// Why `change` cannot be applied, if it cannot.
    pub fn fault_of(&self, change: &VcdChange<'_>) -> (fault: Option<ChangeFault>)
        ensures
            fault == self@.fault_of(change@),
    {
        if self.is_unwatched(change.var_id) {
            return None;
        }
        match self.find(change.var_id) {
            None => Some(ChangeFault::UnknownVariable),
            Some(at) => {
                let width = self.slots[at].width;
                match change.value {
                    VcdValue::Bit(_) => if width == 0 {
                        Some(ChangeFault::WidthMismatch)
                    } else {
                        None
                    },
                    VcdValue::Vector(bits) => if bits.len() > width || (bits.len() == 0 && width
                        > 0) {
                        Some(ChangeFault::WidthMismatch)
                    } else {
                        None
                    },
                    VcdValue::Real(_) => None,
                }
            },
        }
    }

    /// Applies a value change that can be applied.
    pub fn apply_change(&mut self, change: &VcdChange<'_>)
        requires
            old(self).wf(),
            old(self)@.fault_of(change@) is None,
        ensures
            final(self).wf(),
            final(self)@ == (CircuitView { state: old(self)@.changed(change@), ..old(self)@ }),
    {
        if self.is_unwatched(change.var_id) {
            return ;
        }
        match self.find(change.var_id) {
            None => {},
            Some(at) => {
                let offset = self.slots[at].offset;
                let width = self.slots[at].width;
                proof {
                    lemma_slot_in_state(self@, at as int);
                }
                match change.value {
                    VcdValue::Bit(c) => {
                        self.state[offset] = logic_level(c);
                    },
                    VcdValue::Vector(bits) => {
                        let pad = width - bits.len();
                        let mut k: usize = 0;
                        while k < width
                            invariant
                                k <= width,
                                pad == width - bits.len(),
                                bits.len() <= width,
                                bits.len() > 0 || width == 0,
                                offset + width <= self.state.len(),
                                self.state.len() == old(self).state.len(),
                                self.slots == old(self).slots,
                                self.watched == old(self).watched,
                                self.cycle == old(self).cycle,
                                self.fault == old(self).fault,
                                forall|j: int|
                                    0 <= j < self.state.len() ==> #[trigger] self.state@[j] == if offset
                                        <= j < offset + k {
                                        write_levels(
                                            old(self).state@,
                                            offset as nat,
                                            width as nat,
                                            bits@,
                                        )[j]
                                    } else {
                                        old(self).state@[j]
                                    },
                            decreases width - k,
                        {
                            let bit = if k < pad {
                                bits[0]
                            } else {
                                bits[k - pad]
                            };
                            self.state[offset + k] = logic_level(bit as char);
                            k += 1;
                        }
                        assert(self.state@ =~= write_levels(
                            old(self).state@,
                            offset as nat,
                            width as nat,
                            bits@,
                        ));
                    },
                    VcdValue::Real(_) => {},
                }
            },
        }
    }

    /// How each of the declarations `variables` stands in the circuit: the
    /// offset of its identifier in the state vector, if that has a slot,
    /// and the declaration.
    pub fn header_info(&self, variables: &Vec<VariableInfo>) -> (info: Vec<
        (Option<usize>, VariableInfo),
    >)
        ensures
            info.len() == variables.len(),
            forall|i: int|
                0 <= i < info.len() ==> (#[trigger] info[i]).1@ == variables[i]@ && match find_slot(
                    self@.slots,
                    variables[i]@.id,
                ) {
                    Some(slot) => info[i].0 matches Some(offset) && offset == slot.offset,
                    None => info[i].0 is None,
                },
    {
        let mut info: Vec<(Option<usize>, VariableInfo)> = Vec::with_capacity(variables.len());
        let mut i: usize = 0;
        while i < variables.len()
            invariant
                i <= variables.len(),
                info.len() == i,
                forall|k: int|
                    0 <= k < i ==> (#[trigger] info[k]).1@ == variables[k]@ && match find_slot(
                        self@.slots,
                        variables[k]@.id,
                    ) {
                        Some(slot) => info[k].0 matches Some(offset) && offset == slot.offset,
                        None => info[k].0 is None,
                    },
            decreases variables.len() - i,
        {
            let v = &variables[i];
            info.push((self.offset_of(v.id.as_slice()), v.clone()));
            i += 1;
        }
        info
    }
}

impl CommandSink for Circuit {
    open spec fn ready(&self) -> bool {
        self.wf()
    }

    open spec fn stops(state: CircuitView, command: CommandView) -> bool {
        state.stops(command)
    }

    open spec fn absorb(state: CircuitView, command: CommandView) -> CircuitView {
        state.absorb(command)
    }

    /// Takes one record: a time record sets the time and stops the parser; a
    /// value change is applied, or kept as the fault, which stops the parser too.
    fn command(&mut self, command: VcdCommand<'_>) -> (stop: bool) {
        match command {
            VcdCommand::SetCycle(t) => {
                self.cycle = t as i64;
                true
            },
            VcdCommand::ValueChange(change) => {
                match self.fault_of(&change) {
                    Some(fault) => {
                        self.fault = Some(fault);
                        true
                    },
                    None => {
                        self.apply_change(&change);
                        false
                    },
                }
            },
            VcdCommand::Directive(_) => false,
            VcdCommand::VcdEnd => false,
        }
    }
}

} // verus!
