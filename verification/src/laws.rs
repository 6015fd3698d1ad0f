//! What holds of every simulation: of its state vector, of the slots of its
//! variables, of the cycles it answers, and of what the chunk size can change.

use crate::canon::{
    fed, lemma_load_header_canon, lemma_opened_sound, lemma_process_canon, next_time,
};
use crate::circuit::{
    allocation, distinct_ids, find_slot, lemma_allocation_prefix, lemma_allocation_wf,
    lemma_slot_in_state, lemma_total_width_grows, packed, passed_over, total_width, unwatched,
    widths_agree, Circuit, CircuitView, SlotView,
};
use crate::extent::lemma_vcd_command_within;
use crate::grammar::spec_vcd_command;
use crate::scan::Outcome;
use crate::simulation::{SimulationView, StateSimulation};
use crate::stream::{has_high, trimmed, StreamView};
use crate::types::{VariableKind, VariableView};
use crate::vcd::{spec_process, CommandSink, ParserView};
use vstd::prelude::*;

verus! {

/// The state vector is as long as the widths of the allocated variables
/// together.
pub proof fn law_state_length(simulation: &StateSimulation)
    requires
        simulation.wf(),
    ensures
        simulation@.circuit.state.len() == total_width(simulation@.circuit.slots),
{
    simulation.lemma_wf();
}

/// The bytes of two allocated variables do not overlap, and they lie in the
/// state vector: of two slots, the earlier ends before the later begins.
pub proof fn law_slots_disjoint(simulation: &StateSimulation, i: int, j: int)
    requires
        simulation.wf(),
        0 <= i < j < simulation@.circuit.slots.len(),
    ensures
        simulation@.circuit.slots[i].offset + simulation@.circuit.slots[i].width
            <= simulation@.circuit.slots[j].offset,
        simulation@.circuit.slots[j].offset + simulation@.circuit.slots[j].width
            <= simulation@.circuit.state.len(),
        simulation@.circuit.slots[i].id != simulation@.circuit.slots[j].id,
{
    simulation.lemma_wf();
    let slots = simulation@.circuit.slots;
    lemma_total_width_grows(slots, i, j);
    lemma_slot_in_state(simulation@.circuit, j);
}

/// Every byte of the state vector is a logic level: one of -5, -4, -3, -2, -1, 0, 1.
pub proof fn law_state_levels(simulation: &StateSimulation, k: int)
    requires
        simulation.wf(),
        0 <= k < simulation@.circuit.state.len(),
    ensures
        -5 <= simulation@.circuit.state[k] <= 1,
{
    simulation.lemma_wf();
}

/// Whatever is declared, no identifier gets two slots, and the slots are
/// packed: each begins where the one before it ends.
pub proof fn law_allocated_once(variables: Seq<VariableView>, watched: Seq<Seq<u8>>)
    ensures
        distinct_ids(allocation(variables, watched)),
        packed(allocation(variables, watched)),
{
    lemma_allocation_wf(variables, watched);
}

/// One more slot changes what is found only for its own identifier, and
/// only if that had no slot.
pub proof fn lemma_find_slot_push(slots: Seq<SlotView>, slot: SlotView, id: Seq<u8>)
    ensures
        find_slot(slots.push(slot), id) == if find_slot(slots, id) is Some {
            find_slot(slots, id)
        } else if slot.id == id {
            Some(slot)
        } else {
            None
        },
    decreases slots.len(),
{
    let longer = slots.push(slot);
    if slots.len() == 0 {
        assert(longer.skip(1) =~= Seq::<SlotView>::empty());
    } else {
        assert(longer[0] == slots[0]);
        assert(longer.skip(1) =~= slots.skip(1).push(slot));
        if slots[0].id != id {
            lemma_find_slot_push(slots.skip(1), slot, id);
        }
    }
}

/// Once a declaration that is neither real nor left out was passed, its
/// identifier has a slot; and while the declarations agree on widths, the
/// slot has the width of that declaration.
pub proof fn lemma_declared_has_slot(
    variables: Seq<VariableView>,
    watched: Seq<Seq<u8>>,
    i: int,
    k: int,
)
    requires
        0 <= i < k <= variables.len(),
        variables[i].kind != VariableKind::VcdReal,
        !unwatched(watched, variables[i].id),
    ensures
        find_slot(allocation(variables.take(k), watched), variables[i].id) is Some,
        widths_agree(variables.take(k), watched) ==> find_slot(
            allocation(variables.take(k), watched),
            variables[i].id,
        )->Some_0.width == variables[i].width,
    decreases k,
{
    let id = variables[i].id;
    let upto = variables.take(k);
    assert(upto.drop_last() =~= variables.take(k - 1));
    let before = allocation(variables.take(k - 1), watched);
    let v = upto.last();
    assert(v == variables[k - 1]);
    if k - 1 > i {
        lemma_declared_has_slot(variables, watched, i, k - 1);
    }
    if !passed_over(v, before, watched) {
        lemma_find_slot_push(
            before,
            SlotView { id: v.id, offset: total_width(before), width: v.width as nat },
            id,
        );
    }
}

/// Of two declarations of one identifier that are neither real nor left
/// out, the second gets no slot of its own; and the declarations agree on
/// widths only if these two have the same width.
pub proof fn law_repeated_declaration(
    variables: Seq<VariableView>,
    watched: Seq<Seq<u8>>,
    i: int,
    j: int,
)
    requires
        0 <= i < j < variables.len(),
        variables[i].id == variables[j].id,
        variables[i].kind != VariableKind::VcdReal,
        variables[j].kind != VariableKind::VcdReal,
        !unwatched(watched, variables[i].id),
    ensures
        allocation(variables.take(j + 1), watched) == allocation(variables.take(j), watched),
        widths_agree(variables, watched) ==> variables[i].width == variables[j].width,
{
    lemma_declared_has_slot(variables, watched, i, j);
    lemma_allocation_prefix(variables, watched, j + 1);
    lemma_allocation_prefix(variables.take(j + 1), watched, j);
    assert(variables.take(j + 1).drop_last() =~= variables.take(j));
    assert(variables.take(j + 1).take(j) =~= variables.take(j));
    assert(variables.take(j + 1).last() == variables[j]);
}

/// Declarations that got the same slots get the same slots when the same
/// declarations follow.
pub proof fn lemma_allocation_goes_on(
    p: Seq<VariableView>,
    q: Seq<VariableView>,
    t: Seq<VariableView>,
    watched: Seq<Seq<u8>>,
)
    requires
        allocation(p, watched) == allocation(q, watched),
    ensures
        allocation(p + t, watched) == allocation(q + t, watched),
    decreases t.len(),
{
    if t.len() == 0 {
        assert(p + t =~= p);
        assert(q + t =~= q);
    } else {
        lemma_allocation_goes_on(p, q, t.drop_last(), watched);
        assert((p + t).drop_last() =~= p + t.drop_last());
        assert((q + t).drop_last() =~= q + t.drop_last());
        assert((p + t).last() == t.last());
        assert((q + t).last() == t.last());
    }
}

/// A declaration that repeats the identifier of an earlier one, neither of
/// them real or left out, changes nothing: without it the declarations get
/// the very same slots, so the width counts once and no later offset moves.
pub proof fn law_repetition_changes_nothing(
    variables: Seq<VariableView>,
    watched: Seq<Seq<u8>>,
    i: int,
    j: int,
)
    requires
        0 <= i < j < variables.len(),
        variables[i].id == variables[j].id,
        variables[i].kind != VariableKind::VcdReal,
        variables[j].kind != VariableKind::VcdReal,
        !unwatched(watched, variables[i].id),
    ensures
        allocation(variables.remove(j), watched) == allocation(variables, watched),
{
    law_repeated_declaration(variables, watched, i, j);
    let t = variables.skip(j + 1);
    lemma_allocation_goes_on(variables.take(j + 1), variables.take(j), t, watched);
    assert(variables.take(j + 1) + t =~= variables);
    assert(variables.take(j) + t =~= variables.remove(j));
}

/// Every slot is the slot of a declaration that is neither real nor left
/// out, and it has the width of that declaration.
pub proof fn lemma_slot_is_declared(
    variables: Seq<VariableView>,
    watched: Seq<Seq<u8>>,
    at: int,
)
    requires
        0 <= at < allocation(variables, watched).len(),
    ensures
        exists|i: int|
            0 <= i < variables.len() && (#[trigger] variables[i]).id == allocation(
                variables,
                watched,
            )[at].id && variables[i].width == allocation(variables, watched)[at].width
                && variables[i].kind != VariableKind::VcdReal && !unwatched(
                watched,
                variables[i].id,
            ),
    decreases variables.len(),
{
    let before = allocation(variables.drop_last(), watched);
    let v = variables.last();
    if at < before.len() {
        lemma_slot_is_declared(variables.drop_last(), watched, at);
        let i = choose|i: int|
            0 <= i < variables.drop_last().len() && (#[trigger] variables.drop_last()[i]).id
                == before[at].id && variables.drop_last()[i].width == before[at].width
                && variables.drop_last()[i].kind != VariableKind::VcdReal && !unwatched(
                watched,
                variables.drop_last()[i].id,
            );
        assert(variables[i] == variables.drop_last()[i]);
    } else {
        assert(variables[variables.len() - 1] == v);
    }
}

/// Declarations that repeat an identifier only with the width that it had
/// before agree on widths: their state can be allocated, and every
/// repetition is passed over.
pub proof fn law_same_width_is_accepted(variables: Seq<VariableView>, watched: Seq<Seq<u8>>)
    requires
        forall|i: int, j: int|
            0 <= i < j < variables.len() && (#[trigger] variables[i]).id == (
            #[trigger] variables[j]).id && variables[i].kind != VariableKind::VcdReal
                && variables[j].kind != VariableKind::VcdReal && !unwatched(
                watched,
                variables[i].id,
            ) ==> variables[i].width == variables[j].width,
    ensures
        widths_agree(variables, watched),
    decreases variables.len(),
{
    if variables.len() > 0 {
        let shorter = variables.drop_last();
        assert forall|i: int, j: int|
            0 <= i < j < shorter.len() && (#[trigger] shorter[i]).id == (#[trigger] shorter[j]).id
                && shorter[i].kind != VariableKind::VcdReal && shorter[j].kind
                != VariableKind::VcdReal && !unwatched(
                watched,
                shorter[i].id,
            ) implies shorter[i].width == shorter[j].width by {
            assert(shorter[i] == variables[i] && shorter[j] == variables[j]);
        }
        law_same_width_is_accepted(shorter, watched);
        let before = allocation(shorter, watched);
        let v = variables.last();
        if v.kind != VariableKind::VcdReal && !unwatched(watched, v.id) {
            if let Some(slot) = find_slot(before, v.id) {
                crate::circuit::lemma_find_slot(before, v.id);
                let at = choose|at: int| 0 <= at < before.len() && before[at] == slot && slot.id == v.id;
                lemma_slot_is_declared(shorter, watched, at);
                let i = choose|i: int|
                    0 <= i < shorter.len() && (#[trigger] shorter[i]).id == before[at].id
                        && shorter[i].width == before[at].width && shorter[i].kind
                        != VariableKind::VcdReal && !unwatched(watched, shorter[i].id);
                assert(shorter[i] == variables[i]);
                assert(variables[variables.len() - 1] == v);
            }
        }
    }
}

/// Whatever the chunk sizes of two parsers of one waveform of 7-bit ASCII:
/// loading the header ends the same way for both, with the same failure or
/// with the same header; and processing the records then ends the same way
/// for both and leaves the sink in the same state. For a sink that counts,
/// this is the number of records.
pub proof fn law_chunk_size<S: CommandSink>(
    file: Seq<u8>,
    chunk_a: nat,
    chunk_b: nat,
    sink: S::V,
)
    requires
        chunk_a >= 1,
        chunk_b >= 1,
        !has_high(file),
    ensures
        ({
            let a = ParserView::opened(file, chunk_a).load_header();
            let b = ParserView::opened(file, chunk_b).load_header();
            &&& a.0 == b.0
            &&& a.1.header == b.1.header
            &&& a.0 is Ok ==> {
                &&& spec_process::<S>(a.1.stream, sink).0 == spec_process::<S>(b.1.stream, sink).0
                &&& spec_process::<S>(a.1.stream, sink).2 == spec_process::<S>(b.1.stream, sink).2
            }
        }),
{
    let start_a = ParserView::opened(file, chunk_a);
    let start_b = ParserView::opened(file, chunk_b);
    lemma_opened_sound(file, chunk_a);
    lemma_opened_sound(file, chunk_b);
    lemma_load_header_canon(start_a);
    lemma_load_header_canon(start_b);
    let a = start_a.load_header();
    let b = start_b.load_header();
    if a.0 is Ok {
        lemma_process_canon::<S>(a.1.stream, sink);
        lemma_process_canon::<S>(b.1.stream, sink);
    }
}

/// Two simulations are at the same place of one waveform: they differ at
/// most in their chunk sizes and in how far they have read ahead.
pub open spec fn same_place(a: SimulationView, b: SimulationView) -> bool {
    &&& a.parser.stream.sound()
    &&& b.parser.stream.sound()
    &&& a.parser.stream.poised()
    &&& b.parser.stream.poised()
    &&& a.parser.stream.rest() == b.parser.stream.rest()
    &&& a.parser.header == b.parser.header
    &&& a.circuit == b.circuit
    &&& a.previous_cycle == b.previous_cycle
    &&& a.current_cycle == b.current_cycle
}

/// Two simulations of one waveform of 7-bit ASCII are at the same place
/// when they start, whatever their chunk sizes.
pub proof fn law_start_chunk_size(file: Seq<u8>, chunk_a: nat, chunk_b: nat)
    requires
        chunk_a >= 1,
        chunk_b >= 1,
        !has_high(file),
    ensures
        same_place(StateSimulation::initial(file, chunk_a), StateSimulation::initial(file, chunk_b)),
{
    lemma_opened_sound(file, chunk_a);
    lemma_opened_sound(file, chunk_b);
}

/// For two simulations at the same place loading the header ends the same
/// way; if it ends well, they are at the same place afterwards.
pub proof fn law_load_header_chunk_size(a: SimulationView, b: SimulationView)
    requires
        same_place(a, b),
    ensures
        a.parser.load_header().0 == b.parser.load_header().0,
        a.parser.load_header().1.header == b.parser.load_header().1.header,
        a.parser.load_header().0 is Ok ==> same_place(
            SimulationView { parser: a.parser.load_header().1, ..a },
            SimulationView { parser: b.parser.load_header().1, ..b },
        ),
{
    lemma_load_header_canon(a.parser);
    lemma_load_header_canon(b.parser);
}

/// Two simulations at the same place are at the same place after their
/// state was allocated.
pub proof fn law_allocate_state_chunk_size(a: SimulationView, b: SimulationView)
    requires
        same_place(a, b),
    ensures
        same_place(a.allocate_state(), b.allocate_state()),
{
}

/// For two simulations at the same place going on to the next cycle ends
/// the same way, with the same cycle or the same failure, and with the same
/// state vector; if it ends well, they are at the same place afterwards.
pub proof fn law_next_cycle_chunk_size(a: SimulationView, b: SimulationView)
    requires
        same_place(a, b),
    ensures
        a.next_cycle().0 == b.next_cycle().0,
        a.next_cycle().1.circuit == b.next_cycle().1.circuit,
        a.next_cycle().0 is Ok ==> same_place(a.next_cycle().1, b.next_cycle().1),
{
    let armed = CircuitView { cycle: 0, fault: None, ..a.circuit };
    lemma_process_canon::<Circuit>(a.parser.stream, armed);
    lemma_process_canon::<Circuit>(b.parser.stream, armed);
    lemma_done_is_empty(a.parser.stream);
    lemma_done_is_empty(b.parser.stream);
}

/// A stream is done if and only if nothing is left of its input.
pub proof fn lemma_done_is_empty(v: StreamView)
    ensures
        v.done() <==> v.rest().len() == 0,
{
}

/// The simulation after `n` cycles, if it got that far.
pub open spec fn after_cycles(simulation: SimulationView, n: nat) -> Option<SimulationView>
    decreases n,
{
    if n == 0 {
        Some(simulation)
    } else {
        match after_cycles(simulation, (n - 1) as nat) {
            Some(before) => if before.next_cycle().0 is Ok {
                Some(before.next_cycle().1)
            } else {
                None
            },
            None => None,
        }
    }
}

/// Of two simulations at the same place, one gets through `n` cycles if
/// and only if the other does, whatever their chunk sizes; and they are at
/// the same place afterwards: their state vectors are the same, and so are
/// their cycles.
pub proof fn law_cycles_chunk_size(a: SimulationView, b: SimulationView, n: nat)
    requires
        same_place(a, b),
    ensures
        after_cycles(a, n) is Some <==> after_cycles(b, n) is Some,
        after_cycles(a, n) is Some ==> same_place(
            after_cycles(a, n)->Some_0,
            after_cycles(b, n)->Some_0,
        ) && after_cycles(a, n)->Some_0.circuit.state == after_cycles(b, n)->Some_0.circuit.state,
    decreases n,
{
    if n > 0 {
        law_cycles_chunk_size(a, b, (n - 1) as nat);
        if after_cycles(a, (n - 1) as nat) is Some {
            law_next_cycle_chunk_size(
                after_cycles(a, (n - 1) as nat)->Some_0,
                after_cycles(b, (n - 1) as nat)->Some_0,
            );
        }
    }
}

/// A circuit that was fed without a fault stopped at the first time record
/// and took its time; if there was none, it did not stop.
pub proof fn lemma_fed_time(x: Seq<u8>, circuit: CircuitView)
    requires
        circuit.fault is None,
        fed::<Circuit>(x, circuit, false).res is Ok,
        fed::<Circuit>(x, circuit, false).sink.fault is None,
    ensures
        match next_time(x) {
            Some(t) => fed::<Circuit>(x, circuit, false).sink.cycle == t as i64,
            None => fed::<Circuit>(x, circuit, false).sink.cycle == circuit.cycle && !fed::<
                Circuit,
            >(x, circuit, false).stopped,
        },
    decreases x.len(),
{
    if x.len() > 0 {
        if let Outcome::Match { len, value } = spec_vcd_command(x) {
            lemma_vcd_command_within(x);
            let next = circuit.absorb(value);
            if !circuit.stops(value) {
                lemma_fed_time(x.skip(len as int), next);
            }
        }
    }
}

/// A simulation answers the time that it had taken before, and takes the
/// time of the next time record of the waveform, or zero if there is none.
pub proof fn law_cycle_is_time(simulation: SimulationView)
    requires
        simulation.parser.stream.sound(),
        simulation.parser.stream.poised(),
        simulation.next_cycle().0 is Ok,
    ensures
        simulation.next_cycle().0->Ok_0 == simulation.current_cycle,
        simulation.next_cycle().1.previous_cycle == simulation.current_cycle,
        simulation.next_cycle().1.current_cycle == match next_time(
            trimmed(simulation.parser.stream.rest()),
        ) {
            Some(t) => t as i64,
            None => 0,
        },
        next_time(trimmed(simulation.parser.stream.rest())) is None ==> simulation.next_cycle().1.parser.stream.done(),
        simulation.next_cycle().1.parser.stream.sound(),
        simulation.next_cycle().1.parser.stream.poised(),
{
    let armed = CircuitView { cycle: 0, fault: None, ..simulation.circuit };
    lemma_process_canon::<Circuit>(simulation.parser.stream, armed);
    lemma_fed_time(trimmed(simulation.parser.stream.rest()), armed);
}

/// The cycles that a simulation answers do not decrease, as long as the
/// times of the waveform do not: if the next time record is not earlier
/// than the time that the simulation has taken, then of two cycles
/// answered one after the other the second is not earlier than the first.
pub proof fn law_cycles_do_not_decrease(simulation: SimulationView)
    requires
        simulation.parser.stream.sound(),
        simulation.parser.stream.poised(),
        simulation.next_cycle().0 is Ok,
        simulation.next_cycle().1.next_cycle().0 is Ok,
        next_time(trimmed(simulation.parser.stream.rest())) matches Some(t)
            ==> simulation.current_cycle <= t as i64,
    ensures
        simulation.next_cycle().0->Ok_0 <= simulation.next_cycle().1.next_cycle().0->Ok_0,
{
    law_cycle_is_time(simulation);
    law_cycle_is_time(simulation.next_cycle().1);
}

} // verus!
