//! The state simulation: it reads a waveform and rebuilds, cycle by cycle,
//! the state of the circuit as one vector of logic levels.

pub use crate::circuit::logic_level;
use crate::canon::{fed, lemma_process_canon, next_time};
use crate::circuit::{allocation, total_width, zeros, ChangeFault, Circuit, CircuitView};
use crate::laws::law_cycle_is_time;
use crate::stream::{trimmed, VcdError};
use crate::types::{VariableInfo, VariableView};
use crate::utils::ByteSource;
use crate::vcd::{spec_process, ParserView, VcdParser};
use vstd::prelude::*;

verus! {

/// How many bytes a simulation reads at a time unless it is told otherwise.
pub const DEFAULT_CHUNK_SIZE: usize = 4096;

/// Why a simulation could not go on to the next cycle.
#[derive(Debug)]
pub enum SimulationError {
    /// The waveform could not be read.
    Vcd(VcdError),
    /// A value change contradicts the header: the waveform is broken.
    Fault(ChangeFault),
}

/// Rebuilds the state of a circuit over time from a waveform.
pub struct StateSimulation {
    parser: VcdParser,
    circuit: Circuit,
    previous_cycle: i64,
    current_cycle: i64,
}

/// A simulation as a mathematical value.
pub struct SimulationView {
    pub parser: ParserView,
    pub circuit: CircuitView,
    /// The time that the state vector stands for.
    pub previous_cycle: i64,
    /// The time of the records that are applied next.
    pub current_cycle: i64,
}

impl SimulationView {
    /// The declarations of the header.
    pub open spec fn variables(self) -> Seq<VariableView> {
        self.parser.header.variables
    }

    /// Whether the header is sealed.
    pub open spec fn sealed(self) -> bool {
        self.parser.header.sealed
    }

    /// Whether the state can be allocated: the header is not sealed, which
    /// is an error, or its declarations can be given slots.
    pub open spec fn can_allocate(self) -> bool {
        self.sealed() ==> {
            &&& crate::circuit::widths_agree(self.variables(), self.circuit.watched)
            &&& total_width(allocation(self.variables(), self.circuit.watched)) <= usize::MAX
        }
    }

    /// The simulation after its state was allocated.
    pub open spec fn allocate_state(self) -> SimulationView {
        SimulationView {
            circuit: CircuitView {
                state: zeros(total_width(allocation(self.variables(), self.circuit.watched))),
                slots: allocation(self.variables(), self.circuit.watched),
                ..self.circuit
            },
            ..self
        }
    }

    /// What going on to the next cycle answers, and the simulation after it.
    /// The records up to the next time record are applied to the state
    /// vector. The answer is the time that the state vector then stands
    /// for: the time of the records that were applied.
    pub open spec fn next_cycle(self) -> (Result<i64, SimulationError>, SimulationView) {
        if self.parser.stream.done() {
            (Err(SimulationError::Vcd(VcdError::EndOfInput)), self)
        } else {
            let armed = CircuitView { cycle: 0, fault: None, ..self.circuit };
            let (res, stream, circuit) = spec_process::<Circuit>(self.parser.stream, armed);
            let moved = SimulationView {
                parser: ParserView { stream, ..self.parser },
                circuit,
                ..self
            };
            match res {
                Err(e) => (Err(SimulationError::Vcd(e)), moved),
                Ok(_) => match circuit.fault {
                    Some(fault) => (Err(SimulationError::Fault(fault)), moved),
                    None => (
                        Ok(self.current_cycle),
                        SimulationView {
                            previous_cycle: self.current_cycle,
                            current_cycle: circuit.cycle,
                            ..moved
                        },
                    ),
                },
            }
        }
    }
}

impl View for StateSimulation {
    type V = SimulationView;

    closed spec fn view(&self) -> SimulationView {
        SimulationView {
            parser: self.parser@,
            circuit: self.circuit@,
            previous_cycle: self.previous_cycle,
            current_cycle: self.current_cycle,
        }
    }
}

impl StateSimulation {
    /// The parser is well formed, and so is the circuit.
    pub closed spec fn wf(&self) -> bool {
        self.parser.wf() && self.circuit.wf()
    }

    /// What well-formedness says of the circuit.
    pub proof fn lemma_wf(&self)
        requires
            self.wf(),
        ensures
            self@.circuit.wf(),
    {
    }

    /// The simulation at its start, as a mathematical value.
    pub open spec fn initial(source: Seq<u8>, chunk: nat) -> SimulationView {
        SimulationView {
            parser: ParserView::opened(source, chunk),
            circuit: CircuitView {
                state: Seq::empty(),
                slots: Seq::empty(),
                watched: Seq::empty(),
                cycle: 0,
                fault: None,
            },
            previous_cycle: -1i64,
            current_cycle: -1i64,
        }
    }

    /// A simulation of the waveform that `source` gives.
    pub fn new(source: ByteSource) -> (simulation: StateSimulation)
        ensures
            simulation.wf(),
            simulation@ == Self::initial(source@, DEFAULT_CHUNK_SIZE as nat),
    {
        Self::with_chunk_size(DEFAULT_CHUNK_SIZE, source)
    }

    /// A simulation of the waveform that `source` gives, reading
    /// `chunk_size` bytes at a time.
    pub fn with_chunk_size(chunk_size: usize, source: ByteSource) -> (simulation: StateSimulation)
        ensures
            simulation.wf(),
            simulation@ == Self::initial(source@, chunk_size as nat),
    {
        StateSimulation {
            parser: VcdParser::with_chunk_size(chunk_size, source),
            circuit: Circuit::new(),
            previous_cycle: -1,
            current_cycle: -1,
        }
    }

    /// The state vector.
    pub fn state(&self) -> (state: &[i8])
        ensures
            state@ == self@.circuit.state,
    {
        self.circuit.state()
    }

    /// Adds the identifiers `vars` to the tracking set. It takes effect when
    /// the state is allocated.
    pub fn track_variables(&mut self, vars: &[&[u8]])
        requires
            old(self).wf(),
        ensures
            final(self)@ == (SimulationView {
                circuit: CircuitView {
                    watched: old(self)@.circuit.watched + vars@.map_values(|id: &[u8]| id@),
                    ..old(self)@.circuit
                },
                ..old(self)@
            }),
            final(self).wf(),
    {
        self.circuit.track(vars);
    }

    /// Whether the state can be allocated.
    pub fn can_allocate(&self) -> (can: bool)
        ensures
            can == self@.can_allocate(),
    {
        match self.parser.header() {
            Some(header) => self.circuit.can_allocate(&header.variables),
            None => true,
        }
    }

    /// Gives every tracked variable of the header its bytes in the state
    /// vector and makes the state vector anew, all zero. Before the header
    /// is sealed this is an error.
    pub fn allocate_state(&mut self) -> (res: Result<(), VcdError>)
        requires
            old(self).wf(),
            old(self)@.can_allocate(),
        ensures
            final(self).wf(),
            old(self)@.sealed() ==> res is Ok && final(self)@ == old(self)@.allocate_state(),
            !old(self)@.sealed() ==> (res matches Err(VcdError::PartialHeader)) && final(self)@
                == old(self)@,
    {
        match self.parser.header() {
            Some(header) => {
                self.circuit.allocate(&header.variables);
                Ok(())
            },
            None => Err(VcdError::PartialHeader),
        }
    }

    /// Allocates the state if it can be allocated, and answers whether it
    /// was. Where the declarations clash on a width, or the state would not
    /// fit in memory, nothing is changed. Before the header is sealed this
    /// is an error.
    pub fn try_allocate_state(&mut self) -> (res: Result<bool, VcdError>)
        requires
            old(self).wf(),
        ensures
            final(self).wf(),
            !old(self)@.sealed() ==> (res matches Err(VcdError::PartialHeader)) && final(self)@
                == old(self)@,
            old(self)@.sealed() ==> (res matches Ok(done) && done == old(self)@.can_allocate()),
            old(self)@.sealed() && old(self)@.can_allocate() ==> final(self)@
                == old(self)@.allocate_state(),
            old(self)@.sealed() && !old(self)@.can_allocate() ==> final(self)@ == old(self)@,
    {
        if !self.can_allocate() {
            return Ok(false);
        }
        match self.allocate_state() {
            Ok(_) => Ok(true),
            Err(e) => Err(e),
        }
    }

    /// For each declaration of the header, the offset of its identifier in
    /// the state vector, if it has one, and the declaration. Before the
    /// header is sealed this is an error.
    pub fn header_info(&self) -> (res: Result<Vec<(Option<usize>, VariableInfo)>, VcdError>)
        ensures
            !self@.sealed() ==> res matches Err(VcdError::PartialHeader),
            self@.sealed() ==> (res matches Ok(info) && info.len() == self@.variables().len()
                && forall|i: int|
                0 <= i < info.len() ==> (#[trigger] info[i]).1@ == self@.variables()[i]
                    && match crate::circuit::find_slot(
                    self@.circuit.slots,
                    self@.variables()[i].id,
                ) {
                    Some(slot) => info[i].0 matches Some(offset) && offset == slot.offset,
                    None => info[i].0 is None,
                }),
    {
        match self.parser.header() {
            Some(header) => {
                let info = self.circuit.header_info(&header.variables);
                Ok(info)
            },
            None => Err(VcdError::PartialHeader),
        }
    }

    /// Parses the header of the waveform.
    pub fn load_header(&mut self) -> (res: Result<(), VcdError>)
        requires
            old(self).wf(),
        ensures
            final(self).wf(),
            match old(self)@.parser.load_header().0 {
                Ok(_) => res is Ok,
                Err(e) => res == Err::<(), VcdError>(e),
            },
            final(self)@ == (SimulationView {
                parser: old(self)@.parser.load_header().1,
                ..old(self)@
            }),
    {
        match self.parser.load_header() {
            Ok(_) => Ok(()),
            Err(e) => Err(e),
        }
    }

    /// Whether nothing is left of the waveform.
    pub fn done(&self) -> (done: bool)
        requires
            self.wf(),
        ensures
            done == self@.parser.stream.done(),
    {
        self.parser.done()
    }

    /// Applies the records up to the next time record to the state vector.
    /// The answer is the time that the state vector then stands for, and
    /// the state vector.
    pub fn next_cycle(&mut self) -> (res: Result<(i64, &[i8]), SimulationError>)
        requires
            old(self).wf(),
        ensures
            final(self).wf(),
            final(self)@ == old(self)@.next_cycle().1,
            match old(self)@.next_cycle().0 {
                Ok(cycle) => res matches Ok((c, state)) && c == cycle
                    && state@ == final(self)@.circuit.state,
                Err(SimulationError::Vcd(e)) => res matches Err(SimulationError::Vcd(x)) && x == e,
                Err(SimulationError::Fault(f)) => res matches Err(SimulationError::Fault(x)) && x
                    == f,
            },
            old(self)@.parser.stream.sound() && old(self)@.parser.stream.poised() && !old(
                self,
            )@.parser.stream.done() ==> {
                let end = fed::<Circuit>(
                    trimmed(old(self)@.parser.stream.rest()),
                    CircuitView { cycle: 0, fault: None, ..old(self)@.circuit },
                    false,
                );
                &&& final(self)@.circuit == end.sink
                &&& res is Ok <==> end.res is Ok && end.sink.fault is None
                &&& res is Ok ==> final(self)@.parser.stream.sound()
                    && final(self)@.parser.stream.poised() && final(self)@.current_cycle
                    == match next_time(trimmed(old(self)@.parser.stream.rest())) {
                    Some(t) => t as i64,
                    None => 0,
                }
            },
    {
        proof {
            if self@.parser.stream.sound() && self@.parser.stream.poised() {
                let armed = CircuitView { cycle: 0, fault: None, ..self@.circuit };
                lemma_process_canon::<Circuit>(self@.parser.stream, armed);
                if self@.next_cycle().0 is Ok {
                    law_cycle_is_time(self@);
                }
            }
        }
        if self.parser.done() {
            return Err(SimulationError::Vcd(VcdError::EndOfInput));
        }
        self.circuit.rearm();
        match self.parser.process_vcd_commands(&mut self.circuit) {
            Ok(_) => {},
            Err(e) => {
                return Err(SimulationError::Vcd(e));
            },
        }
        match self.circuit.fault() {
            Some(fault) => {
                return Err(SimulationError::Fault(fault));
            },
            None => {},
        }
        self.previous_cycle = self.current_cycle;
        self.current_cycle = self.circuit.cycle();
        Ok((self.previous_cycle, self.circuit.state()))
    }
}

} // verus!
