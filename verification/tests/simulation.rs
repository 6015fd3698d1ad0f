use wavetk::circuit::{ChangeFault, Circuit};
use wavetk::command::{VcdChange, VcdValue};
use wavetk::simulation::{logic_level, SimulationError, StateSimulation};
use wavetk::types::VariableKind;
use wavetk::utils::ByteSource;
use wavetk::vcd::VcdError;

const SAMPLE: &[u8] = b"$date today $end
$timescale 1ps $end
$scope module logic $end
$var wire 8 # data $end
$var wire 1 $ data_valid $end
$var wire 1 % en $end
$var wire 1 & rx_en $end
$var wire 1 ' tx_en $end
$var wire 1 ( empty $end
$var wire 1 ) underrun $end
$upscope $end
$enddefinitions $end
$dumpvars
bxxxxxxxx #
x$
0%
x&
x'
1(
0)
$end
#0
b10000001 #
0$
1%
0&
1'
0(
0)
#2211
0'
#2296
b0 #
1$
#2302
0$
bz1 #
#2303
";

fn simulation(bytes: &[u8], chunk_size: usize) -> StateSimulation {
    StateSimulation::with_chunk_size(chunk_size, ByteSource::new(bytes.to_vec()))
}

fn offset_of(sim: &StateSimulation, id: &[u8]) -> Option<usize> {
    let info = sim.header_info().unwrap();
    info.iter().find(|(_, v)| v.id == id).unwrap().0
}

fn all_cycles(bytes: &[u8], chunk_size: usize) -> Vec<(i64, Vec<i8>)> {
    let mut sim = simulation(bytes, chunk_size);
    sim.load_header().unwrap();
    assert!(sim.can_allocate());
    sim.allocate_state().unwrap();
    let mut cycles = Vec::new();
    while !sim.done() {
        let (cycle, state) = sim.next_cycle().unwrap();
        cycles.push((cycle, state.to_vec()));
    }
    cycles
}

#[test]
fn logic_levels_are_signed_bytes() {
    assert_eq!(logic_level('0'), 0);
    assert_eq!(logic_level('1'), 1);
    assert_eq!(logic_level('U'), -1);
    assert_eq!(logic_level('u'), -1);
    assert_eq!(logic_level('W'), -2);
    assert_eq!(logic_level('w'), -2);
    assert_eq!(logic_level('Z'), -3);
    assert_eq!(logic_level('z'), -3);
    assert_eq!(logic_level('X'), -4);
    assert_eq!(logic_level('x'), -4);
    assert_eq!(logic_level('2'), -5);
    assert_eq!(logic_level('-'), -5);
    assert_eq!(logic_level('\u{130}'), -5);
}

#[test]
fn the_state_follows_the_sample_cycle_by_cycle() {
    let cycles = all_cycles(SAMPLE, 4096);
    assert_eq!(cycles.len(), 5);
    assert_eq!(cycles[0], (-1, vec![-4, -4, -4, -4, -4, -4, -4, -4, -4, 0, -4, -4, 1, 0]));
    assert_eq!(cycles[1], (0, vec![1, 0, 0, 0, 0, 0, 0, 1, 0, 1, 0, 1, 0, 0]));
    assert_eq!(cycles[2], (2211, vec![1, 0, 0, 0, 0, 0, 0, 1, 0, 1, 0, 0, 0, 0]));
    assert_eq!(cycles[3], (2296, vec![0, 0, 0, 0, 0, 0, 0, 0, 1, 1, 0, 0, 0, 0]));
    assert_eq!(cycles[4], (2302, vec![-3, -3, -3, -3, -3, -3, -3, 1, 0, 1, 0, 0, 0, 0]));
}

#[test]
fn the_states_do_not_depend_on_the_chunk_size() {
    let expected = all_cycles(SAMPLE, 4096);
    for chunk_size in [1usize, 2, 3, 7, 13, 31, 100, 256, 300] {
        assert_eq!(all_cycles(SAMPLE, chunk_size), expected, "chunk size {}", chunk_size);
    }
}

#[test]
fn every_byte_of_the_state_is_a_logic_level() {
    for (_, state) in all_cycles(SAMPLE, 16) {
        assert!(state.iter().all(|b| -5 <= *b && *b <= 1));
    }
}

#[test]
fn the_cycles_of_the_sample_do_not_decrease() {
    let cycles = all_cycles(SAMPLE, 16);
    assert_eq!(cycles[0].0, -1);
    for pair in cycles.windows(2) {
        assert!(pair[0].0 <= pair[1].0);
    }
}

#[test]
fn the_default_chunk_size_gives_the_same() {
    let mut sim = StateSimulation::new(ByteSource::new(SAMPLE.to_vec()));
    sim.load_header().unwrap();
    sim.allocate_state().unwrap();
    assert_eq!(sim.state(), &[0i8; 14][..]);
    let (cycle, state) = sim.next_cycle().unwrap();
    assert_eq!(cycle, -1);
    assert_eq!(state.len(), 14);
    assert_eq!(state[8], -4);
}

#[test]
fn header_info_has_one_entry_for_each_declaration() {
    let text = b"$var wire 2 a first $end
$var real 64 r ratio $end
$var wire 2 a again $end
$var reg 3 b second $end
$enddefinitions $end
";
    let mut sim = simulation(text, 64);
    assert!(matches!(sim.header_info(), Err(VcdError::PartialHeader)));
    sim.load_header().unwrap();
    let before = sim.header_info().unwrap();
    assert_eq!(before.len(), 4);
    assert!(before.iter().all(|(offset, _)| offset.is_none()));
    sim.allocate_state().unwrap();
    let info = sim.header_info().unwrap();
    assert_eq!(info.len(), 4);
    assert_eq!(info[0].0, Some(0));
    assert_eq!(info[1].0, None);
    assert_eq!(info[2].0, Some(0));
    assert_eq!(info[3].0, Some(2));
    assert_eq!(info[0].1.name, b"first");
    assert_eq!(info[1].1.kind, VariableKind::VcdReal);
    assert_eq!(info[2].1.name, b"again");
    assert_eq!(info[3].1.width, 3);
    assert_eq!(sim.state().len(), 5);
}

#[test]
fn allocating_before_the_header_is_sealed_is_an_error() {
    let mut sim = simulation(SAMPLE, 64);
    assert!(sim.can_allocate());
    assert!(matches!(sim.allocate_state(), Err(VcdError::PartialHeader)));
    assert_eq!(sim.state().len(), 0);
}

#[test]
fn allocating_twice_gives_the_same_state() {
    let mut sim = simulation(SAMPLE, 64);
    sim.load_header().unwrap();
    sim.allocate_state().unwrap();
    assert_eq!(sim.state().len(), 14);
    let first = sim.header_info().unwrap();
    sim.next_cycle().unwrap();
    sim.allocate_state().unwrap();
    assert_eq!(sim.state(), &[0i8; 14][..]);
    assert_eq!(sim.header_info().unwrap(), first);
}

#[test]
fn a_repeated_identifier_must_keep_its_width() {
    let text = b"$var wire 2 a first $end
$var wire 3 a again $end
$enddefinitions $end
";
    let mut sim = simulation(text, 64);
    sim.load_header().unwrap();
    assert!(!sim.can_allocate());
    let real = b"$var wire 2 a first $end
$var real 3 a again $end
$enddefinitions $end
";
    let mut sim = simulation(real, 64);
    sim.load_header().unwrap();
    assert!(sim.can_allocate());
    sim.allocate_state().unwrap();
    assert_eq!(sim.state().len(), 2);
}

#[test]
fn only_tracked_variables_get_bytes() {
    let mut sim = simulation(SAMPLE, 64);
    sim.load_header().unwrap();
    sim.track_variables(&[&b"%"[..]]);
    sim.track_variables(&[&b"#"[..], &b"nothing"[..]]);
    sim.allocate_state().unwrap();
    assert_eq!(sim.state().len(), 9);
    assert_eq!(offset_of(&sim, b"#"), Some(0));
    assert_eq!(offset_of(&sim, b"%"), Some(8));
    assert_eq!(offset_of(&sim, b"$"), None);
    let (cycle, state) = sim.next_cycle().unwrap();
    assert_eq!((cycle, state), (-1, &[-4i8, -4, -4, -4, -4, -4, -4, -4, 0][..]));
    let (cycle, state) = sim.next_cycle().unwrap();
    assert_eq!((cycle, state), (0, &[1i8, 0, 0, 0, 0, 0, 0, 1, 1][..]));
}

#[test]
fn a_repeated_identifier_that_is_not_tracked_may_change_its_width() {
    let text = b"$var wire 2 a first $end
$var wire 3 a again $end
$var wire 1 b other $end
$enddefinitions $end
";
    let mut sim = simulation(text, 64);
    sim.load_header().unwrap();
    sim.track_variables(&[&b"b"[..]]);
    assert!(sim.can_allocate());
    sim.allocate_state().unwrap();
    assert_eq!(sim.state().len(), 1);
}

#[test]
fn after_the_last_record_the_input_has_ended() {
    let mut sim = simulation(b"$var wire 1 ! a $end\n$enddefinitions $end\n", 64);
    sim.load_header().unwrap();
    sim.allocate_state().unwrap();
    assert!(sim.done());
    assert!(matches!(
        sim.next_cycle(),
        Err(SimulationError::Vcd(VcdError::EndOfInput))
    ));
    let mut sim = simulation(SAMPLE, 64);
    sim.load_header().unwrap();
    sim.allocate_state().unwrap();
    for _ in 0..5 {
        sim.next_cycle().unwrap();
    }
    assert!(sim.done());
    assert!(matches!(
        sim.next_cycle(),
        Err(SimulationError::Vcd(VcdError::EndOfInput))
    ));
}

#[test]
fn a_body_that_ends_without_a_time_record_sets_the_time_to_zero() {
    let text = b"$var wire 1 ! a $end\n$enddefinitions $end\n#7\n1!\n";
    let mut sim = simulation(text, 64);
    sim.load_header().unwrap();
    sim.allocate_state().unwrap();
    assert_eq!(sim.next_cycle().unwrap(), (-1, &[0i8][..]));
    assert_eq!(sim.next_cycle().unwrap(), (7, &[1i8][..]));
    assert!(sim.done());
}

#[test]
fn a_cycle_cut_short_is_missing_data() {
    let text = b"$var wire 4 ! a $end\n$enddefinitions $end\n#0\nb0101";
    let mut sim = simulation(text, 64);
    sim.load_header().unwrap();
    sim.allocate_state().unwrap();
    assert_eq!(sim.next_cycle().unwrap().0, -1);
    assert!(matches!(
        sim.next_cycle(),
        Err(SimulationError::Vcd(VcdError::MissingData))
    ));
}

#[test]
fn a_change_of_an_unknown_variable_is_a_fault() {
    let text = b"$var wire 1 ! a $end\n$enddefinitions $end\n1!\n1?\n0!\n#1\n";
    let mut sim = simulation(text, 64);
    sim.load_header().unwrap();
    sim.allocate_state().unwrap();
    assert!(matches!(
        sim.next_cycle(),
        Err(SimulationError::Fault(ChangeFault::UnknownVariable))
    ));
    assert_eq!(sim.state(), &[1i8][..]);
    assert_eq!(sim.next_cycle().unwrap(), (-1, &[0i8][..]));
}

#[test]
fn a_vector_longer_than_its_variable_is_a_fault() {
    let text = b"$var wire 2 ! a $end\n$enddefinitions $end\nb111 !\n#1\n";
    let mut sim = simulation(text, 64);
    sim.load_header().unwrap();
    sim.allocate_state().unwrap();
    assert!(matches!(
        sim.next_cycle(),
        Err(SimulationError::Fault(ChangeFault::WidthMismatch))
    ));
    assert_eq!(sim.state(), &[0i8, 0][..]);
}

#[test]
fn a_change_of_a_real_variable_is_a_fault_unless_it_is_left_out() {
    let text = b"$var real 64 r ratio $end\n$var wire 1 ! a $end\n$enddefinitions $end\nr1.5 r\n#1\n";
    let mut sim = simulation(text, 64);
    sim.load_header().unwrap();
    sim.allocate_state().unwrap();
    assert!(matches!(
        sim.next_cycle(),
        Err(SimulationError::Fault(ChangeFault::UnknownVariable))
    ));
    let mut sim = simulation(text, 64);
    sim.load_header().unwrap();
    sim.track_variables(&[&b"!"[..]]);
    sim.allocate_state().unwrap();
    assert_eq!(sim.next_cycle().unwrap(), (-1, &[0i8][..]));
}

#[test]
fn a_vector_is_extended_to_the_left_by_its_first_value() {
    let text = b"$var wire 5 ! a $end\n$enddefinitions $end\nb1 !\n#1\nb01 !\n#2\nbx0 !\n#3\nbZ !\n#4\nb10101 !\n#5\n";
    let mut sim = simulation(text, 64);
    sim.load_header().unwrap();
    sim.allocate_state().unwrap();
    assert_eq!(sim.next_cycle().unwrap(), (-1, &[1i8, 1, 1, 1, 1][..]));
    assert_eq!(sim.next_cycle().unwrap(), (1, &[0i8, 0, 0, 0, 1][..]));
    assert_eq!(sim.next_cycle().unwrap(), (2, &[-4i8, -4, -4, -4, 0][..]));
    assert_eq!(sim.next_cycle().unwrap(), (3, &[-3i8, -3, -3, -3, -3][..]));
    assert_eq!(sim.next_cycle().unwrap(), (4, &[1i8, 0, 1, 0, 1][..]));
}

#[test]
fn one_wire_value_is_written_to_the_first_byte() {
    let text = b"$var wire 3 ! a $end\n$var wire 0 e empty $end\n$enddefinitions $end\nb111 !\nx!\n#1\n1e\n#2\n";
    let mut sim = simulation(text, 64);
    sim.load_header().unwrap();
    sim.allocate_state().unwrap();
    assert_eq!(sim.state().len(), 3);
    assert_eq!(sim.next_cycle().unwrap(), (-1, &[-4i8, 1, 1][..]));
    assert!(matches!(
        sim.next_cycle(),
        Err(SimulationError::Fault(ChangeFault::WidthMismatch))
    ));
}

#[test]
fn the_state_is_allocated_only_if_it_can_be() {
    let clash = b"$var wire 2 a first $end\n$var wire 3 a again $end\n$enddefinitions $end\n";
    let mut sim = simulation(clash, 64);
    assert!(matches!(sim.try_allocate_state(), Err(VcdError::PartialHeader)));
    sim.load_header().unwrap();
    assert!(matches!(sim.try_allocate_state(), Ok(false)));
    assert_eq!(sim.state().len(), 0);
    let same = b"$var wire 2 a first $end\n$var wire 2 a again $end\n$var wire 1 b c $end\n$enddefinitions $end\n";
    let mut sim = simulation(same, 64);
    sim.load_header().unwrap();
    assert!(matches!(sim.try_allocate_state(), Ok(true)));
    assert_eq!(sim.state().len(), 3);
    let info = sim.header_info().unwrap();
    assert_eq!((info[0].0, info[1].0, info[2].0), (Some(0), Some(0), Some(2)));
}

#[test]
fn a_first_cycle_without_a_line_feed_is_read_at_every_chunk_size() {
    for chunk_size in [1usize, 3, 21, 22, 4096] {
        let mut sim = simulation(b"$enddefinitions $end\n#1", chunk_size);
        sim.load_header().unwrap();
        sim.allocate_state().unwrap();
        assert_eq!(sim.next_cycle().unwrap(), (-1, &[0i8; 0][..]), "chunk size {}", chunk_size);
        assert!(sim.done());
    }
}

#[test]
fn a_circuit_takes_changes_by_itself() {
    let mut circuit = Circuit::new();
    assert_eq!(circuit.state(), &[0i8; 0][..]);
    assert_eq!(circuit.cycle(), 0);
    assert_eq!(circuit.fault(), None);
    let change = VcdChange { var_id: b"!", value: VcdValue::Bit('1') };
    assert_eq!(circuit.fault_of(&change), Some(ChangeFault::UnknownVariable));
    assert_eq!(circuit.find(b"!"), None);
    assert_eq!(circuit.offset_of(b"!"), None);
    assert_eq!(circuit.width_of(b"!"), None);
    assert!(!circuit.is_unwatched(b"!"));
    circuit.track(&[&b"a"[..]]);
    assert!(circuit.is_unwatched(b"!"));
    assert!(!circuit.is_unwatched(b"a"));
    assert_eq!(circuit.fault_of(&change), None);
    circuit.apply_change(&change);
    assert_eq!(circuit.state(), &[0i8; 0][..]);
}

#[test]
fn the_bytes_of_the_variables_fill_the_state_without_overlap() {
    let mut sim = simulation(SAMPLE, 64);
    sim.load_header().unwrap();
    sim.allocate_state().unwrap();
    let info = sim.header_info().unwrap();
    let mut ranges: Vec<(usize, usize)> = info
        .iter()
        .filter_map(|(offset, v)| offset.map(|o| (o, o + v.width as usize)))
        .collect();
    ranges.sort();
    ranges.dedup();
    assert_eq!(ranges.len(), 7);
    assert_eq!(ranges[0].0, 0);
    for pair in ranges.windows(2) {
        assert_eq!(pair[0].1, pair[1].0);
    }
    assert_eq!(ranges[6].1, sim.state().len());
    let total: usize = ranges.iter().map(|(from, to)| to - from).sum();
    assert_eq!(total, sim.state().len());
    while !sim.done() {
        sim.next_cycle().unwrap();
        assert_eq!(sim.state().len(), total);
    }
}
