//! Waveforms of the size and shape that simulators write, built in memory:
//! as many variables and records as the traces they stand for, which are
//! files, and are not read here.

use wavetk::simulation::StateSimulation;
use wavetk::utils::ByteSource;
use wavetk::vcd::{CommandCounter, VcdParser};

/// The identifier of the `n`-th variable: printable characters from `!` on,
/// shortest first, as simulators number them.
fn id(n: usize) -> Vec<u8> {
    let mut n = n;
    let mut id = Vec::new();
    loop {
        id.push(b'!' + (n % 94) as u8);
        n /= 94;
        if n == 0 {
            return id;
        }
        n -= 1;
    }
}

/// A header that declares variables of the given widths in one module.
fn header(widths: &[u32]) -> Vec<u8> {
    let mut text = Vec::new();
    text.extend_from_slice(b"$date\n  Sat Feb  1 12:00:00 2020\n$end\n");
    text.extend_from_slice(b"$version\n  waveform writer 1.0\n$end\n");
    text.extend_from_slice(b"$timescale\n  1 fs\n$end\n");
    text.extend_from_slice(b"$scope module top $end\n");
    for (n, width) in widths.iter().enumerate() {
        text.extend_from_slice(format!("$var wire {} ", width).as_bytes());
        text.extend_from_slice(&id(n));
        text.extend_from_slice(format!(" signal{}", n).as_bytes());
        if *width > 1 {
            text.extend_from_slice(format!("[{}:0]", width - 1).as_bytes());
        }
        text.extend_from_slice(b" $end\n");
    }
    text.extend_from_slice(b"$upscope $end\n$enddefinitions $end\n");
    text
}

/// A value change of the `n`-th variable to all `bit`.
fn change(text: &mut Vec<u8>, n: usize, width: u32, bit: u8) {
    if width == 1 {
        text.push(bit);
    } else {
        text.push(b'b');
        for _ in 0..width {
            text.push(bit);
        }
        text.push(b' ');
    }
    text.extend_from_slice(&id(n));
    text.push(b'\n');
}

/// A body of exactly `n_commands` records: every variable is set to zero,
/// then comes time zero, then the variables toggle one after the other, with
/// a time record after every `per_cycle` changes.
fn body(widths: &[u32], n_commands: usize, per_cycle: usize, step: u64) -> Vec<u8> {
    let mut text = Vec::new();
    let mut written = 0;
    for (n, width) in widths.iter().enumerate() {
        if written + 1 >= n_commands {
            break;
        }
        change(&mut text, n, *width, b'0');
        written += 1;
    }
    text.extend_from_slice(b"#0\n");
    written += 1;
    let mut time = 0;
    let mut turn = 0;
    while written < n_commands {
        if turn % (per_cycle + 1) == per_cycle || written + 1 == n_commands {
            time += step;
            text.extend_from_slice(format!("#{}\n", time).as_bytes());
        } else {
            let n = turn % widths.len();
            let bit = if (turn / widths.len()) % 2 == 0 { b'1' } else { b'0' };
            change(&mut text, n, widths[n], bit);
        }
        written += 1;
        turn += 1;
    }
    text
}

fn counts(text: &[u8], chunk_size: usize) -> (usize, u64) {
    let mut parser = VcdParser::with_chunk_size(chunk_size, ByteSource::new(text.to_vec()));
    let n_var = parser.load_header().unwrap().variables.len();
    let mut counter = CommandCounter { count: 0 };
    parser.process_vcd_commands(&mut counter).unwrap();
    assert!(parser.done());
    (n_var, counter.count)
}

fn waveform(widths: &[u32], n_commands: usize, per_cycle: usize, step: u64) -> Vec<u8> {
    let mut text = header(widths);
    text.extend_from_slice(&body(widths, n_commands, per_cycle, step));
    text
}

#[test]
fn identifiers_are_numbered_from_the_exclamation_mark() {
    assert_eq!(id(0), b"!");
    assert_eq!(id(1), b"\"");
    assert_eq!(id(93), b"~");
    assert_eq!(id(94), b"!!");
    assert_eq!(id(95), b"\"!");
}

/// A waveform of ten variables and twenty-nine records.
fn ghdl_0() -> Vec<u8> {
    waveform(&[1, 32, 32, 32, 32, 32, 32, 32, 32, 32], 29, 3, 5000000)
}

fn check(text: &[u8], chunk_size: usize, n_var: usize, n_cmd: u64) {
    assert_eq!(counts(text, chunk_size), (n_var, n_cmd));
}

#[test]
fn parse_ghdl_0() {
    check(&ghdl_0(), 3, 10, 29);
}

#[test]
fn parse_ghdl_3() {
    check(&ghdl_0(), 3, 10, 29);
}

#[test]
fn parse_ghdl_13() {
    check(&ghdl_0(), 13, 10, 29);
}

#[test]
fn parse_ghdl_128() {
    check(&ghdl_0(), 128, 10, 29);
}

#[test]
fn parse_simple_10() {
    check(&waveform(&[1], 18, 2, 10), 10, 1, 18);
}

#[test]
fn parse_simple_1024() {
    check(&waveform(&[1], 18, 2, 10), 1024, 1, 18);
}

#[test]
fn parse_synopsys_256() {
    check(&waveform(&[1, 1, 8, 8, 1, 1, 16, 1, 1, 1, 4, 4, 1, 1, 32, 1], 55, 6, 100), 256, 16, 55);
}

#[test]
fn parse_ncsim_32() {
    check(&waveform(&[1, 8, 1], 55, 2, 1), 32, 3, 55);
}

#[test]
fn parse_ncsim_4096() {
    check(&waveform(&[1, 8, 1], 55, 2, 1), 4096, 3, 55);
}

#[test]
fn simulation_sim_ghdl_0() {
    sim_ghdl_0();
}

#[test]
fn sim_ghdl_0() {
    let widths = [1, 32, 32, 32, 32, 32, 32, 32, 32, 32];
    let mut text = header(&widths);
    for (n, width) in widths.iter().enumerate() {
        change(&mut text, n, *width, b'0');
    }
    text.extend_from_slice(b"#0\n0!\n#5000000\n1!\n#10000000\n0!\n#15000000\n");
    let mut sim = StateSimulation::new(ByteSource::new(text));
    sim.load_header().unwrap();
    sim.allocate_state().unwrap();
    let info = sim.header_info().unwrap();
    let clk_id = info.iter().find(|(_, v)| v.id == b"!").unwrap().0.unwrap();

    let (c, d) = sim.next_cycle().unwrap();
    assert_eq!(c, -1);
    assert_eq!(d.len(), 289);
    assert_eq!(d[clk_id], 0);

    let (c, d) = sim.next_cycle().unwrap();
    assert_eq!(c, 0);
    assert_eq!(d[clk_id], 0);

    let (c, d) = sim.next_cycle().unwrap();
    assert_eq!(c, 5000000);
    assert_eq!(d[clk_id], 1);
}

#[test]
fn sim_picorv32() {
    let mut widths = vec![1u32; 418];
    widths[2 * 94 + 64] = 128;
    assert_eq!(id(2 * 94 + 64), b"a\"");
    let mut text = header(&widths);
    text.extend_from_slice(b"$dumpvars\n");
    for n in 0..widths.len() {
        if n != 2 * 94 + 64 {
            change(&mut text, n, 1, b'x');
        }
    }
    text.extend_from_slice(b"$end\n#0\nb1");
    for _ in 0..37 {
        text.push(b'0');
    }
    text.extend_from_slice(b" a\"\n#5000\n1!\n#10000\n");
    let mut sim = StateSimulation::new(ByteSource::new(text));
    sim.load_header().unwrap();
    sim.allocate_state().unwrap();
    let info = sim.header_info().unwrap();
    assert_eq!(info.len(), 418);
    let sig = info.iter().find(|(_, v)| v.id == b"a\"").unwrap().0.unwrap();
    let sig_w = 128usize;

    let (c, d) = sim.next_cycle().unwrap();
    assert_eq!(c, -1);
    assert!(d[sig..sig + sig_w].iter().all(|x| *x == 0));

    let (c, d) = sim.next_cycle().unwrap();
    assert_eq!(c, 0);
    assert!(d[sig..sig + 91].iter().all(|x| *x == 1));
    assert!(d[sig + 91..sig + sig_w].iter().all(|x| *x == 0));

    let (c, _) = sim.next_cycle().unwrap();
    assert_eq!(c, 5000);
}

#[test]
fn parse_iverilog_4096() {
    let mut widths = vec![1u32; 418];
    widths[2 * 94 + 64] = 128;
    widths[7] = 32;
    let text = waveform(&widths, 355, 5, 5000);
    check(&text, 4096, 418, 355);
    check(&text, 100, 418, 355);
}

/// A waveform of two thousand one hundred and two variables.
fn verilator() -> Vec<u8> {
    let widths: Vec<u32> = (0..2102).map(|n| [1, 1, 32, 4, 1, 64, 2, 1][n % 8]).collect();
    waveform(&widths, 7230, 40, 1)
}

#[test]
fn parse_verilator_31() {
    check(&verilator(), 31, 2102, 7230);
}

#[test]
fn parse_verilator_4096() {
    check(&verilator(), 4096, 2102, 7230);
}

#[test]
fn parse_ieee_1364_2001_16() {
    check(&waveform(&[8, 1, 1, 1, 1], 50, 4, 10), 16, 5, 50);
}

#[test]
fn parse_header_0() {
    check(&waveform(&[1, 1, 1], 3, 1, 1), 128, 3, 3);
}

#[test]
fn vcd_parser_parse_header_0() {
    let (n_var, n_cmd) = counts(&waveform(&[1, 1, 1], 3, 1, 1), 128);
    assert_eq!(n_var, 3);
    assert_eq!(n_cmd, 3);
}

#[test]
fn a_large_waveform_gives_the_same_states_at_all_chunk_sizes() {
    let widths: Vec<u32> = (0..300).map(|n| [1, 300, 32, 4, 1][n % 5]).collect();
    let text = waveform(&widths, 2000, 17, 5);
    let run = |chunk_size: usize| {
        let mut sim = StateSimulation::with_chunk_size(chunk_size, ByteSource::new(text.clone()));
        sim.load_header().unwrap();
        sim.allocate_state().unwrap();
        let mut cycles = Vec::new();
        while !sim.done() {
            let (cycle, state) = sim.next_cycle().unwrap();
            let sum: i64 = state.iter().map(|b| *b as i64).sum();
            cycles.push((cycle, sum, state.len()));
        }
        (cycles, sim.state().to_vec())
    };
    let expected = run(4096);
    assert!(expected.0.len() > 50);
    for chunk_size in [1usize, 7, 31, 255, 256, 257, 1000] {
        assert_eq!(run(chunk_size), expected, "chunk size {}", chunk_size);
    }
}
