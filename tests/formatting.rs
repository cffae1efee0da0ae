use rat::{
    write_line_nonprinting, Config, NumberMode, OutState, Session,
};

fn config(number_mode: NumberMode, show_ends: bool, squeeze_blank: bool, show_tabs: bool, show_nonprinting: bool) -> Config {
    Config {
        number_mode,
        show_ends,
        squeeze_blank,
        show_tabs,
        show_nonprinting,
        files: vec![],
    }
}

fn show_ends() -> Config {
    config(NumberMode::Off, true, false, false, false)
}

/// Runs a whole session over the given inputs, each handed over as one chunk.
fn run_inputs(config: &Config, inputs: &[&[u8]]) -> (Vec<u8>, i32) {
    let mut session = Session::new();
    let mut out = Vec::new();
    for input in inputs {
        session.handle_chunk(input, config, &mut out);
    }
    let status = session.finish(&mut out);
    (out, status)
}

/// Formats `input` in chunks of `size` bytes, then appends a pending `\r`.
fn format_in_chunks(config: &Config, input: &[u8], size: usize) -> Vec<u8> {
    let mut session = Session::new();
    let mut out = Vec::new();
    for chunk in input.chunks(size) {
        session.handle_chunk(chunk, config, &mut out);
    }
    session.finish(&mut out);
    out
}

/// Formats `input` cut into two chunks at `at`.
fn format_split(config: &Config, input: &[u8], at: usize) -> Vec<u8> {
    let mut session = Session::new();
    let mut out = Vec::new();
    session.handle_chunk(&input[..at], config, &mut out);
    session.handle_chunk(&input[at..], config, &mut out);
    session.finish(&mut out);
    out
}

#[test]
fn test_end() {
    let (out, _) = run_inputs(&show_ends(), &[b"a\rb\r\nc\n\r\nd\r"]);
    assert_eq!(out, b"a\rb^M$\nc$\n^M$\nd\r".to_vec());

    let (out, _) = run_inputs(&show_ends(), &[b"1\r", b"\n2\r\n"]);
    assert_eq!(out, b"1^M$\n2^M$\n".to_vec());

    let (out, _) = run_inputs(&show_ends(), &[b"1\r", b"2\r\n"]);
    assert_eq!(out, b"1\r2^M$\n".to_vec());
}

#[test]
fn show_ends_scenario_one_input() {
    let (out, status) = run_inputs(&show_ends(), &[b"a\rb\r\nc\n\r\nd\r"]);
    assert_eq!(out, b"a\rb^M$\nc$\n^M$\nd\r".to_vec());
    assert_eq!(status, 0);
}

#[test]
fn show_ends_two_carriage_returns() {
    // The first `\r` is followed by another byte, so it is kept as is; only
    // the one right before the `\n` is shown as `^M`.
    let (out, _) = run_inputs(&show_ends(), &[b"a\rb\r\r\nc\n\r\nd\r"]);
    assert_eq!(out, b"a\rb\r^M$\nc$\n^M$\nd\r".to_vec());
}

#[test]
fn pending_cr_crosses_inputs() {
    let (out, status) = run_inputs(&show_ends(), &[b"1\r", b"\n2\r\n"]);
    assert_eq!(out, b"1^M$\n2^M$\n".to_vec());
    assert_eq!(status, 0);
}

#[test]
fn partial_failure_keeps_going() {
    let cfg = show_ends();
    let mut session = Session::new();
    let mut out = Vec::new();
    session.handle_chunk(b"first\n", &cfg, &mut out);
    session.input_failed();
    session.handle_chunk(b"third\n", &cfg, &mut out);
    let status = session.finish(&mut out);
    assert_eq!(out, b"first$\nthird$\n".to_vec());
    assert_ne!(status, 0);
}

#[test]
fn all_inputs_ok_exit_zero() {
    let (_, status) = run_inputs(&show_ends(), &[b"x", b"y"]);
    assert_eq!(status, 0);
}

#[test]
fn verbatim_copies_every_byte() {
    let input: Vec<u8> = (0..=255u8).chain(b"a\r\nb\rc\r".iter().copied()).collect();
    let cfg = config(NumberMode::Off, false, false, false, false);
    assert!(cfg.can_easy_write());
    for size in [1, 2, 3, 7, 64, 1000] {
        assert_eq!(format_in_chunks(&cfg, &input, size), input);
    }
}

#[test]
fn formatter_with_everything_off_reproduces_input() {
    let input: Vec<u8> = b"a\rb\r\r\nc\n\r\nd\r\t\x01\xff".to_vec();
    let cfg = config(NumberMode::Off, false, false, false, false);
    let mut state = OutState::new();
    let mut out = Vec::new();
    state.format_chunk(&input, &cfg, &mut out);
    if state.pending_carriage_return() {
        out.push(b'\r');
    }
    assert_eq!(out, input);
}

#[test]
fn chunk_boundaries_change_nothing() {
    let inputs: [&[u8]; 4] = [
        b"a\rb\r\r\nc\n\r\nd\r",
        b"\n\n\nx\t\ty\n\n\n\r\n\x7f\x80\x9f\xa0\xfe\xff\n",
        b"line one\n\nline three\r\n\r\r\n\t\n",
        b"",
    ];
    let modes = [NumberMode::Off, NumberMode::NonBlank, NumberMode::AllLine];
    for input in inputs {
        for mode in modes {
            for bits in 0..16u8 {
                let cfg = config(mode, bits & 1 != 0, bits & 2 != 0, bits & 4 != 0, bits & 8 != 0);
                let whole = format_in_chunks(&cfg, input, input.len().max(1));
                for at in 0..=input.len() {
                    assert_eq!(format_split(&cfg, input, at), whole);
                }
                assert_eq!(format_in_chunks(&cfg, input, 1), whole);
            }
        }
    }
}

fn notation(b: u8, tab: &[u8]) -> Vec<u8> {
    match b {
        9 => tab.to_vec(),
        0..=31 => vec![b'^', b + 64],
        32..=126 => vec![b],
        127 => b"^?".to_vec(),
        128..=159 => vec![b'M', b'-', b'^', b - 64],
        160..=254 => vec![b'M', b'-', b - 128],
        255 => b"M-^?".to_vec(),
    }
}

#[test]
fn nonprinting_table_for_every_byte() {
    for show_tabs in [false, true] {
        let cfg = config(NumberMode::Off, false, false, show_tabs, true);
        let tab: &[u8] = if show_tabs { b"^I" } else { b"\t" };
        for b in 0..=255u8 {
            if b == b'\n' {
                continue;
            }
            let (out, _) = run_inputs(&cfg, &[&[b, b'\n']]);
            let mut expected = notation(b, tab);
            expected.push(b'\n');
            assert_eq!(out, expected, "byte {}", b);
        }
    }
}

#[test]
fn nonprinting_examples() {
    let cfg = config(NumberMode::Off, false, false, false, true);
    let (out, _) = run_inputs(&cfg, &[&[127, b'\n', 200, b'\n', 0, b'\n', 13, b'\n']]);
    assert_eq!(out, b"^?\nM-H\n^@\n^M\n".to_vec());
}

#[test]
fn nonprinting_line_body_stops_at_newline() {
    let cfg = config(NumberMode::Off, false, false, false, true);
    let mut out = Vec::new();
    let n = write_line_nonprinting(&mut out, b"a\x01\rb\nrest", &cfg);
    assert_eq!(n, 4);
    assert_eq!(out, b"a^A^Mb".to_vec());
}

#[test]
fn squeeze_collapses_blank_runs() {
    let cfg = config(NumberMode::Off, false, true, false, false);
    for n in [0usize, 1, 2, 100] {
        let input = vec![b'\n'; n];
        let (out, _) = run_inputs(&cfg, &[&input]);
        let expected = if n == 0 { vec![] } else { vec![b'\n'] };
        assert_eq!(out, expected, "{} blank lines", n);
    }
}

#[test]
fn squeeze_between_text_lines() {
    let cfg = config(NumberMode::Off, false, true, false, false);
    let (out, _) = run_inputs(&cfg, &[b"a\n\n\n\nb\n\nc\n"]);
    assert_eq!(out, b"a\n\nb\n\nc\n".to_vec());
}

#[test]
fn number_all_lines() {
    let cfg = config(NumberMode::AllLine, false, false, false, false);
    let (out, _) = run_inputs(&cfg, &[b"a\n\nb\n"]);
    assert_eq!(out, b"     1\ta\n     2\t\n     3\tb\n".to_vec());
}

#[test]
fn number_nonblank_lines() {
    let cfg = config(NumberMode::NonBlank, false, false, false, false);
    let (out, _) = run_inputs(&cfg, &[b"a\n\nb\n"]);
    assert_eq!(out, b"     1\ta\n\n     2\tb\n".to_vec());
}

#[test]
fn numbering_continues_across_inputs() {
    let cfg = config(NumberMode::AllLine, false, false, false, false);
    let (out, _) = run_inputs(&cfg, &[b"a\nb", b"c\nd\n"]);
    assert_eq!(out, b"     1\ta\n     2\tbc\n     3\td\n".to_vec());
}

#[test]
fn show_tabs_only() {
    let cfg = config(NumberMode::Off, false, false, true, false);
    let (out, _) = run_inputs(&cfg, &[b"a\tb\x01\n"]);
    assert_eq!(out, b"a^Ib\x01\n".to_vec());
}

#[test]
fn show_all_line() {
    let cfg = config(NumberMode::Off, true, false, true, true);
    let (out, _) = run_inputs(&cfg, &[b"x\ty\r\n\x1b\n"]);
    assert_eq!(out, b"x^Iy^M$\n^[$\n".to_vec());
}

#[test]
fn carriage_return_mid_line_is_kept() {
    let cfg = config(NumberMode::AllLine, false, false, false, false);
    let (out, _) = run_inputs(&cfg, &[b"a\rb\n\r\n"]);
    assert_eq!(out, b"     1\ta\rb\n     2\t\r\n".to_vec());
}
