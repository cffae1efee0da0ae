use rat::{
    get_input_type, io_blksize, BufferedWriterSingleThread, Config, Flags, InputType, LineNumber,
    NumberMode, IO_BUFSIZE,
};

fn plain_config() -> Config {
    Config {
        number_mode: NumberMode::Off,
        show_ends: false,
        squeeze_blank: false,
        show_tabs: false,
        show_nonprinting: false,
        files: vec![],
    }
}

#[test]
fn block_size_padding_and_rounding() {
    assert_eq!(io_blksize(4096, true), 262144);
    assert_eq!(io_blksize(0, true), IO_BUFSIZE);
    assert_eq!(io_blksize(-5, false), IO_BUFSIZE);
    assert_eq!(io_blksize(3000, false), 264000);
    assert_eq!(io_blksize(3000, true), 524288);
    assert_eq!(io_blksize(1 << 20, true), 1 << 20);
    assert_eq!(io_blksize(1_000_000, false), 1_000_000);
    assert_eq!(io_blksize(1_000_000, true), 1 << 20);
    assert_eq!(io_blksize(i64::MAX, false), i64::MAX as u64);
    assert_eq!(io_blksize(i64::MAX, true), 1u64 << 63);
}

#[test]
fn line_number_starts_at_zero_field() {
    let n = LineNumber::new(20);
    assert_eq!(n.get_line_num(), b"     0");
}

#[test]
fn line_number_grows_right_aligned() {
    let mut n = LineNumber::new(20);
    let mut count: u64 = 0;
    for k in 0..7u32 {
        let target = 10u64.pow(k);
        while count < target {
            n.next_line_num();
            count += 1;
        }
        let expected = format!("{:>6}", count);
        assert_eq!(n.get_line_num(), expected.as_bytes());
    }
    assert_eq!(n.get_line_num(), b"1000000");
}

#[test]
fn line_number_carries() {
    let mut n = LineNumber::new(6);
    for _ in 0..99 {
        n.next_line_num();
    }
    assert_eq!(n.get_line_num(), b"    99");
    n.next_line_num();
    assert_eq!(n.get_line_num(), b"   100");
}

#[test]
fn writer_buffers_small_writes() {
    let mut w = BufferedWriterSingleThread::new();
    let blocks = w.write(b"hello");
    assert!(blocks.is_empty());
    assert_eq!(w.write_byte(b'!'), None);
    assert_eq!(w.flush(), b"hello!".to_vec());
    assert_eq!(w.flush(), Vec::<u8>::new());
    w.wait();
}

#[test]
fn writer_hands_back_full_blocks_in_order() {
    let cap = IO_BUFSIZE as usize;
    let data: Vec<u8> = (0..(2 * cap + 17)).map(|i| (i % 251) as u8).collect();
    let mut w = BufferedWriterSingleThread::new();
    let mut sent: Vec<u8> = Vec::new();
    for b in w.write(&data[..10]) {
        sent.extend(b);
    }
    for b in w.write(&data[10..]) {
        assert_eq!(b.len(), cap);
        sent.extend(b);
    }
    sent.extend(w.flush());
    assert_eq!(sent, data);
}

#[test]
fn writer_passes_exact_block_through() {
    let cap = IO_BUFSIZE as usize;
    let data = vec![7u8; cap];
    let mut w = BufferedWriterSingleThread::new();
    let blocks = w.write(&data);
    assert_eq!(blocks, vec![data]);
    assert!(w.flush().is_empty());
}

#[test]
fn writer_byte_flushes_when_full() {
    let cap = IO_BUFSIZE as usize;
    let mut w = BufferedWriterSingleThread::new();
    let blocks = w.write(&vec![1u8; cap - 1]);
    assert!(blocks.is_empty());
    assert_eq!(w.write_byte(2), None);
    let flushed = w.write_byte(3).expect("a full buffer is handed back");
    assert_eq!(flushed.len(), cap);
    assert_eq!(flushed[cap - 1], 2);
    assert_eq!(w.flush(), vec![3u8]);
}

#[test]
fn config_strings() {
    let mut cfg = plain_config();
    assert!(cfg.can_easy_write());
    assert_eq!(cfg.end_str(), b"\n");
    assert_eq!(cfg.tab_str(), b"\t");
    cfg.show_ends = true;
    cfg.show_tabs = true;
    assert!(!cfg.can_easy_write());
    assert_eq!(cfg.end_str(), b"$\n");
    assert_eq!(cfg.tab_str(), b"^I");
    let mut cfg = plain_config();
    cfg.number_mode = NumberMode::NonBlank;
    assert!(!cfg.can_easy_write());
    let mut cfg = plain_config();
    cfg.squeeze_blank = true;
    assert!(!cfg.can_easy_write());
}

#[test]
fn input_type_from_name() {
    assert_eq!(get_input_type("-"), InputType::Stdin);
    assert_eq!(get_input_type("--"), InputType::File);
    assert_eq!(get_input_type("file.txt"), InputType::File);
    assert_eq!(get_input_type(""), InputType::File);
}

#[test]
fn config_from_flags() {
    let cfg = Config::from(&Flags::default(), vec![]);
    assert!(cfg.can_easy_write());
    assert_eq!(cfg.files, vec!["-".to_string()]);

    let all = Flags { show_all: true, ..Flags::default() };
    let cfg = Config::from(&all, vec!["a".to_string(), "b".to_string()]);
    assert!(cfg.show_ends && cfg.show_tabs && cfg.show_nonprinting);
    assert!(!cfg.squeeze_blank);
    assert_eq!(cfg.number_mode, NumberMode::Off);
    assert_eq!(cfg.files, vec!["a".to_string(), "b".to_string()]);

    let e = Flags { show_nonprinting_ends: true, ..Flags::default() };
    let cfg = Config::from(&e, vec![]);
    assert!(cfg.show_ends && cfg.show_nonprinting && !cfg.show_tabs);

    let t = Flags { show_nonprinting_tabs: true, ..Flags::default() };
    let cfg = Config::from(&t, vec![]);
    assert!(!cfg.show_ends && cfg.show_nonprinting && cfg.show_tabs);

    let nb = Flags { number: true, number_nonblank: true, ..Flags::default() };
    assert_eq!(Config::from(&nb, vec![]).number_mode, NumberMode::NonBlank);
    let n = Flags { number: true, ..Flags::default() };
    assert_eq!(Config::from(&n, vec![]).number_mode, NumberMode::AllLine);
    let s = Flags { squeeze_blank: true, ..Flags::default() };
    assert!(Config::from(&s, vec![]).squeeze_blank);
}
