use molaxis::mcs1::{decoded_path, parse_word, DecodeError, HeaderScan, HeaderStep, McsDecoder, McsEvent};

fn word(raw: i64, time: i64, channel: i64) -> i64 {
    (raw << 32) | (time << 4) | (1 << 3) | channel
}

#[test]
fn decodes_fields_of_a_word() {
    let mut d = McsDecoder::new();
    let e = d.step(word(0, 123, 5)).unwrap();
    assert_eq!(e, McsEvent { sweeps: 0, channel: 5, time: 123 });
    assert_eq!(e.to_line(), "0\t5\t123\n");
}

#[test]
fn sweep_may_stay_or_advance_by_one() {
    let mut d = McsDecoder::new();
    assert_eq!(d.step(word(0, 1, 1)).unwrap().sweeps, 0);
    assert_eq!(d.step(word(1, 1, 1)).unwrap().sweeps, 1);
    assert_eq!(d.step(word(1, 2, 1)).unwrap().sweeps, 1);
    assert_eq!(d.step(word(2, 2, 1)).unwrap().sweeps, 2);
}

#[test]
fn counter_wrap_adds_a_period() {
    let mut d = McsDecoder::new();
    for raw in 0..65536 {
        assert_eq!(d.step(word(raw, 0, 1)).unwrap().sweeps, raw);
    }
    let e = d.step(word(0, 7, 2)).unwrap();
    assert_eq!(e.sweeps, 65536);
    assert_eq!(d.step(word(1, 7, 2)).unwrap().sweeps, 65537);
    let s = d.state();
    assert_eq!(s.add_loop, 65536);
    assert_eq!(s.last_add_loop, 65536);
    assert_eq!(s.before_raw, 1);
    assert_eq!(s.before, 65537);
}

#[test]
fn refused_words_leave_the_state_alone() {
    let mut d = McsDecoder::new();
    d.step(word(0, 0, 0)).unwrap();
    d.step(word(1, 0, 0)).unwrap();
    let before = d.state();
    assert_eq!(d.step(word(3, 0, 0)), Err(DecodeError::SweepSkipped { sweeps_raw: 3, delta: -2 }));
    assert_eq!(
        d.step(word(0, 0, 0)),
        Err(DecodeError::SweepReversed { sweeps_raw: 0, before_raw: 1, delta: 1, before: 1 })
    );
    assert_eq!(d.step(word(1, 0, 0) & !8), Err(DecodeError::RisingEdge { before: 1 }));
    assert_eq!(d.step(-1), Err(DecodeError::DataLost { before: 1 }));
    assert_eq!(d.state(), before);
}

#[test]
fn negative_fields_print_with_a_sign() {
    let e = McsEvent { sweeps: -12, channel: 0, time: i64::MIN };
    assert_eq!(e.to_line(), "-12\t0\t-9223372036854775808\n");
}

#[test]
fn data_lines_are_hexadecimal_words() {
    let w = parse_word("000000010000007b").unwrap();
    let mut d = McsDecoder::new();
    assert_eq!(d.step(w), Ok(McsEvent { sweeps: 1, channel: 3, time: 7 }));
}

#[test]
fn header_needs_six_layout_lines_before_data() {
    let lines = [
        "[MPA4A] 0001\n",
        ";bit0..2: channel# 1..6 ( 3 bit)\n",
        ";bit3: edge 0=up / 1=dn ( 1 bit)\n",
        ";bit4 ..31: timedata    (28 bit)\n",
        ";bit32..47: sweeps      (16 bit)\n",
        ";bit48..62: tag0..tag14 (15 bit)\n",
        ";bit63:     data_lost   ( 1 bit)\n",
    ];
    let mut h = HeaderScan::new();
    for l in lines {
        assert_eq!(h.feed(l), HeaderStep::Continue);
    }
    assert_eq!(h.count(), 6);
    assert_eq!(h.feed("[DATA]\n"), HeaderStep::DataFollows);
}

#[test]
fn header_without_the_layout_is_refused() {
    let mut h = HeaderScan::new();
    assert_eq!(h.feed(";bit3: edge 0=up / 1=dn ( 1 bit)"), HeaderStep::Continue);
    assert_eq!(h.feed("  ;bit0..2: channel# 1..6 ( 3 bit)"), HeaderStep::Continue);
    assert_eq!(h.count(), 1);
    assert_eq!(h.feed("[DATA]"), HeaderStep::WrongFormat);
}

#[test]
fn header_counter_overflow_is_reported() {
    let mut h = HeaderScan::new();
    for _ in 0..127 {
        assert_eq!(h.feed(";bit3: edge 0=up / 1=dn ( 1 bit)"), HeaderStep::Continue);
    }
    assert_eq!(h.feed(";bit3: edge 0=up / 1=dn ( 1 bit)"), HeaderStep::TooManyMarkers);
    assert_eq!(h.count(), 127);
}

#[test]
fn decoded_list_sits_beside_the_raw_list() {
    assert_eq!(decoded_path("/exp/raw/20220108_se000_add333.lst"), "/exp/raw/20220108_se000_add333.lstdecoded");
}
