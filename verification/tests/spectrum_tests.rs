use molaxis::numeral::parse_u16_decimal;
use molaxis::analyze::{energy_from_group, energy_of_path, energy_of_file, energy_pattern, spectrum_paths, Spectrum};

#[test]
fn new_spectrum_is_empty() {
    let s = Spectrum::new();
    for e in 0..31 {
        assert_eq!(s.starts(e), 0);
        assert_eq!(s.stops(e), 0);
    }
}

#[test]
fn check_counts_one_event_in_one_bin() {
    let mut s = Spectrum::new();
    s.check(3, 2);
    s.check(3, 5);
    s.check(30, 1);
    assert_eq!(s.starts(3), 2);
    assert_eq!(s.stops(3), 7);
    assert_eq!(s.starts(30), 1);
    assert_eq!(s.stops(30), 1);
    assert_eq!(s.starts(0), 0);
    let total: u64 = (0..31).map(|e| s.starts(e)).sum();
    assert_eq!(total, 3);
    let stops: u64 = (0..31).map(|e| s.stops(e)).sum();
    assert_eq!(stops, 8);
}

#[test]
fn checks_commute() {
    let mut a = Spectrum::new();
    a.check(4, 9);
    a.check(7, 1);
    let mut b = Spectrum::new();
    b.check(7, 1);
    b.check(4, 9);
    assert_eq!(a.to_text(), b.to_text());
}

#[test]
fn spectrum_text_has_one_line_per_energy() {
    let mut s = Spectrum::new();
    s.check(0, 12);
    s.check(10, 3);
    let text = s.to_text();
    let lines: Vec<&str> = text.split('\n').collect();
    assert_eq!(lines.len(), 31);
    assert_eq!(lines[0], "0\t1\t12");
    assert_eq!(lines[1], "1\t0\t0");
    assert_eq!(lines[10], "10\t1\t3");
    assert_eq!(lines[30], "30\t0\t0");
    assert!(!text.ends_with('\n'));
}

#[test]
fn energy_is_read_from_the_file_name() {
    let p = energy_pattern().expect("pattern compiles");
    assert_eq!(energy_of_file(&p, "20220108_se012_add333.txt"), Some(12));
    assert_eq!(energy_of_file(&p, "20220108_se500_add244_0.txt"), Some(500));
    assert_eq!(energy_of_file(&p, "se1_se002.txt"), Some(2));
    assert_eq!(energy_of_file(&p, "no_energy.txt"), None);
    assert_eq!(energy_of_file(&p, "se12.txt"), None);
}

#[test]
fn energy_from_captured_digits() {
    assert_eq!(energy_from_group(Some("030")), Some(30));
    assert_eq!(energy_from_group(Some("\u{0661}\u{0662}\u{0663}")), None);
    assert_eq!(energy_from_group(None), None);
}

#[test]
fn spectra_go_to_the_analysis_directory() {
    let (perp, par) = spectrum_paths(&"/exp/MT2020_1/2_combined/20220108_se000_add333.txt".to_string());
    assert_eq!(perp, "/exp/MT2020_1/3_analyzed/perpendicular");
    assert_eq!(par, "/exp/MT2020_1/3_analyzed/parallel");
}

#[test]
fn energy_is_read_from_the_file_name_of_a_path() {
    let p = energy_pattern().expect("pattern compiles");
    assert_eq!(energy_of_path(&p, "/exp/se999/2_combined/20220108_se007_add333.txt"), Some(7));
    assert_eq!(energy_of_path(&p, "/exp/se007/.."), None);
}

#[test]
fn spectrum_numbers_read_back() {
    let mut s = Spectrum::new();
    for _ in 0..17 {
        s.check(21, 4000);
    }
    let text = s.to_text();
    let line = text.split('\n').nth(21).unwrap();
    let fields: Vec<Option<u16>> = line.split('\t').map(parse_u16_decimal).collect();
    assert_eq!(fields, vec![Some(21), Some(17), None]);
    assert_eq!(line, "21\t17\t68000");
}

#[test]
fn each_bin_counts_its_events_and_stops() {
    let events: Vec<(u64, u64)> = vec![(2, 1), (5, 3), (2, 4), (30, 0), (2, 2), (5, 10)];
    let mut s = Spectrum::new();
    for &(e, c) in &events {
        s.check(e, c);
    }
    for bin in 0..31usize {
        let n = events.iter().filter(|(e, _)| *e as usize == bin).count() as u64;
        let stops: u64 = events.iter().filter(|(e, _)| *e as usize == bin).map(|(_, c)| c).sum();
        assert_eq!(s.starts(bin), n);
        assert_eq!(s.stops(bin), stops);
    }
    assert_eq!(s.starts(2), 3);
    assert_eq!(s.stops(2), 7);
}
