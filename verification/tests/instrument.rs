use agar_keys::instrument::{Instrument, ReleaseReport};

#[test]
fn flips_and_longest_dropout() {
    let mut ins = Instrument::<9, 8>::new();
    ins.record_sample_at(2, 3, true, false, 0);
    ins.record_sample_at(2, 3, true, true, 1);
    ins.record_sample_at(2, 3, false, true, 10);
    ins.record_sample_at(2, 3, false, true, 14);
    ins.record_sample_at(2, 3, true, true, 15);
    ins.record_sample_at(2, 3, false, true, 20);
    let rep = ins.report_release_at(2, 3, 50);
    assert_eq!(
        rep,
        ReleaseReport { position: 2 * 8 + 3, row: 2, col: 3, flips: 4, longest_dropout_ms: 30 }
    );
    let again = ins.report_release_at(2, 3, 60);
    assert_eq!(again.flips, 0);
    assert_eq!(again.longest_dropout_ms, 0);
}

#[test]
fn flips_saturate() {
    let mut ins = Instrument::<1, 1>::new();
    for i in 0..70000u32 {
        ins.record_sample_at(0, 0, i % 2 == 0, false, i);
    }
    assert_eq!(ins.report_release_at(0, 0, 0).flips, u16::MAX);
}

#[test]
fn dropout_length_wraps_to_sixteen_bits() {
    let mut ins = Instrument::<1, 1>::new();
    ins.record_sample_at(0, 0, false, true, 0);
    ins.end_burst_at(0, 0, 70000);
    assert_eq!(ins.report_release_at(0, 0, 70001).longest_dropout_ms, (70000u32 % 65536) as u16);
}

#[test]
fn clock_reading_instrument_runs() {
    let mut ins = Instrument::<1, 1>::new();
    ins.record_sample(0, 0, false, true);
    let rep = ins.report_release(0, 0);
    assert_eq!(rep.position, 0);
    assert_eq!(rep.flips, 0);
}
