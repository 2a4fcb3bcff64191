use respeaker_algo::drc::config::DrcConfig;
use respeaker_algo::drc::{ChunkClock, DelayLine, Gate, TssDrc, CHUNK_SAMPLES, MAX_DELAY};
use respeaker_algo::single::Single;

fn s(value: f32) -> Single {
    Single { bits: value.to_bits() }
}

fn gate() -> Gate {
    Gate::new(true, s(0.01), s(0.005), 0)
}

fn pipeline(sample_rate: u32) -> Result<TssDrc<i32>, String> {
    TssDrc::pipeline(sample_rate, 0, 32, gate(), 160)
}

#[test]
fn pipeline_rejects_zero_sample_rate() {
    assert!(pipeline(0).is_err());
}

#[test]
fn latency_samples_is_32_at_16k() {
    let seconds = f32::from_bits(DrcConfig::pipeline().predelay_s.bits);
    let look_ahead = (seconds * 16_000.0).round() as usize;
    let drc = TssDrc::pipeline(16_000, 0i32, look_ahead, gate(), 160).unwrap();
    assert_eq!(drc.latency_samples(), 32);
}

#[test]
fn reset_repeats_first_block() {
    let mut drc = pipeline(16_000).unwrap();
    let input: Vec<i32> = (0..512).collect();
    let first = drc.delay.push_all(&input);
    let gated: Vec<bool> = (0..300).map(|_| drc.gate.update(s(0.0))).collect();
    drc.clock.tick();
    drc.delay.push_all(&input);
    drc.reset();
    assert_eq!(drc.delay.push_all(&input), first);
    assert_eq!((0..300).map(|_| drc.gate.update(s(0.0))).collect::<Vec<bool>>(), gated);
    assert!(drc.clock.tick());
}

#[test]
fn look_ahead_delay_peaks_near_32() {
    let mut drc = pipeline(16_000).unwrap();
    let mut x = vec![0i32; 128];
    x[0] = 8;
    let out = drc.delay.push_all(&x);
    assert_eq!(out.iter().position(|v| *v == 8), Some(32));
}

#[test]
fn chunk_consistency_256() {
    let input: Vec<i32> = (0..1024).map(|i| i * 31 % 97).collect();
    let whole = pipeline(16_000).unwrap().delay.push_all(&input);
    let mut drc = pipeline(16_000).unwrap();
    let split: Vec<i32> = input.chunks(256).flat_map(|c| drc.delay.push_all(c)).collect();
    assert_eq!(whole, split);
}

#[test]
fn flush_equals_trailing_zeros() {
    let input: Vec<i32> = (1..=256).collect();
    let mut a = pipeline(16_000).unwrap();
    let mut actual = a.delay.push_all(&input);
    let tail: Vec<i32> = (0..32).map(|_| a.delay.push(0)).collect();
    assert!(tail.iter().all(|v| *v != 0));
    actual.extend(&tail);
    let mut padded = input.clone();
    padded.extend([0; 32]);
    assert_eq!(actual, pipeline(16_000).unwrap().delay.push_all(&padded));
    assert_eq!(tail, input[224..]);
}

#[test]
fn gates_hold_before_they_close() {
    let drc = pipeline(16_000).unwrap();
    let mut g = drc.gate;
    assert_eq!(g.hold_samples, 192);
    let through = (0..400).filter(|_| g.update(s(0.001))).count();
    assert_eq!(through, 192);
    // Between the two levels a closed gate stays closed, and an open one open.
    assert!(!g.update(s(0.007)));
    assert!(g.update(s(0.01)));
    assert!(g.update(s(0.005)));
    assert_eq!(g.hold_counter, 192);
    let mut off = Gate::new(false, s(0.01), s(0.005), 9);
    assert!((0..100).all(|_| off.update(s(0.0))));
    assert_eq!(TssDrc::pipeline(1, 0u8, 3, off, 9).unwrap().gate.hold_samples, 0);
}

#[test]
fn envelopes_are_computed_every_sixteen_samples() {
    let mut clock = ChunkClock::new();
    let refreshed: Vec<usize> = (0..100).filter(|_| clock.tick()).collect();
    assert_eq!(refreshed, [0, 16, 32, 48, 64, 80, 96]);
    assert_eq!(CHUNK_SAMPLES, 16);
}

#[test]
fn look_ahead_is_limited() {
    assert_eq!(DelayLine::new(5000, 0u8).latency_samples(), MAX_DELAY);
    let mut none = DelayLine::new(0, 0u8);
    assert_eq!(none.latency_samples(), 0);
    assert_eq!(none.push(7), 7);
}

#[test]
fn settings_are_made_usable() {
    let mut config = DrcConfig::pipeline();
    assert_eq!(config.sanitize(s(0.064)), config);
    config.compressor_ratio = s(f32::NAN);
    config.gate_close_threshold_db = s(-10.0);
    config.predelay_s = s(1.0);
    config.release_zone2 = s(0.01);
    config.wet = s(-0.5);
    let safe = config.sanitize(s(0.064));
    assert_eq!(safe.compressor_ratio, s(8.0));
    assert_eq!(safe.gate_close_threshold_db, s(-48.0));
    assert_eq!(safe.predelay_s, s(0.064));
    assert_eq!(safe.release_zone2, safe.release_zone1);
    assert_eq!(safe.wet, s(0.0));
    assert_eq!(safe.sanitize(s(0.064)), safe);
}

#[test]
fn settings_hold_the_documented_values() {
    let config = DrcConfig::pipeline();
    assert_eq!(config.gate_open_threshold_db, s(-48.0));
    assert_eq!(config.gate_close_threshold_db, s(-54.0));
    assert_eq!(config.gate_hold_ms, s(10.0));
    assert_eq!(config.pregain_db, s(5.0));
    assert_eq!(config.compressor_threshold_db, s(-20.0));
    assert_eq!(config.compressor_knee_db, s(25.0));
    assert_eq!(config.compressor_ratio, s(8.0));
    assert_eq!(config.predelay_s, s(0.002));
    assert_eq!(config.release_zone1, s(0.09));
    assert_eq!(config.release_zone4, s(0.98));
    assert_eq!(config.limiter_ceiling_dbfs, s(-1.0));
    assert_eq!(config.limiter_release_s, s(0.05));
}
