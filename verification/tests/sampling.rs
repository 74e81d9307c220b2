use tracemalloc::sampling::{SamplingBytes, SamplingRate, SamplingState};
use tracemalloc::{TracerConfig, SAMPLING_RATE_ONE};

#[test]
fn configuration_decides_how_to_sample() {
    let everything = SamplingState::new(&TracerConfig::default());
    assert_eq!(everything.rate, SamplingRate::All);
    assert!(!everything.is_enabled());

    let nothing = SamplingState::new(&TracerConfig {
        sampling_rate: 0,
        ..TracerConfig::default()
    });
    assert_eq!(nothing.rate, SamplingRate::Nothing);
    assert!(nothing.is_enabled());

    let some = SamplingState::new(&TracerConfig {
        sampling_rate: 3,
        ..TracerConfig::default()
    });
    assert_eq!(some.rate, SamplingRate::Fraction(3));
    assert!(some.is_enabled());

    let bytes = SamplingState::new(&TracerConfig {
        sampling_rate: 0,
        sampling_bytes: Some(64),
        ..TracerConfig::default()
    });
    assert_eq!(bytes.bytes, Some(SamplingBytes::new(64)));
    assert_eq!(bytes.rate, SamplingRate::All);
    assert!(bytes.is_enabled());

    let no_interval = SamplingState::new(&TracerConfig {
        sampling_rate: SAMPLING_RATE_ONE + 1,
        sampling_bytes: Some(0),
        ..TracerConfig::default()
    });
    assert_eq!(no_interval.bytes, None);
    assert_eq!(no_interval.rate, SamplingRate::All);
}

#[test]
fn bytes_are_sampled_once_per_interval() {
    let mut bytes = SamplingBytes::new(100);
    let sampled: Vec<bool> = [30usize, 30, 30, 30, 0, 70, 5, 5, 100]
        .iter()
        .map(|size| bytes.should_sample(*size))
        .collect();
    assert_eq!(
        sampled,
        vec![false, false, false, true, false, false, false, true, true]
    );
    assert_eq!(bytes.total_observed, 300);
    assert_eq!(bytes.next_sample, 400);
}

#[test]
fn an_allocation_larger_than_the_interval_is_one_sample() {
    let mut bytes = SamplingBytes::new(10);
    assert!(bytes.should_sample(35));
    assert!(bytes.should_sample(1));
    assert!(bytes.should_sample(1));
    assert!(!bytes.should_sample(1));
}

#[test]
fn chance_is_compared_with_the_rate() {
    let mut half = SamplingState::new(&TracerConfig {
        sampling_rate: SAMPLING_RATE_ONE / 2,
        ..TracerConfig::default()
    });
    assert!(half.should_sample_at(8, 0));
    assert!(half.should_sample_at(8, u64::MAX / 2));
    assert!(!half.should_sample_at(8, u64::MAX / 2 + 1));
    assert!(!half.should_sample_at(8, u64::MAX));
}

#[test]
fn rates_at_the_ends_need_no_chance() {
    let mut everything = SamplingState::new(&TracerConfig::default());
    let mut nothing = SamplingState::new(&TracerConfig {
        sampling_rate: 0,
        ..TracerConfig::default()
    });
    for number in [0, 1, u64::MAX / 2, u64::MAX] {
        assert!(everything.should_sample_at(8, number));
        assert!(!nothing.should_sample_at(8, number));
    }
    assert!(everything.should_sample(8));
    assert!(!nothing.should_sample(8));
}
