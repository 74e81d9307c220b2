use tracemalloc::{
    parse_exporters, parse_sampling, ArgumentError, ExportersArgument, SamplingArgument,
    SamplingOptions, StartOptions, SAMPLING_RATE_ONE,
};

fn options(sampling: SamplingOptions) -> StartOptions {
    StartOptions {
        nframe: None,
        capture_native: None,
        sampling,
        ring_buffer_bytes: None,
    }
}

#[test]
fn sampling_argument_may_have_several_forms() {
    assert_eq!(
        parse_sampling(SamplingArgument::Absent),
        Ok(SamplingOptions { rate: None, bytes: None })
    );
    assert_eq!(
        parse_sampling(SamplingArgument::Mapping { rate: Some(3), bytes: Some(4) }),
        Ok(SamplingOptions { rate: Some(3), bytes: Some(4) })
    );
    assert_eq!(
        parse_sampling(SamplingArgument::Probability(5)),
        Ok(SamplingOptions { rate: Some(5), bytes: None })
    );
    assert_eq!(
        parse_sampling(SamplingArgument::Interval(6)),
        Ok(SamplingOptions { rate: None, bytes: Some(6) })
    );
    let error = parse_sampling(SamplingArgument::Other).unwrap_err();
    assert_eq!(error, ArgumentError::Sampling);
    assert_eq!(
        error.message(),
        "sampling must be a float probability, integer byte interval, or mapping with 'rate'/'bytes'"
    );
}

#[test]
fn exporters_argument_may_have_several_forms() {
    assert_eq!(parse_exporters(ExportersArgument::Absent), Ok(vec![]));
    assert_eq!(
        parse_exporters(ExportersArgument::Text("json".to_string())),
        Ok(vec!["json".to_string()])
    );
    assert_eq!(
        parse_exporters(ExportersArgument::Items(vec![
            Some("json".to_string()),
            Some("pprof".to_string()),
        ])),
        Ok(vec!["json".to_string(), "pprof".to_string()])
    );
    assert_eq!(parse_exporters(ExportersArgument::Items(vec![])), Ok(vec![]));
    let item = parse_exporters(ExportersArgument::Items(vec![Some("json".to_string()), None]))
        .unwrap_err();
    assert_eq!(item, ArgumentError::ExporterItem);
    assert_eq!(item.message(), "exporters must be strings or iterables of strings");
    let other = parse_exporters(ExportersArgument::Other).unwrap_err();
    assert_eq!(other, ArgumentError::Exporters);
    assert_eq!(other.message(), "exporters must be a string or iterable of strings");
}

#[test]
fn options_that_are_not_given_have_defaults() {
    let config = *options(SamplingOptions::default()).builder().finish().config();
    assert_eq!(config.max_stack_depth, 1);
    assert!(!config.capture_native);
    assert!(config.start_enabled);
    assert_eq!(config.sampling_rate, SAMPLING_RATE_ONE);
    assert_eq!(config.sampling_bytes, None);
    assert_eq!(config.ring_buffer_bytes, 262_144);
}

#[test]
fn options_that_are_given_are_used() {
    let config = *StartOptions {
        nframe: Some(8),
        capture_native: Some(true),
        sampling: SamplingOptions { rate: Some(11), bytes: None },
        ring_buffer_bytes: Some(0),
    }
    .builder()
    .finish()
    .config();
    assert_eq!(config.max_stack_depth, 8);
    assert!(config.capture_native);
    assert_eq!(config.sampling_rate, 11);
    assert_eq!(config.ring_buffer_bytes, 1);
}

#[test]
fn an_interval_takes_precedence_over_a_rate() {
    let sampling = SamplingOptions { rate: Some(0), bytes: Some(64) };
    let config = *options(sampling).builder().finish().config();
    assert_eq!(config.sampling_bytes, Some(64));
    assert_eq!(config.sampling_rate, SAMPLING_RATE_ONE);
}
