use flexasio_core::codec::{decimal_to_text, decode, encode, save_text, DecodeError};
use flexasio_core::config::{normalize_config, normalize_decimal, Configuration, StreamSettings};
use flexasio_core::decimal::Decimal;
use flexasio_core::scan::{classify_token, read_line, split_text, Line, Scalar};

fn dec(m: i128, s: u32) -> Decimal {
    Decimal::new(m, s).unwrap()
}

fn stream(device: &str, latency: Decimal, channels: u8) -> StreamSettings {
    StreamSettings {
        device: Some(device.to_string()),
        suggested_latency_seconds: Some(latency),
        wasapi_exclusive_mode: None,
        wasapi_auto_convert: None,
        channels: Some(channels),
    }
}

fn sample() -> Configuration {
    let mut input = stream("Microphone (USB Audio)", dec(1, 1), 2);
    input.wasapi_exclusive_mode = Some(false);
    let mut output = stream("Speakers (USB Audio)", dec(1, 1), 2);
    output.wasapi_auto_convert = Some(true);
    Configuration {
        backend: Some("WASAPI".to_string()),
        buffer_size_samples: Some(512),
        input: Some(input),
        output: Some(output),
    }
}

const SAMPLE_TEXT: &str = "backend = \"WASAPI\"\nbufferSizeSamples = 512\n\n[input]\ndevice = \"Microphone (USB Audio)\"\nsuggestedLatencySeconds = 0.1\nwasapiExclusiveMode = false\nchannels = 2\n\n[output]\ndevice = \"Speakers (USB Audio)\"\nsuggestedLatencySeconds = 0.1\nwasapiAutoConvert = true\nchannels = 2";

fn text(v: Vec<char>) -> String {
    v.into_iter().collect()
}

#[test]
fn encode_writes_canonical_text() {
    assert_eq!(encode(&sample()), SAMPLE_TEXT);
}

#[test]
fn decode_reads_canonical_text() {
    assert_eq!(decode(SAMPLE_TEXT), Ok(sample()));
}

#[test]
fn round_half_even_to_one_digit() {
    let r = |m: i128, s: u32| normalize_decimal(Some(dec(m, s))).unwrap();
    assert_eq!(r(5, 2), dec(0, 1));
    assert_eq!(r(15, 2), dec(2, 1));
    assert_eq!(r(125, 3), dec(1, 1));
    assert_eq!(r(25, 2), dec(2, 1));
    assert_eq!(r(35, 2), dec(4, 1));
    assert_eq!(r(-15, 2), dec(-2, 1));
    assert_eq!(r(1251, 4), dec(1, 1));
    assert_eq!(r(7, 0), dec(7, 0));
    assert_eq!(r(3, 1), dec(3, 1));
    assert_eq!(normalize_decimal(None), None);
}

#[test]
fn round_dp_rounds_through_the_decimal_crate() {
    assert_eq!(dec(123456, 4).round_dp(2), dec(1235, 2));
    assert_eq!(dec(-123449, 4).round_dp(1), dec(-123, 1));
}

#[test]
fn round_trip_after_normalisation() {
    let mut c = sample();
    c.input.as_mut().unwrap().suggested_latency_seconds = Some(dec(1549, 4));
    c.output.as_mut().unwrap().suggested_latency_seconds = Some(dec(-25, 2));
    c.output.as_mut().unwrap().device = Some("Quote \" back\\slash\ttab \u{1} é".to_string());
    let n = normalize_config(c.clone());
    assert_eq!(n.input.as_ref().unwrap().suggested_latency_seconds, Some(dec(2, 1)));
    assert_eq!(n.output.as_ref().unwrap().suggested_latency_seconds, Some(dec(-2, 1)));
    assert_eq!(decode(&encode(&n)), Ok(n.clone()));
    assert_eq!(save_text(c), encode(&n));
    assert_eq!(normalize_config(n.clone()), n);
}

#[test]
fn absent_input_is_omitted_and_stays_absent() {
    let mut c = sample();
    c.input = None;
    let t = encode(&c);
    assert!(!t.contains("[input]"));
    assert_eq!(decode(&t).unwrap().input, None);
}

#[test]
fn empty_configuration_encodes_to_nothing() {
    let c = Configuration { backend: None, buffer_size_samples: None, input: None, output: None };
    assert_eq!(encode(&c), "");
    assert_eq!(decode(""), Ok(c));
}

#[test]
fn empty_table_is_kept() {
    let c = Configuration {
        backend: None,
        buffer_size_samples: None,
        input: None,
        output: Some(StreamSettings {
            device: None,
            suggested_latency_seconds: None,
            wasapi_exclusive_mode: None,
            wasapi_auto_convert: None,
            channels: None,
        }),
    };
    assert_eq!(encode(&c), "[output]");
    assert_eq!(decode("[output]"), Ok(c));
}

#[test]
fn wrong_type_for_buffer_size_fails_the_whole_read() {
    assert_eq!(decode("bufferSizeSamples = \"not a number\""), Err(DecodeError::Schema(1)));
    assert_eq!(decode("backend = \"MME\"\nbufferSizeSamples = -1"), Err(DecodeError::Schema(2)));
    assert_eq!(decode("bufferSizeSamples = 4294967296"), Err(DecodeError::Schema(1)));
    assert_eq!(decode("[input]\nchannels = 256"), Err(DecodeError::Schema(2)));
    assert_eq!(decode("[output]\nwasapiAutoConvert = 1"), Err(DecodeError::Schema(2)));
}

#[test]
fn unreadable_latency_is_left_absent() {
    let c = decode("[input]\nsuggestedLatencySeconds = \"fast\"\nchannels = 1").unwrap();
    let i = c.input.unwrap();
    assert_eq!(i.suggested_latency_seconds, None);
    assert_eq!(i.channels, Some(1));
    let c = decode("[input]\nsuggestedLatencySeconds = 1e-3").unwrap();
    assert_eq!(c.input.unwrap().suggested_latency_seconds, None);
    let c = decode("[input]\nsuggestedLatencySeconds = 2").unwrap();
    assert_eq!(c.input.unwrap().suggested_latency_seconds, Some(dec(2, 0)));
    let c = decode("[input]\nsuggestedLatencySeconds = 0.125").unwrap();
    assert_eq!(c.input.unwrap().suggested_latency_seconds, Some(dec(125, 3)));
}

#[test]
fn malformed_lines_are_syntax_errors() {
    assert_eq!(decode("backend = \"MME"), Err(DecodeError::Syntax(1)));
    assert_eq!(decode("# comment\nbackend"), Err(DecodeError::Syntax(2)));
    assert_eq!(decode("[input"), Err(DecodeError::Syntax(1)));
    assert_eq!(decode("backend = \"MME\" trailing"), Err(DecodeError::Syntax(1)));
}

#[test]
fn comments_blank_lines_and_unknown_keys_are_accepted() {
    let t = "# settings\r\n  backend = \"MME\"   # chosen\r\n\r\nunknown = 3\n[extra]\nbackend = \"WASAPI\"\n[ input ]\n channels=4";
    let c = decode(t).unwrap();
    assert_eq!(c.backend, Some("MME".to_string()));
    assert_eq!(c.input.unwrap().channels, Some(4));
}

#[test]
fn decimal_text_forms() {
    assert_eq!(text(decimal_to_text(dec(-5, 3))), "-0.005");
    assert_eq!(text(decimal_to_text(dec(1234, 2))), "12.34");
    assert_eq!(text(decimal_to_text(dec(0, 1))), "0.0");
    assert_eq!(text(decimal_to_text(dec(42, 0))), "42");
}

#[test]
fn decimal_range_is_checked() {
    assert!(Decimal::new(79228162514264337593543950335, 28).is_some());
    assert!(Decimal::new(79228162514264337593543950336, 0).is_none());
    assert!(Decimal::new(1, 29).is_none());
}

#[test]
fn lines_and_values_are_read() {
    let chars = |s: &str| -> Vec<char> { s.chars().collect() };
    let lines = split_text(&chars("a\n\nb"));
    assert_eq!(lines, vec![chars("a"), chars(""), chars("b")]);
    assert!(matches!(classify_token(&chars("-12")), Scalar::Int(-12)));
    assert!(matches!(classify_token(&chars("+0.50")), Scalar::Dec(50, 2)));
    assert!(matches!(classify_token(&chars("true")), Scalar::Bool(true)));
    assert!(matches!(classify_token(&chars("1.")), Scalar::Other));
    assert!(matches!(classify_token(&chars("inf")), Scalar::Other));
    match read_line(&chars("  device = \"A\\u0041\\n\"  # note")) {
        Line::Pair(k, Scalar::Str(v)) => {
            assert_eq!(k, chars("device"));
            assert_eq!(v, chars("AA\n"));
        }
        _ => panic!("expected a pair"),
    }
    assert!(matches!(read_line(&chars("[output] # speakers")), Line::Header(_)));
    assert!(matches!(read_line(&chars("   ")), Line::Blank));
    assert!(matches!(read_line(&chars("= 1")), Line::Bad));
}

#[test]
fn literal_strings_are_read_verbatim() {
    let c = decode("backend = 'WDM-KS'\n[input]\ndevice = 'Line \\ In \"2\"'").unwrap();
    assert_eq!(c.backend, Some("WDM-KS".to_string()));
    assert_eq!(c.input.unwrap().device, Some("Line \\ In \"2\"".to_string()));
    assert_eq!(decode("backend = 'open"), Err(DecodeError::Syntax(1)));
}
