use kiabluejay::json_events::{
    format_record, level_passes, max_level, panic_report, render_record, static_max_level, timestamp,
    Level, LevelFilter,
};

fn pairs(items: &[(&str, &str)]) -> Vec<(String, String)> {
    items.iter().map(|(k, v)| (k.to_string(), v.to_string())).collect()
}

#[test]
fn level_names_are_upper_case() {
    assert_eq!(Level::Error.as_str(), "ERROR");
    assert_eq!(Level::Warn.as_str(), "WARN");
    assert_eq!(Level::Info.as_str(), "INFO");
    assert_eq!(Level::Debug.as_str(), "DEBUG");
    assert_eq!(Level::Trace.as_str(), "TRACE");
}

#[test]
fn level_must_pass_both_bounds() {
    assert!(level_passes(Level::Info, LevelFilter::Trace, LevelFilter::Info));
    assert!(!level_passes(Level::Debug, LevelFilter::Trace, LevelFilter::Info));
    assert!(!level_passes(Level::Info, LevelFilter::Warn, LevelFilter::Trace));
    assert!(level_passes(Level::Error, LevelFilter::Error, LevelFilter::Error));
    assert!(!level_passes(Level::Error, LevelFilter::Off, LevelFilter::Trace));
}

#[test]
fn filter_monotone_on_examples() {
    // A record passing Warn passes every more verbose filter.
    for f in [LevelFilter::Warn, LevelFilter::Info, LevelFilter::Debug, LevelFilter::Trace] {
        assert!(level_passes(Level::Warn, LevelFilter::Trace, f));
    }
    for l in [Level::Error, Level::Warn, Level::Info, Level::Debug, Level::Trace] {
        assert!(!level_passes(l, LevelFilter::Trace, LevelFilter::Off));
        assert!(level_passes(l, LevelFilter::Trace, LevelFilter::Trace));
    }
}

#[test]
fn facade_levels_follow_the_logger() {
    log::set_max_level(log::LevelFilter::Warn);
    assert_eq!(max_level(), LevelFilter::Warn);
    log::set_max_level(log::LevelFilter::Debug);
    assert_eq!(max_level(), LevelFilter::Debug);
    let expected = match log::STATIC_MAX_LEVEL {
        log::LevelFilter::Off => LevelFilter::Off,
        log::LevelFilter::Error => LevelFilter::Error,
        log::LevelFilter::Warn => LevelFilter::Warn,
        log::LevelFilter::Info => LevelFilter::Info,
        log::LevelFilter::Debug => LevelFilter::Debug,
        log::LevelFilter::Trace => LevelFilter::Trace,
    };
    assert_eq!(static_max_level(), expected);
}

#[test]
fn plain_message_becomes_event_string() {
    let line = format_record("T", Level::Info, "hello world", &[]);
    assert_eq!(line, "{\"time\":\"T\",\"level\":\"INFO\",\"event\":\"hello world\"}\n");
}

#[test]
fn plain_message_quotes_are_softened() {
    let line = format_record("T", Level::Warn, "say \"hi\" now", &[]);
    assert_eq!(line, "{\"time\":\"T\",\"level\":\"WARN\",\"event\":\"say 'hi' now\"}\n");
}

#[test]
fn quoted_message_is_spliced_as_members() {
    let line = format_record("T", Level::Info, "\"a\":1,\"b\":\"x\"", &[]);
    assert_eq!(line, "{\"time\":\"T\",\"level\":\"INFO\",\"a\":1,\"b\":\"x\"}\n");
}

#[test]
fn object_message_becomes_event_value() {
    let line = format_record("T", Level::Error, "{\"k\":\"v\"}", &[]);
    assert_eq!(line, "{\"time\":\"T\",\"level\":\"ERROR\",\"event\": {\"k\":\"v\"}}\n");
}

#[test]
fn empty_message_is_an_empty_event() {
    let line = format_record("T", Level::Debug, "", &[]);
    assert_eq!(line, "{\"time\":\"T\",\"level\":\"DEBUG\",\"event\":\"\"}\n");
}

#[test]
fn fields_follow_the_message_in_order() {
    let line = format_record("T", Level::Trace, "m", &pairs(&[("thread", "main"), ("n", "3")]));
    assert_eq!(line, "{\"time\":\"T\",\"level\":\"TRACE\",\"event\":\"m\",\"thread\":main,\"n\":3}\n");
}

#[test]
fn rendered_record_carries_a_timestamp() {
    let line = render_record(Level::Info, "x", &[]);
    let rest = line.strip_prefix("{\"time\":\"").expect("time first");
    let end = rest.find('"').expect("time closed");
    let time = &rest[..end];
    assert!(chrono::DateTime::parse_from_rfc3339(time).is_ok());
    assert_eq!(&rest[end..], "\",\"level\":\"INFO\",\"event\":\"x\"}\n");
}

#[test]
fn timestamp_is_rfc3339() {
    let t = timestamp();
    assert!(!t.is_empty());
    assert!(t.chars().all(|c| c.is_ascii_digit() || "-:T.+".contains(c)));
    assert!(t.ends_with("+00:00"));
    let b = t.as_bytes();
    assert_eq!((b[4], b[7], b[10], b[13], b[16]), (b'-', b'-', b'T', b':', b':'));
    let frac = t.len() - 25;
    assert!(frac == 0 || frac == 4 || frac == 7 || frac == 10);
    assert!(chrono::DateTime::parse_from_rfc3339(&t).is_ok());
}

#[test]
fn panic_report_with_location() {
    let r = panic_report(Some("worker-1"), Some("boom"), Some(("src/main.rs", 42)));
    assert_eq!(r.message, "panicked at 'boom'");
    assert_eq!(r.fields, pairs(&[("thread", "worker-1"), ("location", "src/main.rs:42")]));
}

#[test]
fn panic_report_without_name_payload_or_location() {
    let r = panic_report(None, None, None);
    assert_eq!(r.message, "panicked at 'Box<Any>'");
    assert_eq!(r.fields, pairs(&[("thread", "unnamed")]));
}

#[test]
fn panic_report_line_zero_and_large() {
    let r = panic_report(Some("t"), Some("x"), Some(("f.rs", 0)));
    assert_eq!(r.fields[1].1, "f.rs:0");
    let r = panic_report(Some("t"), Some("x"), Some(("f.rs", u32::MAX)));
    assert_eq!(r.fields[1].1, "f.rs:4294967295");
}

#[test]
fn record_is_one_line() {
    let line = format_record(
        "2024-01-01T00:00:00+00:00",
        Level::Info,
        "{\"a\":1}",
        &pairs(&[("k", "v")]),
    );
    assert!(line.ends_with('\n'));
    assert_eq!(line.matches('\n').count(), 1);
}
