use kiabluejay::server::{
    configuration_message, listen_address, listening_message, run_id_or_default, security_headers,
    shutdown_message, startup_message, worker_count,
};
use kiabluejay::text::{chars_of, push_decimal, string_of};

#[test]
fn workers_default_to_two() {
    assert_eq!(worker_count(None), 2);
    assert_eq!(worker_count(Some(8)), 8);
}

#[test]
fn run_id_default() {
    assert_eq!(run_id_or_default(None), "kiabluejay");
    assert_eq!(run_id_or_default(Some("r1".to_string())), "r1");
}

#[test]
fn listen_addresses() {
    assert_eq!(listen_address(443), "0.0.0.0:443");
    assert_eq!(listen_address(0), "0.0.0.0:0");
    assert_eq!(listen_address(65535), "0.0.0.0:65535");
}

#[test]
fn required_headers() {
    let h = security_headers();
    let expected: Vec<(String, String)> = vec![
        ("x-content-type-options".to_string(), "nosniff".to_string()),
        ("x-frame-options".to_string(), "SAMEORIGIN".to_string()),
        ("x-xss-protection".to_string(), "1; mode=block".to_string()),
    ];
    assert_eq!(h, expected);
}

#[test]
fn lifecycle_messages() {
    assert_eq!(
        startup_message("T", "R"),
        "{\"event\":\"initialized version 0.1.6\",\"time\":\"T\",\"run_id\":\"R\"}"
    );
    assert_eq!(
        configuration_message(2, 3, "T", "R"),
        "{\"event\":\"configuration_loaded\",\"workers\":\"2\",\"listeners\":\"3\",\"timestamp\":\"T\",\"run_id\":\"R\"}"
    );
    assert_eq!(
        listening_message(true, "0.0.0.0:443", "T", "R"),
        "{\"event\":\"server_listening_https\",\"addr\":\"0.0.0.0:443\",\"time\":\"T\",\"run_id\":\"R\"}"
    );
    assert_eq!(
        listening_message(false, "0.0.0.0:80", "T", "R"),
        "{\"event\":\"server_listening_http\",\"addr\":\"0.0.0.0:80\",\"time\":\"T\",\"run_id\":\"R\"}"
    );
    assert_eq!(
        shutdown_message("T", "R"),
        "{\"event\":\"server_shutdown_arrived\",\"time\":\"T\",\"run_id\":\"R\"}"
    );
}

#[test]
fn decimal_digits() {
    for n in [0u64, 7, 10, 99, 100, 12345, u64::MAX] {
        let mut s = String::from("n=");
        push_decimal(&mut s, n);
        assert_eq!(s, format!("n={}", n));
    }
}

#[test]
fn chars_round_trip() {
    let s = "aé☃𝄞";
    let cs = chars_of(s);
    assert_eq!(cs, s.chars().collect::<Vec<_>>());
    assert_eq!(string_of(&cs), s);
}
