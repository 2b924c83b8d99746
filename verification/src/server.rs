//! Start-up decisions of the server and the JSON lines it logs about its
//! own life.

use vstd::prelude::*;

use crate::text::{decimal, push_decimal};

verus! {

/// The number of worker threads: the configured number, else two.
pub fn worker_count(configured: Option<usize>) -> (n: usize)
    ensures
        n == match configured {
            Some(w) => w,
            None => 2,
        },
{
    match configured {
        Some(w) => w,
        None => 2,
    }
}

/// The run identifier: the one the environment gives, else `kiabluejay`.
pub fn run_id_or_default(from_env: Option<String>) -> (id: String)
    ensures
        id@ == match from_env {
            Some(v) => v@,
            None => "kiabluejay"@,
        },
{
    match from_env {
        Some(v) => v,
        None => String::from_str("kiabluejay"),
    }
}

/// The address a listener binds: every interface, at `port`.
pub open spec fn listen_address_text(port: u16) -> Seq<char> {
    "0.0.0.0:"@ + decimal(port as nat)
}

/// The address a listener binds (see `listen_address_text`).
pub fn listen_address(port: u16) -> (a: String)
    ensures
        a@ == listen_address_text(port),
{
    let mut a = String::from_str("0.0.0.0:");
    push_decimal(&mut a, port as u64);
    a
}

/// The headers set on every response, which the configuration cannot change.
pub open spec fn security_headers_list() -> Seq<(Seq<char>, Seq<char>)> {
    seq![
        ("x-content-type-options"@, "nosniff"@),
        ("x-frame-options"@, "SAMEORIGIN"@),
        ("x-xss-protection"@, "1; mode=block"@),
    ]
}

/// The headers set on every response (see `security_headers_list`).
pub fn security_headers() -> (h: Vec<(String, String)>)
    ensures
        h@.map_values(|p: (String, String)| (p.0@, p.1@)) == security_headers_list(),
{
    let mut h: Vec<(String, String)> = Vec::new();
    h.push((String::from_str("x-content-type-options"), String::from_str("nosniff")));
    h.push((String::from_str("x-frame-options"), String::from_str("SAMEORIGIN")));
    h.push((String::from_str("x-xss-protection"), String::from_str("1; mode=block")));
    assert(h@.map_values(|p: (String, String)| (p.0@, p.1@)) =~= security_headers_list());
    h
}

/// The line logged when the server starts.
pub open spec fn startup_text(time: Seq<char>, run_id: Seq<char>) -> Seq<char> {
    "{\"event\":\"initialized version 0.1.6\",\"time\":\""@ + time + "\",\"run_id\":\""@ + run_id
        + "\"}"@
}

/// The line logged when the server starts (see `startup_text`).
pub fn startup_message(time: &str, run_id: &str) -> (m: String)
    ensures
        m@ == startup_text(time@, run_id@),
{
    let mut m = String::from_str("{\"event\":\"initialized version 0.1.6\",\"time\":\"");
    m.append(time);
    m.append("\",\"run_id\":\"");
    m.append(run_id);
    m.append("\"}");
    m
}

/// The line logged once the configuration is read.
pub open spec fn configuration_text(
    workers: nat,
    listeners: nat,
    time: Seq<char>,
    run_id: Seq<char>,
) -> Seq<char> {
    "{\"event\":\"configuration_loaded\",\"workers\":\""@ + decimal(workers) + "\",\"listeners\":\""@
        + decimal(listeners) + "\",\"timestamp\":\""@ + time + "\",\"run_id\":\""@ + run_id + "\"}"@
}

/// The line logged once the configuration is read (see `configuration_text`).
pub fn configuration_message(workers: usize, listeners: usize, time: &str, run_id: &str) -> (m: String)
    ensures
        m@ == configuration_text(workers as nat, listeners as nat, time@, run_id@),
{
    let mut m = String::from_str("{\"event\":\"configuration_loaded\",\"workers\":\"");
    push_decimal(&mut m, workers as u64);
    m.append("\",\"listeners\":\"");
    push_decimal(&mut m, listeners as u64);
    m.append("\",\"timestamp\":\"");
    m.append(time);
    m.append("\",\"run_id\":\"");
    m.append(run_id);
    m.append("\"}");
    m
}

/// The line logged when a listener is bound, naming HTTPS or HTTP.
pub open spec fn listening_text(tls: bool, addr: Seq<char>, time: Seq<char>, run_id: Seq<char>) -> Seq<char> {
    let event = if tls {
        "server_listening_https"@
    } else {
        "server_listening_http"@
    };
    "{\"event\":\""@ + event + "\",\"addr\":\""@ + addr + "\",\"time\":\""@ + time + "\",\"run_id\":\""@
        + run_id + "\"}"@
}

/// The line logged when a listener is bound (see `listening_text`).
pub fn listening_message(tls: bool, addr: &str, time: &str, run_id: &str) -> (m: String)
    ensures
        m@ == listening_text(tls, addr@, time@, run_id@),
{
    let mut m = String::from_str("{\"event\":\"");
    if tls {
        m.append("server_listening_https");
    } else {
        m.append("server_listening_http");
    }
    m.append("\",\"addr\":\"");
    m.append(addr);
    m.append("\",\"time\":\"");
    m.append(time);
    m.append("\",\"run_id\":\"");
    m.append(run_id);
    m.append("\"}");
    m
}

/// The line logged when the server has stopped.
pub open spec fn shutdown_text(time: Seq<char>, run_id: Seq<char>) -> Seq<char> {
    "{\"event\":\"server_shutdown_arrived\",\"time\":\""@ + time + "\",\"run_id\":\""@ + run_id + "\"}"@
}

/// The line logged when the server has stopped (see `shutdown_text`).
pub fn shutdown_message(time: &str, run_id: &str) -> (m: String)
    ensures
        m@ == shutdown_text(time@, run_id@),
{
    let mut m = String::from_str("{\"event\":\"server_shutdown_arrived\",\"time\":\"");
    m.append(time);
    m.append("\",\"run_id\":\"");
    m.append(run_id);
    m.append("\"}");
    m
}

} // verus!
