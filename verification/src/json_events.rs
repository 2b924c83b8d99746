//! Log levels and the one-line JSON rendering of a log record.

use vstd::prelude::*;

use crate::text::{chars_of, decimal, push_char, push_decimal};

verus! {

/// The verbosity of a log record, from most to least severe.
#[derive(Clone, Copy, Debug, PartialEq, Eq, Structural)]
pub enum Level {
    Error,
    Warn,
    Info,
    Debug,
    Trace,
}

/// A bound on the verbosity of the records that are kept; `Off` keeps none.
#[derive(Clone, Copy, Debug, PartialEq, Eq, Structural)]
pub enum LevelFilter {
    Off,
    Error,
    Warn,
    Info,
    Debug,
    Trace,
}

/// The position of a level in the order of verbosity (`Error` is 1).
pub open spec fn level_rank(l: Level) -> int {
    match l {
        Level::Error => 1,
        Level::Warn => 2,
        Level::Info => 3,
        Level::Debug => 4,
        Level::Trace => 5,
    }
}

/// The position of a filter in the order of verbosity (`Off` is 0).
pub open spec fn filter_rank(f: LevelFilter) -> int {
    match f {
        LevelFilter::Off => 0,
        LevelFilter::Error => 1,
        LevelFilter::Warn => 2,
        LevelFilter::Info => 3,
        LevelFilter::Debug => 4,
        LevelFilter::Trace => 5,
    }
}

/// A record of level `l` passes filter `f` when it is no more verbose than `f`.
pub open spec fn passes(l: Level, f: LevelFilter) -> bool {
    level_rank(l) <= filter_rank(f)
}

/// The upper-case name under which a level is printed.
pub open spec fn level_name(l: Level) -> Seq<char> {
    match l {
        Level::Error => "ERROR"@,
        Level::Warn => "WARN"@,
        Level::Info => "INFO"@,
        Level::Debug => "DEBUG"@,
        Level::Trace => "TRACE"@,
    }
}

impl Level {
    /// The upper-case name of the level, as it appears in a rendered record.
    pub fn as_str(&self) -> (s: &'static str)
        ensures
            s@ == level_name(*self),
    {
        match self {
            Level::Error => "ERROR",
            Level::Warn => "WARN",
            Level::Info => "INFO",
            Level::Debug => "DEBUG",
            Level::Trace => "TRACE",
        }
    }
}

/// The logging facade's current maximum level (`log::max_level`), read from
/// its global setting. Nothing is claimed of the value: it is whatever the
/// running program last set.
#[verifier::external_body]
fn facade_max_level() -> (f: LevelFilter) {
    match log::max_level() {
        log::LevelFilter::Off => LevelFilter::Off,
        log::LevelFilter::Error => LevelFilter::Error,
        log::LevelFilter::Warn => LevelFilter::Warn,
        log::LevelFilter::Info => LevelFilter::Info,
        log::LevelFilter::Debug => LevelFilter::Debug,
        log::LevelFilter::Trace => LevelFilter::Trace,
    }
}

/// The logging facade's compile-time maximum level (`log::STATIC_MAX_LEVEL`),
/// which the facade's build features fix. Nothing is claimed of the value.
#[verifier::external_body]
fn facade_static_max_level() -> (f: LevelFilter) {
    match log::STATIC_MAX_LEVEL {
        log::LevelFilter::Off => LevelFilter::Off,
        log::LevelFilter::Error => LevelFilter::Error,
        log::LevelFilter::Warn => LevelFilter::Warn,
        log::LevelFilter::Info => LevelFilter::Info,
        log::LevelFilter::Debug => LevelFilter::Debug,
        log::LevelFilter::Trace => LevelFilter::Trace,
    }
}

/// The current maximum level of the logging facade.
pub fn max_level() -> (f: LevelFilter) {
    facade_max_level()
}

/// The maximum level that the logging facade was built to keep.
pub fn static_max_level() -> (f: LevelFilter) {
    facade_static_max_level()
}

/// Whether a record of level `level` is emitted: it must pass both the
/// build-time bound and the current bound.
pub fn level_passes(level: Level, static_max: LevelFilter, max: LevelFilter) -> (b: bool)
    ensures
        b == (passes(level, static_max) && passes(level, max)),
{
    let r: u8 = match level {
        Level::Error => 1,
        Level::Warn => 2,
        Level::Info => 3,
        Level::Debug => 4,
        Level::Trace => 5,
    };
    r <= filter_number(static_max) && r <= filter_number(max)
}

fn filter_number(f: LevelFilter) -> (n: u8)
    ensures
        n == filter_rank(f),
{
    match f {
        LevelFilter::Off => 0,
        LevelFilter::Error => 1,
        LevelFilter::Warn => 2,
        LevelFilter::Info => 3,
        LevelFilter::Debug => 4,
        LevelFilter::Trace => 5,
    }
}

/// A message with its double quotes turned into single quotes.
pub open spec fn quotes_softened(msg: Seq<char>) -> Seq<char> {
    msg.map_values(|c: char| if c == '"' { '\'' } else { c })
}

/// How the message of a record enters the JSON line: a message that starts
/// with a double quote is spliced in as JSON members; one that starts with
/// `{` becomes the value of `event`; any other becomes the string value of
/// `event`, with its double quotes softened to single quotes.
pub open spec fn message_part(msg: Seq<char>) -> Seq<char> {
    if msg.len() > 0 && msg[0] == '"' {
        ","@ + msg
    } else if msg.len() > 0 && msg[0] == '{' {
        ",\"event\": "@ + msg
    } else {
        ",\"event\":\""@ + quotes_softened(msg) + "\""@
    }
}

/// One extra field of a record: `,"key":value`.
pub open spec fn field_part(key: Seq<char>, value: Seq<char>) -> Seq<char> {
    ",\""@ + key + "\":"@ + value
}

/// The extra fields of a record, in order.
pub open spec fn fields_part(fields: Seq<(Seq<char>, Seq<char>)>) -> Seq<char>
    decreases fields.len(),
{
    if fields.len() == 0 {
        Seq::empty()
    } else {
        fields_part(fields.drop_last()) + field_part(fields.last().0, fields.last().1)
    }
}

/// The views of a list of key/value pairs.
pub open spec fn fields_view(fields: Seq<(String, String)>) -> Seq<(Seq<char>, Seq<char>)> {
    fields.map_values(|p: (String, String)| (p.0@, p.1@))
}

/// The full rendered line of a record: time, level, message, extra fields,
/// closing brace and newline.
pub open spec fn record_line(
    time: Seq<char>,
    level: Level,
    msg: Seq<char>,
    fields: Seq<(Seq<char>, Seq<char>)>,
) -> Seq<char> {
    "{"@ + "\"time\":\""@ + time + "\""@ + ",\"level\":\""@ + level_name(level) + "\""@
        + message_part(msg) + fields_part(fields) + "}\n"@
}

fn append_softened(out: &mut String, msg: &str)
    ensures
        final(out)@ == old(out)@ + quotes_softened(msg@),
{
    let cs = chars_of(msg);
    let mut i: usize = 0;
    while i < cs.len()
        invariant
            cs@ == msg@,
            i <= cs@.len(),
            out@ == old(out)@ + quotes_softened(msg@).take(i as int),
        decreases cs@.len() - i,
    {
        let c = cs[i];
        let d = if c == '"' { '\'' } else { c };
        push_char(out, d);
        assert(quotes_softened(msg@).take(i as int).push(d) =~= quotes_softened(msg@).take(i + 1));
        i = i + 1;
    }
    assert(quotes_softened(msg@).take(cs@.len() as int) =~= quotes_softened(msg@));
}

fn append_message(out: &mut String, msg: &str)
    ensures
        final(out)@ == old(out)@ + message_part(msg@),
{
    let n = msg.unicode_len();
    let first = if n > 0 { Some(msg.get_char(0)) } else { None };
    if first == Some('"') {
        out.append(",");
        out.append(msg);
        assert(old(out)@ + ","@ + msg@ =~= old(out)@ + message_part(msg@));
    } else if first == Some('{') {
        out.append(",\"event\": ");
        out.append(msg);
        assert(old(out)@ + ",\"event\": "@ + msg@ =~= old(out)@ + message_part(msg@));
    } else {
        out.append(",\"event\":\"");
        append_softened(out, msg);
        out.append("\"");
        assert(old(out)@ + ",\"event\":\""@ + quotes_softened(msg@) + "\""@
            =~= old(out)@ + message_part(msg@));
    }
}

fn append_fields(out: &mut String, fields: &[(String, String)])
    ensures
        final(out)@ == old(out)@ + fields_part(fields_view(fields@)),
{
    let mut i: usize = 0;
    while i < fields.len()
        invariant
            i <= fields@.len(),
            out@ == old(out)@ + fields_part(fields_view(fields@).take(i as int)),
        decreases fields@.len() - i,
    {
        let ghost before = out@;
        out.append(",\"");
        out.append(fields[i].0.as_str());
        out.append("\":");
        out.append(fields[i].1.as_str());
        let ghost fv = fields_view(fields@);
        assert(fv.take(i + 1).drop_last() =~= fv.take(i as int));
        assert(fv.take(i + 1).last() == (fields@[i as int].0@, fields@[i as int].1@));
        assert(out@ =~= before + field_part(fields@[i as int].0@, fields@[i as int].1@));
        i = i + 1;
    }
    assert(fields_view(fields@).take(fields@.len() as int) =~= fields_view(fields@));
}

/// Renders a record as one JSON line stamped with `time`.
pub fn format_record(time: &str, level: Level, msg: &str, fields: &[(String, String)]) -> (line: String)
    ensures
        line@ == record_line(time@, level, msg@, fields_view(fields@)),
        msg@.len() == 0 || (msg@[0] != '"' && msg@[0] != '{') ==> line@ == "{"@ + "\"time\":\""@
            + time@ + "\""@ + ",\"level\":\""@ + level_name(level) + "\""@ + ",\"event\":\""@
            + quotes_softened(msg@) + "\""@ + fields_part(fields_view(fields@)) + "}\n"@,
{
    let mut out = String::new();
    out.append("{");
    out.append("\"time\":\"");
    out.append(time);
    out.append("\"");
    out.append(",\"level\":\"");
    out.append(level.as_str());
    out.append("\"");
    append_message(&mut out, msg);
    append_fields(&mut out, fields);
    out.append("}\n");
    out
}


/// A decimal digit.
pub open spec fn is_digit(c: char) -> bool {
    '0' <= c && c <= '9'
}

/// Whether every character of `s` is a decimal digit.
pub open spec fn all_digits(s: Seq<char>) -> bool {
    forall|i: int| 0 <= i < s.len() ==> is_digit(#[trigger] s[i])
}

/// The year of a time stamp: four digits for years 0 to 9999, else a sign
/// followed by at least four digits.
pub open spec fn year_text(y: Seq<char>) -> bool {
    ||| (y.len() == 4 && all_digits(y))
    ||| (y.len() >= 5 && (y[0] == '+' || y[0] == '-') && all_digits(y.drop_first()))
}

/// `-MM-DDTHH:MM:SS`: month, day, hour, minute and second, two digits each.
pub open spec fn date_time_text(m: Seq<char>) -> bool {
    &&& m.len() == 15
    &&& m[0] == '-' && is_digit(m[1]) && is_digit(m[2])
    &&& m[3] == '-' && is_digit(m[4]) && is_digit(m[5])
    &&& m[6] == 'T' && is_digit(m[7]) && is_digit(m[8])
    &&& m[9] == ':' && is_digit(m[10]) && is_digit(m[11])
    &&& m[12] == ':' && is_digit(m[13]) && is_digit(m[14])
}

/// The fraction of a second: absent, or `.` followed by three, six or nine
/// digits.
pub open spec fn fraction_text(f: Seq<char>) -> bool {
    ||| f.len() == 0
    ||| ((f.len() == 4 || f.len() == 7 || f.len() == 10) && f[0] == '.' && all_digits(f.drop_first()))
}

/// The pieces of a UTC time stamp put together, with the offset `+00:00`.
pub open spec fn rfc3339_join(y: Seq<char>, m: Seq<char>, f: Seq<char>) -> Seq<char> {
    y + m + f + "+00:00"@
}

/// A UTC time stamp in the RFC 3339 layout that chrono writes: year,
/// `-MM-DDTHH:MM:SS`, an optional fraction, and the offset `+00:00`.
pub open spec fn rfc3339_text(t: Seq<char>) -> bool {
    exists|y: Seq<char>, m: Seq<char>, f: Seq<char>|
        year_text(y) && date_time_text(m) && fraction_text(f) && t == #[trigger] rfc3339_join(y, m, f)
}

/// The current UTC time in RFC 3339 form: the system clock
/// (`std::time::SystemTime::now`) turned into a `chrono::DateTime<Utc>` by
/// chrono's `From<SystemTime>`, which also takes times before 1970, and
/// written by `to_rfc3339`. Which time it is depends on the clock, so only
/// the layout is claimed, as chrono's `write_rfc3339` writes it: the year
/// (with a sign outside 0..=9999), `-MM-DD`, `THH:MM:SS`, a fraction of
/// three, six or nine digits unless the nanoseconds are zero, and the UTC
/// offset `+00:00`. chrono's conversion still stops the program for a clock
/// reading beyond the years it can represent (hundreds of thousands of
/// years away).
#[verifier::external_body]
fn clock_rfc3339() -> (t: String)
    ensures
        rfc3339_text(t@),
{
    chrono::DateTime::<chrono::Utc>::from(std::time::SystemTime::now()).to_rfc3339()
}

/// The current UTC time in RFC 3339 form (see `rfc3339_text`).
pub fn timestamp() -> (t: String)
    ensures
        rfc3339_text(t@),
{
    clock_rfc3339()
}

/// Renders a record as one JSON line stamped with the current time.
pub fn render_record(level: Level, msg: &str, fields: &[(String, String)]) -> (line: String)
    ensures
        exists|t: Seq<char>|
            rfc3339_text(t) && line@ == #[trigger] record_line(t, level, msg@, fields_view(fields@)),
{
    let time = clock_rfc3339();
    let line = format_record(time.as_str(), level, msg, fields);
    assert(line@ == record_line(time@, level, msg@, fields_view(fields@)));
    line
}

/// A time stamp is made of digits and `- : T . +` only, so it holds no
/// double quote and no line break: it cannot end the JSON string it is put
/// in, nor the line.
pub proof fn lemma_rfc3339_text_is_safe(t: Seq<char>)
    requires
        rfc3339_text(t),
    ensures
        t.len() >= 25,
        single_line(t),
        forall|i: int| 0 <= i < t.len() ==> t[i] != '"',
{
    reveal_strlit("+00:00");
    let (y, m, f) = choose|y: Seq<char>, m: Seq<char>, f: Seq<char>|
        year_text(y) && date_time_text(m) && fraction_text(f) && t == #[trigger] rfc3339_join(y, m, f);
    let o = "+00:00"@;
    assert forall|i: int| 0 <= i < t.len() implies t[i] != '\n' && t[i] != '"' by {
        let a = y.len() as int;
        let b = a + m.len();
        let c = b + f.len();
        if i < a {
            assert(t[i] == y[i]);
            if i > 0 {
                assert(y[i] == y.drop_first()[i - 1]);
            }
        } else if i < b {
            assert(t[i] == m[i - a]);
        } else if i < c {
            assert(t[i] == f[i - b]);
            if i > b {
                assert(f[i - b] == f.drop_first()[i - b - 1]);
            }
        } else {
            assert(t[i] == o[i - c]);
        }
    }
}

/// The view of an optional string.
pub open spec fn opt_view(o: Option<&str>) -> Option<Seq<char>> {
    match o {
        Some(s) => Some(s@),
        None => None,
    }
}

/// The message logged for a panic whose payload is `payload` (text
/// payloads only; any other payload is named `Box<Any>`).
pub open spec fn panic_message(payload: Option<Seq<char>>) -> Seq<char> {
    let what = match payload {
        Some(p) => p,
        None => "Box<Any>"@,
    };
    "panicked at '"@ + what + "'"@
}

/// The extra fields logged for a panic: the thread's name (`unnamed` when it
/// has none), then `file:line` of the panic where it is known.
pub open spec fn panic_fields(
    thread: Option<Seq<char>>,
    location: Option<(Seq<char>, nat)>,
) -> Seq<(Seq<char>, Seq<char>)> {
    let name = match thread {
        Some(t) => t,
        None => "unnamed"@,
    };
    match location {
        Some((file, line)) => seq![("thread"@, name), ("location"@, file + ":"@ + decimal(line))],
        None => seq![("thread"@, name)],
    }
}

/// What is logged, at level `Error`, when a thread panics.
pub struct PanicReport {
    pub message: String,
    pub fields: Vec<(String, String)>,
}

/// Builds the report of a panic from the panicking thread's name, the
/// panic's text payload and its location.
pub fn panic_report(thread: Option<&str>, payload: Option<&str>, location: Option<(&str, u32)>) -> (r: PanicReport)
    ensures
        r.message@ == panic_message(opt_view(payload)),
        fields_view(r.fields@) == panic_fields(
            opt_view(thread),
            match location {
                Some((f, l)) => Some((f@, l as nat)),
                None => None,
            },
        ),
{
    let mut message = String::new();
    message.append("panicked at '");
    match payload {
        Some(p) => message.append(p),
        None => message.append("Box<Any>"),
    }
    message.append("'");

    let name = match thread {
        Some(t) => String::from_str(t),
        None => String::from_str("unnamed"),
    };
    let mut fields: Vec<(String, String)> = Vec::new();
    fields.push((String::from_str("thread"), name));
    match location {
        Some((f, l)) => {
            let mut at = String::from_str(f);
            at.append(":");
            push_decimal(&mut at, l as u64);
            fields.push((String::from_str("location"), at));
        },
        None => {},
    }
    let r = PanicReport { message, fields };
    assert(fields_view(r.fields@) =~= panic_fields(
        opt_view(thread),
        match location {
            Some((f, l)) => Some((f@, l as nat)),
            None => None,
        },
    ));
    r
}

/// Filtering is monotone: a record that passes a filter passes every more
/// verbose filter, and every less verbose record passes it too; `Off` keeps
/// nothing and `Trace` keeps everything.
pub proof fn lemma_filter_monotone(l: Level, m: Level, f: LevelFilter, g: LevelFilter)
    ensures
        passes(l, f) && filter_rank(f) <= filter_rank(g) ==> passes(l, g),
        passes(m, f) && level_rank(l) <= level_rank(m) ==> passes(l, f),
        !passes(l, LevelFilter::Off),
        passes(l, LevelFilter::Trace),
{
}

/// A message that starts with neither `"` nor `{` (or is empty) enters the
/// line only as the JSON string value of `event`: between the opening and
/// closing quotes stands a text of the message's length with the same
/// characters, except that each double quote became a single quote, so
/// nothing of the message is spliced in raw.
pub proof fn lemma_plain_message_is_a_string(msg: Seq<char>)
    requires
        msg.len() == 0 || (msg[0] != '"' && msg[0] != '{'),
    ensures
        exists|s: Seq<char>| {
            &&& message_part(msg) == ",\"event\":\""@ + s + "\""@
            &&& #[trigger] s.len() == msg.len()
            &&& forall|i: int| 0 <= i < msg.len() ==> s[i] == (if msg[i] == '"' { '\'' } else { msg[i] })
        },
{
    let s = quotes_softened(msg);
    assert(s.len() == msg.len());
}

/// A plain message cannot end the JSON string it is put in: softening
/// leaves no double quote behind and keeps every other character.
pub proof fn lemma_softened_message_has_no_quote(msg: Seq<char>)
    ensures
        quotes_softened(msg).len() == msg.len(),
        forall|i: int| 0 <= i < msg.len() ==> #[trigger] quotes_softened(msg)[i] != '"',
        forall|i: int| 0 <= i < msg.len() && msg[i] != '"' ==> #[trigger] quotes_softened(msg)[i] == msg[i],
        forall|i: int| 0 <= i < msg.len() && msg[i] == '"' ==> #[trigger] quotes_softened(msg)[i] == '\'',
{
}

/// Whether `s` holds no line break.
pub open spec fn single_line(s: Seq<char>) -> bool {
    forall|i: int| 0 <= i < s.len() ==> s[i] != '\n'
}

proof fn lemma_single_line_concat(a: Seq<char>, b: Seq<char>)
    requires
        single_line(a),
        single_line(b),
    ensures
        single_line(a + b),
{
    assert forall|i: int| 0 <= i < (a + b).len() implies (a + b)[i] != '\n' by {
        if i < a.len() {
            assert((a + b)[i] == a[i]);
        } else {
            assert((a + b)[i] == b[i - a.len()]);
        }
    }
}

proof fn lemma_level_name_single_line(l: Level)
    ensures
        single_line(level_name(l)),
{
    reveal_strlit("ERROR");
    reveal_strlit("WARN");
    reveal_strlit("INFO");
    reveal_strlit("DEBUG");
    reveal_strlit("TRACE");
}

proof fn lemma_fields_single_line(fields: Seq<(Seq<char>, Seq<char>)>)
    requires
        forall|k: int| 0 <= k < fields.len() ==> single_line(#[trigger] fields[k].0) && single_line(fields[k].1),
    ensures
        single_line(fields_part(fields)),
    decreases fields.len(),
{
    reveal_strlit(",\"");
    reveal_strlit("\":");
    if fields.len() > 0 {
        let init = fields.drop_last();
        assert forall|k: int| 0 <= k < init.len() implies single_line(#[trigger] init[k].0) && single_line(init[k].1) by {
            assert(init[k] == fields[k]);
        }
        lemma_fields_single_line(init);
        let last = fields.last();
        assert(single_line(fields[fields.len() - 1].0));
        lemma_single_line_concat(",\""@, last.0);
        lemma_single_line_concat(",\""@ + last.0, "\":"@);
        lemma_single_line_concat(",\""@ + last.0 + "\":"@, last.1);
        lemma_single_line_concat(fields_part(init), field_part(last.0, last.1));
    } else {
        assert(single_line(Seq::<char>::empty()));
    }
}

/// One record, one line: when the time, the message and the fields hold no
/// line break, the rendered record ends with the only line break it holds.
pub proof fn lemma_record_is_one_line(
    time: Seq<char>,
    level: Level,
    msg: Seq<char>,
    fields: Seq<(Seq<char>, Seq<char>)>,
)
    requires
        single_line(time),
        single_line(msg),
        forall|k: int| 0 <= k < fields.len() ==> single_line(#[trigger] fields[k].0) && single_line(fields[k].1),
    ensures
        ({
            let line = record_line(time, level, msg, fields);
            &&& line.len() > 0
            &&& line.last() == '\n'
            &&& single_line(line.drop_last())
        }),
{
    reveal_strlit("{");
    reveal_strlit("\"time\":\"");
    reveal_strlit("\"");
    reveal_strlit(",\"level\":\"");
    reveal_strlit(",");
    reveal_strlit(",\"event\": ");
    reveal_strlit(",\"event\":\"");
    reveal_strlit("}\n");
    lemma_level_name_single_line(level);
    lemma_fields_single_line(fields);
    let m = message_part(msg);
    assert(single_line(m)) by {
        if msg.len() > 0 && msg[0] == '"' {
            lemma_single_line_concat(","@, msg);
        } else if msg.len() > 0 && msg[0] == '{' {
            lemma_single_line_concat(",\"event\": "@, msg);
        } else {
            let q = quotes_softened(msg);
            assert(single_line(q)) by {
                assert forall|i: int| 0 <= i < q.len() implies q[i] != '\n' by {
                    assert(msg[i] != '\n');
                }
            }
            lemma_single_line_concat(",\"event\":\""@, q);
            lemma_single_line_concat(",\"event\":\""@ + q, "\""@);
        }
    }
    let head = "{"@ + "\"time\":\""@ + time + "\""@ + ",\"level\":\""@ + level_name(level) + "\""@ + m
        + fields_part(fields);
    lemma_single_line_concat("{"@, "\"time\":\""@);
    lemma_single_line_concat("{"@ + "\"time\":\""@, time);
    lemma_single_line_concat("{"@ + "\"time\":\""@ + time, "\""@);
    lemma_single_line_concat("{"@ + "\"time\":\""@ + time + "\""@, ",\"level\":\""@);
    lemma_single_line_concat("{"@ + "\"time\":\""@ + time + "\""@ + ",\"level\":\""@, level_name(level));
    lemma_single_line_concat(
        "{"@ + "\"time\":\""@ + time + "\""@ + ",\"level\":\""@ + level_name(level),
        "\""@,
    );
    lemma_single_line_concat(
        "{"@ + "\"time\":\""@ + time + "\""@ + ",\"level\":\""@ + level_name(level) + "\""@,
        m,
    );
    lemma_single_line_concat(
        "{"@ + "\"time\":\""@ + time + "\""@ + ",\"level\":\""@ + level_name(level) + "\""@ + m,
        fields_part(fields),
    );
    let line = record_line(time, level, msg, fields);
    assert(line == head + "}\n"@);
    assert(line.drop_last() =~= head + seq!['}']);
    lemma_single_line_concat(head, seq!['}']);
}

} // verus!
