//! Normalizing a parsed JSON object into one canonical log record.
use vstd::prelude::*;

use crate::json::{fields_model, num_int, obj_get, JVal, JsonValue};
use crate::textutil::{contains_chars, contains_sub, lower_chars, lower_seq, to_chars};
use crate::time::{instant_of_parts, rfc3339_epoch, Instant};

verus! {

/// Ranked severity, from least to most important.
#[derive(PartialEq, Eq, Structural, Clone, Copy, Debug)]
pub enum Severity {
    Tracing,
    Debug,
    Info,
    Warning,
    Error,
    Fatal,
}

impl Severity {
    /// Place in the order Tracing < Debug < Info < Warning < Error < Fatal.
    pub open spec fn rank_spec(self) -> u32 {
        match self {
            Severity::Tracing => 0,
            Severity::Debug => 1,
            Severity::Info => 2,
            Severity::Warning => 3,
            Severity::Error => 4,
            Severity::Fatal => 5,
        }
    }

    /// Place in the order Tracing < Debug < Info < Warning < Error < Fatal.
    pub fn rank(&self) -> (r: u32)
        ensures
            r == self.rank_spec(),
    {
        match self {
            Severity::Tracing => 0,
            Severity::Debug => 1,
            Severity::Info => 2,
            Severity::Warning => 3,
            Severity::Error => 4,
            Severity::Fatal => 5,
        }
    }

    /// The severity a lower-cased name denotes, if any.
    pub open spec fn of_name(l: Seq<char>) -> Option<Severity> {
        if l == "tracing"@ || l == "trace"@ {
            Some(Severity::Tracing)
        } else if l == "debug"@ {
            Some(Severity::Debug)
        } else if l == "info"@ {
            Some(Severity::Info)
        } else if l == "warn"@ || l == "warning"@ {
            Some(Severity::Warning)
        } else if l == "error"@ {
            Some(Severity::Error)
        } else if l == "fatal"@ {
            Some(Severity::Fatal)
        } else {
            None
        }
    }

    /// Read a severity name, ASCII case-insensitively; `None` for an
    /// unknown name.
    pub fn from_str(s: &str) -> (r: Option<Severity>)
        ensures
            r == Severity::of_name(lower_seq(s@)),
    {
        let chars = to_chars(s);
        let l = lower_chars(&chars);
        if eq_text(&l, "tracing") || eq_text(&l, "trace") {
            Some(Severity::Tracing)
        } else if eq_text(&l, "debug") {
            Some(Severity::Debug)
        } else if eq_text(&l, "info") {
            Some(Severity::Info)
        } else if eq_text(&l, "warn") || eq_text(&l, "warning") {
            Some(Severity::Warning)
        } else if eq_text(&l, "error") {
            Some(Severity::Error)
        } else if eq_text(&l, "fatal") {
            Some(Severity::Fatal)
        } else {
            None
        }
    }
}

/// Whether the characters equal the literal's characters.
fn eq_text(a: &Vec<char>, lit: &str) -> (r: bool)
    ensures
        r == (a@ == lit@),
{
    let l = to_chars(lit);
    crate::json::eq_chars(a, &l)
}

/// The rank a free-form severity text gets, by case-insensitive substring
/// matching; anything unrecognized ranks as Info.
pub open spec fn rank_of_text(s: Seq<char>) -> Severity {
    let l = lower_seq(s);
    if contains_sub(l, "warn"@) {
        Severity::Warning
    } else if contains_sub(l, "error"@) || contains_sub(l, "critical"@) {
        Severity::Error
    } else if contains_sub(l, "debug"@) {
        Severity::Debug
    } else if contains_sub(l, "trace"@) {
        Severity::Tracing
    } else if contains_sub(l, "fatal"@) {
        Severity::Fatal
    } else {
        Severity::Info
    }
}

/// Why a record could not be normalized.
#[derive(PartialEq, Eq, Structural, Clone, Copy, Debug)]
pub enum NormError {
    /// The value is not an object.
    NotAnObject,
    /// No timestamp field is present.
    NoTimestamp,
    /// A timestamp field is present but denotes no in-range instant.
    BadTimestamp,
    /// No string-valued message field is present.
    NoMessage,
}

/// Ghost form of a normalized record.
pub struct RecM {
    pub time: Instant,
    pub severity: Seq<char>,
    pub message: Seq<char>,
    pub message_key: Seq<char>,
    pub fields: Seq<(Seq<char>, JVal)>,
}

/// The timestamp-bearing value: the first of the candidate field names
/// that is present.
pub open spec fn time_field(fs: Seq<(Seq<char>, JVal)>) -> Option<JVal> {
    if obj_get(fs, "timestamp"@) is Some {
        obj_get(fs, "timestamp"@)
    } else if obj_get(fs, "time"@) is Some {
        obj_get(fs, "time"@)
    } else if obj_get(fs, "eventTime"@) is Some {
        obj_get(fs, "eventTime"@)
    } else if obj_get(fs, "@timestamp"@) is Some {
        obj_get(fs, "@timestamp"@)
    } else if obj_get(fs, "Timestamp"@) is Some {
        obj_get(fs, "Timestamp"@)
    } else {
        obj_get(fs, "ts"@)
    }
}

/// The instant a timestamp-bearing value denotes: an RFC 3339 text, or an
/// object with numeric `seconds` and `nanos`.
pub open spec fn interp_time(v: JVal) -> Option<Instant> {
    match v {
        JVal::Str(s) => match rfc3339_epoch(s) {
            Some(p) => crate::time::instant_of_epoch(p.0 as int, p.1 as int),
            None => None,
        },
        JVal::Obj(m) => match (obj_get(m, "seconds"@), obj_get(m, "nanos"@)) {
            (Some(JVal::Num(ts)), Some(JVal::Num(tn))) => instant_of_parts(
                num_int(ts),
                num_int(tn),
            ),
            _ => None,
        },
        _ => None,
    }
}

/// The numeric severity table: 50 ERROR, 40 WARN, 30 INFO, 20 DEBUG,
/// 10 TRACING, anything else UNKNOWN.
pub open spec fn bunyan_name(level: i64) -> Seq<char> {
    if level == 50 {
        "ERROR"@
    } else if level == 40 {
        "WARN"@
    } else if level == 30 {
        "INFO"@
    } else if level == 20 {
        "DEBUG"@
    } else if level == 10 {
        "TRACING"@
    } else {
        "UNKNOWN"@
    }
}

/// The severity text of a record: a string `severity`, else a numeric
/// `level` through the table, else a string `level`, else a string
/// `log.level`, else the literal `unknown`.
pub open spec fn severity_text(fs: Seq<(Seq<char>, JVal)>) -> Seq<char> {
    match obj_get(fs, "severity"@) {
        Some(JVal::Str(s)) => s,
        _ => match obj_get(fs, "level"@) {
            Some(JVal::Num(t)) => bunyan_name(num_int(t)),
            Some(JVal::Str(s)) => s,
            _ => match obj_get(fs, "log.level"@) {
                Some(JVal::Str(s)) => s,
                _ => "unknown"@,
            },
        },
    }
}

/// The message key and text: the first of `message`, `msg`, `event`,
/// `MessageTemplate` that holds a string.
pub open spec fn message_field(fs: Seq<(Seq<char>, JVal)>) -> Option<(Seq<char>, Seq<char>)> {
    match obj_get(fs, "message"@) {
        Some(JVal::Str(s)) => Some(("message"@, s)),
        _ => match obj_get(fs, "msg"@) {
            Some(JVal::Str(s)) => Some(("msg"@, s)),
            _ => match obj_get(fs, "event"@) {
                Some(JVal::Str(s)) => Some(("event"@, s)),
                _ => match obj_get(fs, "MessageTemplate"@) {
                    Some(JVal::Str(s)) => Some(("MessageTemplate"@, s)),
                    _ => None,
                },
            },
        },
    }
}

/// The message with any string `exc_info` appended after a newline.
pub open spec fn message_with_exc(fs: Seq<(Seq<char>, JVal)>, msg: Seq<char>) -> Seq<char> {
    match obj_get(fs, "exc_info"@) {
        Some(JVal::Str(e)) => msg + seq!['\n'] + e,
        _ => msg,
    }
}

/// What normalization yields for a parsed value: the canonical record, or
/// the first reason it fails. An object normalizes exactly when it carries
/// a timestamp field denoting an in-range instant and a string message.
pub open spec fn normalize_spec(v: JVal) -> Result<RecM, NormError> {
    match v {
        JVal::Obj(fs) => match time_field(fs) {
            None => Err(NormError::NoTimestamp),
            Some(tv) => match interp_time(tv) {
                None => Err(NormError::BadTimestamp),
                Some(time) => match message_field(fs) {
                    None => Err(NormError::NoMessage),
                    Some(km) => Ok(
                        RecM {
                            time,
                            severity: severity_text(fs),
                            message: message_with_exc(fs, km.1),
                            message_key: km.0,
                            fields: fs,
                        },
                    ),
                },
            },
        },
        _ => Err(NormError::NotAnObject),
    }
}

/// One normalized log record: the instant, the raw severity text, the
/// message (with any exception text appended), the key that supplied the
/// message, and the full original field map.
#[derive(Debug)]
pub struct LogLine {
    pub time: Instant,
    pub severity: Vec<char>,
    pub message: Vec<char>,
    pub message_key: Vec<char>,
    pub parsed_map: Vec<(Vec<char>, JsonValue)>,
}

impl LogLine {
    /// The ghost record this stands for.
    pub open spec fn model(self) -> RecM {
        RecM {
            time: self.time,
            severity: self.severity@,
            message: self.message@,
            message_key: self.message_key@,
            fields: fields_model(self.parsed_map),
        }
    }

    /// The rank of the record's severity text.
    pub fn severity(&self) -> (r: Severity)
        ensures
            r == rank_of_text(self.severity@),
    {
        let l = lower_chars(&self.severity);
        if contains_text(&l, "warn") {
            Severity::Warning
        } else if contains_text(&l, "error") || contains_text(&l, "critical") {
            Severity::Error
        } else if contains_text(&l, "debug") {
            Severity::Debug
        } else if contains_text(&l, "trace") {
            Severity::Tracing
        } else if contains_text(&l, "fatal") {
            Severity::Fatal
        } else {
            Severity::Info
        }
    }
}

/// Whether the literal's characters occur inside the text.
fn contains_text(s: &Vec<char>, lit: &str) -> (r: bool)
    ensures
        r == contains_sub(s@, lit@),
{
    let l = to_chars(lit);
    contains_chars(s, &l)
}

/// The named severity of the numeric table, as `bunyan_name` describes.
pub fn bunyan_to_level(level: i64) -> (r: Vec<char>)
    ensures
        r@ == bunyan_name(level),
{
    if level == 50 {
        to_chars("ERROR")
    } else if level == 40 {
        to_chars("WARN")
    } else if level == 30 {
        to_chars("INFO")
    } else if level == 20 {
        to_chars("DEBUG")
    } else if level == 10 {
        to_chars("TRACING")
    } else {
        to_chars("UNKNOWN")
    }
}

/// The value under the key, when the fields carry it.
pub fn get_field_chars<'a>(fields: &'a Vec<(Vec<char>, JsonValue)>, k: &Vec<char>) -> (r: Option<
    &'a JsonValue,
>)
    ensures
        match r {
            Some(v) => obj_get(fields_model(*fields), k@) == Some(v.model()),
            None => obj_get(fields_model(*fields), k@) is None,
        },
{
    let mut i: usize = 0;
    while i < fields.len()
        invariant
            i <= fields@.len(),
            forall|j: int| 0 <= j < i ==> fields_model(*fields)[j].0 != k@,
        decreases fields@.len() - i,
    {
        if crate::json::eq_chars(&fields[i].0, k) {
            proof {
                crate::json::lemma_obj_get_at(fields_model(*fields), k@, i as int);
            }
            return Some(&fields[i].1);
        }
        i += 1;
    }
    proof {
        crate::json::lemma_obj_get_missing(fields_model(*fields), k@);
    }
    None
}

/// The value under the named key, when the fields carry it.
fn get_field<'a>(fields: &'a Vec<(Vec<char>, JsonValue)>, name: &str) -> (r: Option<
    &'a JsonValue,
>)
    ensures
        match r {
            Some(v) => obj_get(fields_model(*fields), name@) == Some(v.model()),
            None => obj_get(fields_model(*fields), name@) is None,
        },
{
    let k = to_chars(name);
    let mut i: usize = 0;
    while i < fields.len()
        invariant
            i <= fields@.len(),
            k@ == name@,
            forall|j: int| 0 <= j < i ==> fields_model(*fields)[j].0 != name@,
        decreases fields@.len() - i,
    {
        if crate::json::eq_chars(&fields[i].0, &k) {
            proof {
                crate::json::lemma_obj_get_at(fields_model(*fields), name@, i as int);
            }
            return Some(&fields[i].1);
        }
        i += 1;
    }
    proof {
        crate::json::lemma_obj_get_missing(fields_model(*fields), name@);
    }
    None
}

/// The instant a timestamp-bearing value denotes, as `interp_time`
/// describes; the result is always well-formed.
fn interp_time_exec(v: &JsonValue) -> (r: Option<Instant>)
    ensures
        r == interp_time(v.model()),
        r matches Some(t) ==> t.wf(),
{
    match v {
        JsonValue::Str(tv) => {
            let s = crate::textutil::chars_to_string(tv);
            match crate::time::parse_rfc3339(s.as_str()) {
                Some(p) => crate::time::instant_from_parse(p.0, p.1),
                None => None,
            }
        },
        JsonValue::Object(fields) => {
            let sec = get_field(fields, "seconds");
            let nan = get_field(fields, "nanos");
            match (sec, nan) {
                (Some(sv), Some(nv)) => match (sv, nv) {
                    (JsonValue::Num(ts), JsonValue::Num(tn)) => {
                        let seconds = crate::json::num_int_exec(ts);
                        let nanos = crate::json::num_int_exec(tn);
                        crate::time::instant_from_parts(seconds, nanos)
                    },
                    _ => None,
                },
                _ => None,
            }
        },
        _ => None,
    }
}

/// Normalize a parsed value into a log record, as `normalize_spec`
/// describes: the record on success, and the first failure otherwise.
pub fn get_log_line(parsed: JsonValue) -> (r: Result<LogLine, NormError>)
    ensures
        match normalize_spec(parsed.model()) {
            Ok(rm) => r matches Ok(l) && l.model() == rm && l.time.wf(),
            Err(e) => r == Err::<LogLine, NormError>(e),
        },
{
    let fields = match parsed {
        JsonValue::Object(fields) => fields,
        _ => {
            return Err(NormError::NotAnObject);
        },
    };
    let ghost fs = fields_model(fields);
    // timestamp
    let mut tv: Option<&JsonValue> = get_field(&fields, "timestamp");
    if tv.is_none() {
        tv = get_field(&fields, "time");
    }
    if tv.is_none() {
        tv = get_field(&fields, "eventTime");
    }
    if tv.is_none() {
        tv = get_field(&fields, "@timestamp");
    }
    if tv.is_none() {
        tv = get_field(&fields, "Timestamp");
    }
    if tv.is_none() {
        tv = get_field(&fields, "ts");
    }
    let time = match tv {
        None => {
            proof {
                assert(time_field(fs) is None);
            }
            return Err(NormError::NoTimestamp);
        },
        Some(v) => {
            proof {
                assert(time_field(fs) == Some(v.model()));
            }
            match interp_time_exec(v) {
                None => {
                    return Err(NormError::BadTimestamp);
                },
                Some(t) => t,
            }
        },
    };
    // severity
    let severity: Vec<char> = {
        let sv = get_field(&fields, "severity");
        match sv {
            Some(JsonValue::Str(s)) => clone_chars(s),
            _ => {
                let lv = get_field(&fields, "level");
                match lv {
                    Some(JsonValue::Num(t)) => bunyan_to_level(crate::json::num_int_exec(t)),
                    Some(JsonValue::Str(s)) => clone_chars(s),
                    _ => {
                        let dv = get_field(&fields, "log.level");
                        match dv {
                            Some(JsonValue::Str(s)) => clone_chars(s),
                            _ => to_chars("unknown"),
                        }
                    },
                }
            },
        }
    };
    proof {
        assert(severity@ == severity_text(fs));
    }
    // message
    let msg: Vec<char>;
    let key: Vec<char>;
    let m1 = get_field(&fields, "message");
    let m2 = get_field(&fields, "msg");
    let m3 = get_field(&fields, "event");
    let m4 = get_field(&fields, "MessageTemplate");
    if let Some(JsonValue::Str(s)) = m1 {
        msg = clone_chars(s);
        key = to_chars("message");
    } else if let Some(JsonValue::Str(s)) = m2 {
        msg = clone_chars(s);
        key = to_chars("msg");
    } else if let Some(JsonValue::Str(s)) = m3 {
        msg = clone_chars(s);
        key = to_chars("event");
    } else if let Some(JsonValue::Str(s)) = m4 {
        msg = clone_chars(s);
        key = to_chars("MessageTemplate");
    } else {
        proof {
            assert(message_field(fs) is None);
        }
        return Err(NormError::NoMessage);
    }
    proof {
        assert(message_field(fs) == Some((key@, msg@)));
    }
    // exception text
    let mut message = msg;
    let ev = get_field(&fields, "exc_info");
    if let Some(JsonValue::Str(e)) = ev {
        message.push('\n');
        let mut tail = clone_chars(e);
        message.append(&mut tail);
        proof {
            assert(message@ =~= message_with_exc(fs, message_field(fs).unwrap().1));
        }
    } else {
        proof {
            assert(message@ =~= message_with_exc(fs, message_field(fs).unwrap().1));
        }
    }
    Ok(LogLine { time, severity, message, message_key: key, parsed_map: fields })
}

/// A copy of the characters.
pub fn clone_chars(v: &Vec<char>) -> (r: Vec<char>)
    ensures
        r@ == v@,
{
    crate::parser::copy_range(v, 0, v.len())
}

} // verus!
