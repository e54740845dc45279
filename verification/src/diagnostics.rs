//! The diagnostic log: one line per event, fields kept on one line and
//! bounded, and the file rotated once it reaches its size limit.
use vstd::prelude::*;

use crate::decimal::{decimal, decimal_chars};
use crate::text::{append_chars, chars_of, string_of};

verus! {

/// The size at which the log is moved aside before the next line.
pub const MAX_LOG_BYTES: u64 = 524288;

/// The longest a logged field may be, in characters.
pub const MAX_FIELD_CHARS: usize = 2000;

/// What the Diagnostics panel shows.
#[derive(Debug)]
pub struct DiagnosticLogSnapshot {
    pub path: String,
    pub contents: String,
}

#[derive(Debug)]
pub struct DiagnosticCommandError {
    pub code: &'static str,
    pub message: String,
}

impl DiagnosticCommandError {
    pub fn state_error() -> (r: Self)
        ensures
            r.code@ == "state_unavailable"@,
            r.message@ == "Diagnostic log is temporarily unavailable."@,
    {
        DiagnosticCommandError {
            code: "state_unavailable",
            message: string_of(&chars_of("Diagnostic log is temporarily unavailable.")),
        }
    }

    pub fn storage_error(message: String) -> (r: Self)
        ensures
            r.code@ == "storage_error"@,
            r.message@ == message@,
    {
        DiagnosticCommandError { code: "storage_error", message }
    }
}

/// A snapshot of the log at `path`.
pub fn log_snapshot(path: String, contents: String) -> (r: DiagnosticLogSnapshot)
    ensures
        r.path == path,
        r.contents == contents,
{
    DiagnosticLogSnapshot { path, contents }
}

/// A field with line breaks turned into spaces, cut to its first 2000
/// characters.
pub open spec fn clean_field_spec(value: Seq<char>) -> Seq<char> {
    let n = if value.len() <= 2000 {
        value.len()
    } else {
        2000
    };
    Seq::new(
        n,
        |i: int|
            if value[i] == '\r' || value[i] == '\n' {
                ' '
            } else {
                value[i]
            },
    )
}

fn clean_field_chars(value: &[char]) -> (r: Vec<char>)
    ensures
        r@ == clean_field_spec(value@),
{
    let mut out: Vec<char> = Vec::new();
    let mut i: usize = 0;
    while i < value.len() && i < MAX_FIELD_CHARS
        invariant
            i <= value@.len(),
            i <= 2000,
            out@.len() == i,
            forall|j: int|
                0 <= j < i ==> out@[j] == (if value@[j] == '\r' || value@[j] == '\n' {
                    ' '
                } else {
                    value@[j]
                }),
        decreases value@.len() - i,
    {
        let c = value[i];
        if c == '\r' || c == '\n' {
            out.push(' ');
        } else {
            out.push(c);
        }
        i = i + 1;
    }
    assert(out@ =~= clean_field_spec(value@));
    out
}

/// See `clean_field_spec`.
pub fn clean_field(value: &str) -> (r: String)
    ensures
        r@ == clean_field_spec(value@),
{
    let chars = chars_of(value);
    string_of(&clean_field_chars(&chars))
}

/// One log line: "<milliseconds> [<level>] <area>: <message>" and a newline,
/// each field cleaned.
pub open spec fn log_line_spec(timestamp_ms: u128, level: Seq<char>, area: Seq<char>, message: Seq<char>) -> Seq<char> {
    decimal(timestamp_ms as nat) + " ["@ + clean_field_spec(level) + "] "@ + clean_field_spec(area)
        + ": "@ + clean_field_spec(message) + "\n"@
}

/// See `log_line_spec`.
pub fn log_line(timestamp_ms: u128, level: &str, area: &str, message: &str) -> (r: String)
    ensures
        r@ == log_line_spec(timestamp_ms, level@, area@, message@),
{
    let mut out = decimal_chars(timestamp_ms);
    let open = chars_of(" [");
    append_chars(&mut out, &open);
    let l = chars_of(level);
    append_chars(&mut out, &clean_field_chars(&l));
    let close = chars_of("] ");
    append_chars(&mut out, &close);
    let a = chars_of(area);
    append_chars(&mut out, &clean_field_chars(&a));
    let colon = chars_of(": ");
    append_chars(&mut out, &colon);
    let m = chars_of(message);
    append_chars(&mut out, &clean_field_chars(&m));
    let newline = chars_of("\n");
    append_chars(&mut out, &newline);
    string_of(&out)
}

/// Whether the log must be moved aside before writing: only when its size is
/// known and has reached the limit.
pub fn should_rotate(current_size: Option<u64>) -> (r: bool)
    ensures
        r == (current_size matches Some(n) && n >= MAX_LOG_BYTES),
{
    match current_size {
        Some(n) => n >= MAX_LOG_BYTES,
        None => false,
    }
}

/// Law: a cleaned field holds no line break and at most 2000 characters, and
/// cleaning again changes nothing; so a log line is one line.
pub proof fn law_clean_field_is_one_line(value: Seq<char>)
    ensures
        clean_field_spec(value).len() <= 2000,
        forall|i: int|
            0 <= i < clean_field_spec(value).len() ==> #[trigger] clean_field_spec(value)[i] != '\r'
                && clean_field_spec(value)[i] != '\n',
        clean_field_spec(clean_field_spec(value)) == clean_field_spec(value),
{
    assert(clean_field_spec(clean_field_spec(value)) =~= clean_field_spec(value));
}

} // verus!
