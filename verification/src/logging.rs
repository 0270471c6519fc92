//! The daemon's log records and the decisions around them: which records are
//! written, what a line looks like in plaintext and structured (JSON) form,
//! the sticky flag that remembers a failed write, and the path and handle
//! checks made before a log file is used. Writing to files and standard
//! error is done by the daemon around these decisions.
use vstd::prelude::*;
use vstd::string::*;
use crate::log_path::{check_log_path_lexically, lexical_log_path, log_path_error_text, LogPathErrorView};
use crate::resolve::Platform;
use crate::supervisor::has_prefix;
use crate::text::{chars_of, concat2, decimal, digit_char, owned, push_decimal, str_eq, str_starts_with};

verus! {

/// The severity of a record.
#[derive(Clone, Copy, Debug)]
pub enum Level {
    Debug,
    Info,
    Warn,
    Error,
}

/// The name a level is written with.
pub open spec fn level_name(level: Level) -> Seq<char> {
    match level {
        Level::Debug => "DEBUG"@,
        Level::Info => "INFO"@,
        Level::Warn => "WARN"@,
        Level::Error => "ERROR"@,
    }
}

/// Levels ordered from least to most severe.
pub open spec fn level_rank(level: Level) -> int {
    match level {
        Level::Debug => 0,
        Level::Info => 1,
        Level::Warn => 2,
        Level::Error => 3,
    }
}

impl Level {
    /// The name the level is written with.
    pub fn as_str(&self) -> (r: &'static str)
        ensures
            r@ == level_name(*self),
    {
        match self {
            Level::Debug => "DEBUG",
            Level::Info => "INFO",
            Level::Warn => "WARN",
            Level::Error => "ERROR",
        }
    }

    /// The level's place from least to most severe.
    pub fn rank(&self) -> (r: u8)
        ensures
            r == level_rank(*self),
    {
        match self {
            Level::Debug => 0,
            Level::Info => 1,
            Level::Warn => 2,
            Level::Error => 3,
        }
    }
}

/// How records are written: as JSON objects or as plaintext lines, and the
/// least severe level written.
#[derive(Clone, Copy, Debug)]
pub struct Logger {
    pub structured: bool,
    pub min_level: Level,
}

/// The logger for a logging mode: structured for `structured`, plaintext
/// otherwise; records from `Info` up are written.
pub fn new_logger(log_type: &str) -> (r: Logger)
    ensures
        r.structured == (log_type@ == "structured"@),
        r.min_level == Level::Info,
{
    proof {
        reveal_strlit("structured");
    }
    Logger { structured: str_eq(log_type, "structured"), min_level: Level::Info }
}

#[verifier::external_type_specification]
#[verifier::external_body]
pub struct ExJsonError(serde_json::Error);

/// A lowercase hexadecimal digit.
pub open spec fn hex_digit(d: nat) -> char {
    if d < 10 { digit_char(d) }
    else if d == 10 { 'a' }
    else if d == 11 { 'b' }
    else if d == 12 { 'c' }
    else if d == 13 { 'd' }
    else if d == 14 { 'e' }
    else { 'f' }
}

/// How one character stands inside a JSON string: `"` and `\` behind a
/// backslash; backspace, form feed, line feed, carriage return and tab as
/// `\b`, `\f`, `\n`, `\r`, `\t`; the other control characters below
/// U+0020 as `\u00` and two lowercase hexadecimal digits; every other
/// character as itself.
pub open spec fn json_escaped_char(c: char) -> Seq<char> {
    if c == '"' { seq!['\\', '"'] }
    else if c == '\\' { seq!['\\', '\\'] }
    else if c == '\u{8}' { seq!['\\', 'b'] }
    else if c == '\u{c}' { seq!['\\', 'f'] }
    else if c == '\n' { seq!['\\', 'n'] }
    else if c == '\r' { seq!['\\', 'r'] }
    else if c == '\t' { seq!['\\', 't'] }
    else if (c as nat) < 0x20 { seq!['\\', 'u', '0', '0', hex_digit((c as nat) / 16), hex_digit((c as nat) % 16)] }
    else { seq![c] }
}

/// The characters of `s`, each as it stands inside a JSON string.
pub open spec fn json_escaped(s: Seq<char>) -> Seq<char>
    decreases s.len(),
{
    if s.len() == 0 {
        Seq::empty()
    } else {
        json_escaped(s.drop_last()) + json_escaped_char(s.last())
    }
}

/// The JSON string literal for `s`: its escaped characters between quotes.
pub open spec fn json_string_literal(s: Seq<char>) -> Seq<char> {
    seq!['"'] + json_escaped(s) + seq!['"']
}

/// `serde_json::to_string` on a string: its JSON string literal, quoted and
/// escaped as `format_escaped_str` does. The writer is a `Vec`, which never
/// fails, so the call always succeeds.
#[verifier::external_body]
fn json_quote(s: &str) -> (r: Result<String, serde_json::Error>)
    ensures
        match r {
            Ok(j) => j@ == json_string_literal(s@),
            Err(_) => false,
        },
{
    serde_json::to_string(s)
}

/// An ASCII digit.
pub open spec fn is_ascii_digit(c: char) -> bool {
    '0' <= c && c <= '9'
}

/// A JSON number with a whole part and a fraction: one or more digits with
/// no leading zero (a whole part `0` excepted), a `.`, and one or more
/// digits.
pub open spec fn is_json_fixed_point(s: Seq<char>) -> bool {
    exists|k: int|
        #![trigger s[k]]
        1 <= k < s.len() - 1 && s[k] == '.'
            && (forall|i: int| 0 <= i < s.len() && i != k ==> is_ascii_digit(#[trigger] s[i]))
            && (s[0] == '0' ==> k == 1)
}

/// The JSON text that `serde_json` keeps as a raw value for `s`: `s`
/// without the whitespace around it when it holds one JSON value (`None`
/// when it does not).
pub uninterp spec fn json_raw_text(s: Seq<char>) -> Option<Seq<char>>;

/// `serde_json::value::RawValue::from_string`, read back with
/// `RawValue::get`: checks that `s` holds one JSON value and gives its text
/// without the surrounding whitespace. A JSON number with nothing around it
/// comes back unchanged.
#[verifier::external_body]
fn json_raw_value(s: String) -> (r: Result<String, serde_json::Error>)
    ensures
        match r {
            Ok(t) => json_raw_text(s@) == Some(t@) && (is_json_fixed_point(s@) ==> t@ == s@),
            Err(_) => json_raw_text(s@) is None && !is_json_fixed_point(s@),
        },
{
    match serde_json::value::RawValue::from_string(s) {
        Ok(raw) => Ok(raw.get().to_string()),
        Err(e) => Err(e),
    }
}

/// Every character of a decimal representation is a digit, and only zero's
/// begins with `0`.
proof fn lemma_decimal_digits(n: nat)
    ensures
        decimal(n).len() >= 1,
        forall|i: int| 0 <= i < decimal(n).len() ==> is_ascii_digit(#[trigger] decimal(n)[i]),
        decimal(n)[0] == '0' ==> n == 0,
    decreases n,
{
    if n >= 10 {
        lemma_decimal_digits(n / 10);
        let d = decimal(n / 10);
        assert(decimal(n) == d.push(digit_char(n % 10)));
        assert forall|i: int| 0 <= i < decimal(n).len() implies is_ascii_digit(#[trigger] decimal(n)[i]) by {
            if i < d.len() {
                assert(decimal(n)[i] == d[i]);
            }
        }
        assert(decimal(n)[0] == d[0]);
    }
}

/// The time since the epoch in seconds, with three decimals, is a JSON
/// number.
proof fn lemma_timestamp_is_json_number(millis: nat)
    ensures
        is_json_fixed_point(decimal(millis / 1000) + "."@ + three_digits(millis % 1000)),
{
    reveal_strlit(".");
    lemma_decimal_digits(millis / 1000);
    let whole = decimal(millis / 1000);
    let s = whole + "."@ + three_digits(millis % 1000);
    let k = whole.len() as int;
    assert(s[k] == '.');
    assert forall|i: int| 0 <= i < s.len() && i != k implies is_ascii_digit(#[trigger] s[i]) by {
        if i < k {
            assert(s[i] == whole[i]);
        }
    }
    assert(s[0] == whole[0]);
}

/// Three decimal digits for `n` below one thousand, with leading zeros.
pub open spec fn three_digits(n: nat) -> Seq<char> {
    seq![digit_char(n / 100), digit_char((n / 10) % 10), digit_char(n % 10)]
}

/// A plaintext record: whole seconds since the epoch, the level, the message.
pub open spec fn plaintext_line(level: Level, elapsed_millis: nat, msg: Seq<char>) -> Seq<char> {
    "["@ + decimal(elapsed_millis / 1000) + "] ["@ + level_name(level) + "] "@ + msg
}

/// A structured record: a JSON object with the time since the epoch in
/// seconds with three decimals, the level, and the message as a JSON string.
pub open spec fn structured_line(level: Level, elapsed_millis: nat, quoted_msg: Seq<char>) -> Seq<char> {
    "{\"ts\":"@ + decimal(elapsed_millis / 1000) + "."@ + three_digits(elapsed_millis % 1000) + ",\"level\":\""@
        + level_name(level) + "\",\"msg\":"@ + quoted_msg + "}"@
}

/// The line a logger writes for a record.
pub open spec fn format_spec(logger: Logger, level: Level, elapsed_millis: nat, msg: Seq<char>) -> Seq<char> {
    if logger.structured {
        structured_line(level, elapsed_millis, json_string_literal(msg))
    } else {
        plaintext_line(level, elapsed_millis, msg)
    }
}

/// A failure to produce or write a log record, or to use a log file, with the
/// kind of failure and its text.
#[derive(Debug)]
pub struct LogError {
    pub kind: LogErrorKind,
    pub message: String,
}

#[derive(Clone, Copy, Debug)]
pub enum LogErrorKind {
    PermissionDenied,
    InvalidData,
    InvalidInput,
    Unsupported,
    Other,
}

fn log_error(kind: LogErrorKind, message: &str) -> (r: LogError)
    ensures
        r.kind == kind,
        r.message@ == message@,
{
    LogError { kind, message: owned(message) }
}

fn push_three_digits(out: &mut String, n: u64)
    requires
        n < 1000,
    ensures
        final(out)@ == old(out)@ + three_digits(n as nat),
{
    let ghost start = out@;
    push_decimal(out, n / 100);
    push_decimal(out, (n / 10) % 10);
    push_decimal(out, n % 10);
    assert(out@ =~= start + three_digits(n as nat));
}

impl Logger {
    /// The line written for a record, given the time since the epoch in
    /// milliseconds.
    pub fn format_msg(&self, level: Level, elapsed_millis: u64, msg: &str) -> (r: Result<String, LogError>)
        ensures
            r matches Ok(line) && line@ == format_spec(*self, level, elapsed_millis as nat, msg@),
    {
        if self.structured {
            let mut ts = String::new();
            push_decimal(&mut ts, elapsed_millis / 1000);
            ts.append(".");
            push_three_digits(&mut ts, elapsed_millis % 1000);
            proof {
                reveal_strlit(".");
                lemma_timestamp_is_json_number(elapsed_millis as nat);
            }
            let ts = match json_raw_value(ts) {
                Ok(t) => t,
                Err(_) => return Err(log_error(LogErrorKind::InvalidData, "log record could not be encoded as JSON")),
            };
            let quoted = match json_quote(msg) {
                Ok(q) => q,
                Err(_) => return Err(log_error(LogErrorKind::InvalidData, "log record could not be encoded as JSON")),
            };
            let mut line = owned("{\"ts\":");
            line.append(ts.as_str());
            line.append(",\"level\":\"");
            line.append(level.as_str());
            line.append("\",\"msg\":");
            line.append(quoted.as_str());
            line.append("}");
            Ok(line)
        } else {
            let mut line = owned("[");
            push_decimal(&mut line, elapsed_millis / 1000);
            line.append("] [");
            line.append(level.as_str());
            line.append("] ");
            line.append(msg);
            Ok(line)
        }
    }

    /// Whether a record of the level is written.
    pub fn accepts(&self, level: Level) -> (r: bool)
        ensures
            r == (level_rank(level) >= level_rank(self.min_level)),
    {
        level.rank() >= self.min_level.rank()
    }

    /// The line written for a record, or `None` when the level is below the
    /// logger's least severe level.
    pub fn write_line(&self, level: Level, elapsed_millis: u64, msg: &str) -> (r: Result<Option<String>, LogError>)
        ensures
            level_rank(level) < level_rank(self.min_level) ==> r matches Ok(None),
            level_rank(level) >= level_rank(self.min_level)
                ==> (r matches Ok(Some(line)) && line@ == format_spec(*self, level, elapsed_millis as nat, msg@)),
    {
        if !self.accepts(level) {
            return Ok(None);
        }
        let line = self.format_msg(level, elapsed_millis, msg)?;
        Ok(Some(line))
    }
}

/// The line written for a record when no logger has been set up yet: the
/// level in brackets, then the message.
pub open spec fn fallback_line(level: Level, msg: Seq<char>) -> Seq<char> {
    "["@ + level_name(level) + "] "@ + msg
}

/// What `log` returns for a record: with no logger set up, a bare line for
/// standard error; with a logger, nothing below its least severe level, else
/// the logger's line.
pub open spec fn log_contract(logger: Option<Logger>, level: Level, elapsed_millis: nat, msg: Seq<char>, r: Result<Option<String>, LogError>) -> bool {
    match logger {
        None => r matches Ok(Some(line)) && line@ == fallback_line(level, msg),
        Some(l) => if level_rank(level) < level_rank(l.min_level) {
            r matches Ok(None)
        } else {
            r matches Ok(Some(line)) && line@ == format_spec(l, level, elapsed_millis, msg)
        },
    }
}

/// The line to write for a record: through the logger if one is set up (none
/// below its least severe level), else a bare line for standard error.
pub fn log(logger: &Option<Logger>, level: Level, elapsed_millis: u64, msg: &str) -> (r: Result<Option<String>, LogError>)
    ensures
        log_contract(*logger, level, elapsed_millis as nat, msg@, r),
{
    match logger {
        Some(l) => l.write_line(level, elapsed_millis, msg),
        None => {
            let mut line = owned("[");
            line.append(level.as_str());
            line.append("] ");
            line.append(msg);
            Ok(Some(line))
        }
    }
}

/// The line to write for a debug record.
pub fn debug(logger: &Option<Logger>, elapsed_millis: u64, msg: &str) -> (r: Result<Option<String>, LogError>)
    ensures
        log_contract(*logger, Level::Debug, elapsed_millis as nat, msg@, r),
{
    log(logger, Level::Debug, elapsed_millis, msg)
}

/// The line to write for an info record.
pub fn info(logger: &Option<Logger>, elapsed_millis: u64, msg: &str) -> (r: Result<Option<String>, LogError>)
    ensures
        log_contract(*logger, Level::Info, elapsed_millis as nat, msg@, r),
{
    log(logger, Level::Info, elapsed_millis, msg)
}

/// The line to write for a warning record.
pub fn warn(logger: &Option<Logger>, elapsed_millis: u64, msg: &str) -> (r: Result<Option<String>, LogError>)
    ensures
        log_contract(*logger, Level::Warn, elapsed_millis as nat, msg@, r),
{
    log(logger, Level::Warn, elapsed_millis, msg)
}

/// The line to write for an error record.
pub fn error(logger: &Option<Logger>, elapsed_millis: u64, msg: &str) -> (r: Result<Option<String>, LogError>)
    ensures
        log_contract(*logger, Level::Error, elapsed_millis as nat, msg@, r),
{
    log(logger, Level::Error, elapsed_millis, msg)
}

// ---------------------------------------------------------------------------
// The sticky write-failure flag.

/// Remembers whether any log write has failed since the logger was set up.
pub struct WriteFailureFlag {
    failed: bool,
}

impl View for WriteFailureFlag {
    type V = bool;

    closed spec fn view(&self) -> bool {
        self.failed
    }
}

impl WriteFailureFlag {
    /// No failure seen yet.
    pub fn new() -> (r: WriteFailureFlag)
        ensures
            r@ == false,
    {
        WriteFailureFlag { failed: false }
    }
}

/// Notes that a log write failed.
pub fn report_write_failure(flag: &mut WriteFailureFlag)
    ensures
        final(flag)@ == true,
{
    flag.failed = true;
}

/// Forgets earlier failures, as when a new logger is set up.
pub fn reset_write_failure(flag: &mut WriteFailureFlag)
    ensures
        final(flag)@ == false,
{
    flag.failed = false;
}

/// Whether a log write has failed since the last reset.
pub fn write_failure_detected(flag: &WriteFailureFlag) -> (r: bool)
    ensures
        r == flag@,
{
    flag.failed
}

/// Fails when a log write has failed since the last reset.
pub fn ensure_failure_flag_healthy(flag: &WriteFailureFlag) -> (r: Result<(), LogError>)
    ensures
        r is Ok <==> !flag@,
        r matches Err(e) ==> e.kind == LogErrorKind::Other && e.message@ == "one or more daemon log writes have failed"@,
{
    if flag.failed {
        Err(log_error(LogErrorKind::Other, "one or more daemon log writes have failed"))
    } else {
        Ok(())
    }
}

/// Fails when a log write has failed since the last reset.
pub fn ensure_healthy(flag: &WriteFailureFlag) -> (r: Result<(), LogError>)
    ensures
        r is Ok <==> !flag@,
        r matches Err(e) ==> e.kind == LogErrorKind::Other && e.message@ == "one or more daemon log writes have failed"@,
{
    ensure_failure_flag_healthy(flag)
}

/// Writing a record through the logger: when it fails, the failure is noted
/// on the flag.
pub fn record_write_outcome(flag: &mut WriteFailureFlag, write_succeeded: bool)
    ensures
        final(flag)@ == (old(flag)@ || !write_succeeded),
{
    if !write_succeeded {
        report_write_failure(flag);
    }
}

// ---------------------------------------------------------------------------
// The daemon's log as a whole.

/// The daemon's log: the logger, once one is set up, and whether a log
/// write has failed since.
pub struct LogState {
    logger: Option<Logger>,
    failures: WriteFailureFlag,
}

pub struct LogStateView {
    pub logger: Option<Logger>,
    pub write_failed: bool,
}

impl View for LogState {
    type V = LogStateView;

    closed spec fn view(&self) -> LogStateView {
        LogStateView { logger: self.logger, write_failed: self.failures@ }
    }
}

/// The log once a logger has been set up successfully: that logger, and no
/// failed write.
pub open spec fn set_up_state(s: LogStateView, logger: Logger) -> LogStateView {
    LogStateView { logger: Some(logger), write_failed: false }
}

/// The log after one write with the given outcome: a failed write is
/// remembered; the logger does not change.
pub open spec fn state_after_write(s: LogStateView, write_succeeded: bool) -> LogStateView {
    LogStateView { logger: s.logger, write_failed: s.write_failed || !write_succeeded }
}

/// The log after writes with the given outcomes, in order.
pub open spec fn state_after_writes(s: LogStateView, write_succeeded: Seq<bool>) -> LogStateView
    decreases write_succeeded.len(),
{
    if write_succeeded.len() == 0 {
        s
    } else {
        state_after_write(state_after_writes(s, write_succeeded.drop_last()), write_succeeded.last())
    }
}

impl LogState {
    /// No logger set up yet, and no failed write.
    pub fn new() -> (r: LogState)
        ensures
            r@.logger is None,
            !r@.write_failed,
    {
        LogState { logger: None, failures: WriteFailureFlag::new() }
    }

    /// Takes the logger that `init` chose, once the log file (if any) has
    /// been opened and checked: earlier failed writes are forgotten. A setup
    /// that fails does not come here, and leaves the log as it was.
    pub fn set_up(&mut self, logger: Logger)
        ensures
            final(self)@ == set_up_state(old(self)@, logger),
    {
        self.logger = Some(logger);
        reset_write_failure(&mut self.failures);
    }

    /// The line to write for a record, as `log` chooses it with this log's
    /// logger.
    pub fn line(&self, level: Level, elapsed_millis: u64, msg: &str) -> (r: Result<Option<String>, LogError>)
        ensures
            log_contract(self@.logger, level, elapsed_millis as nat, msg@, r),
    {
        log(&self.logger, level, elapsed_millis, msg)
    }

    /// Notes the outcome of writing a line.
    pub fn record_write(&mut self, write_succeeded: bool)
        ensures
            final(self)@ == state_after_write(old(self)@, write_succeeded),
    {
        record_write_outcome(&mut self.failures, write_succeeded);
    }

    /// Whether a log write has failed since the logger was set up.
    pub fn write_failure_detected(&self) -> (r: bool)
        ensures
            r == self@.write_failed,
    {
        write_failure_detected(&self.failures)
    }

    /// Fails when a log write has failed since the logger was set up.
    pub fn ensure_healthy(&self) -> (r: Result<(), LogError>)
        ensures
            r is Ok <==> !self@.write_failed,
            r matches Err(e) ==> e.kind == LogErrorKind::Other && e.message@ == "one or more daemon log writes have failed"@,
    {
        ensure_healthy(&self.failures)
    }
}

// ---------------------------------------------------------------------------
// Choosing and checking the log file.

/// The text of a log path refused before the file is opened.
pub open spec fn local_log_path_text(e: LogPathErrorView) -> Seq<char> {
    "invalid local log path: "@ + log_path_error_text(e)
}

/// Checks a configured log path before it is opened, without touching the
/// file system, and returns the components that lead from the runtime
/// directory to the file; the expected path of the opened file is the
/// runtime directory followed by these components.
pub fn validate_local_log_path(path: &str, platform: Platform) -> (r: Result<Vec<String>, LogError>)
    ensures
        match lexical_log_path(path@, platform) {
            Ok(parts) => r matches Ok(p) && p.deep_view() == parts,
            Err(e) => r matches Err(err) && err.kind == LogErrorKind::PermissionDenied && err.message@ == local_log_path_text(e),
        },
{
    match check_log_path_lexically(path, platform) {
        Ok(parts) => Ok(parts),
        Err(e) => {
            let text = e.message();
            Err(LogError { kind: LogErrorKind::PermissionDenied, message: concat2("invalid local log path: ", text.as_str()) })
        }
    }
}

/// The logger to set up for a logging mode and an optional log file; a log
/// file path is first checked as `validate_local_log_path` does, and the
/// components leading to it are returned with the logger.
pub fn init(log_type: &str, file_path: Option<&str>, platform: Platform) -> (r: Result<(Logger, Option<Vec<String>>), LogError>)
    ensures
        r matches Ok((l, _)) ==> l.structured == (log_type@ == "structured"@) && l.min_level == Level::Info,
        file_path is None ==> r matches Ok((_, None)),
        file_path matches Some(p) ==> match lexical_log_path(p@, platform) {
            Ok(parts) => r matches Ok((_, Some(found))) && found.deep_view() == parts,
            Err(e) => r matches Err(err) && err.kind == LogErrorKind::PermissionDenied && err.message@ == local_log_path_text(e),
        },
{
    let parts = match file_path {
        None => None,
        Some(p) => Some(validate_local_log_path(p, platform)?),
    };
    Ok((new_logger(log_type), parts))
}

/// Whether this platform can check which path a retained log handle resolves
/// to; file logging is refused where it cannot.
pub fn ensure_handle_path_validation_supported(handle_paths_readable: bool) -> (r: Result<(), LogError>)
    ensures
        r is Ok <==> handle_paths_readable,
        r matches Err(e) ==> e.kind == LogErrorKind::Unsupported
            && e.message@ == "configured file logging is unavailable because retained-handle path validation is unsupported on this platform"@,
{
    if handle_paths_readable {
        Ok(())
    } else {
        Err(log_error(
            LogErrorKind::Unsupported,
            "configured file logging is unavailable because retained-handle path validation is unsupported on this platform",
        ))
    }
}

/// What identifies an opened file and the file now at its path: the device,
/// the file number on it, and the number of hard links.
#[derive(Clone, Copy, Debug)]
pub struct FileIdentity {
    pub device: u64,
    pub file_number: u64,
    pub links: u64,
}

/// Refuses a log file whose opened handle and path name different files, or
/// that has more than one hard link.
pub fn check_file_identity(opened: FileIdentity, current: FileIdentity) -> (r: Result<(), LogError>)
    ensures
        r is Ok <==> (opened.device == current.device && opened.file_number == current.file_number
            && opened.links == 1 && current.links == 1),
        r matches Err(e) ==> e.kind == LogErrorKind::PermissionDenied
            && e.message@ == "log path changed during open or is hard-linked"@,
{
    if opened.device != current.device || opened.file_number != current.file_number || opened.links != 1
        || current.links != 1
    {
        Err(log_error(LogErrorKind::PermissionDenied, "log path changed during open or is hard-linked"))
    } else {
        Ok(())
    }
}

/// Refuses a retained log handle whose file attributes mark a reparse point.
pub fn reject_windows_reparse_attributes(file_attributes: u32) -> (r: Result<(), LogError>)
    ensures
        r is Ok <==> file_attributes & 0x0000_0400u32 == 0,
        r matches Err(e) ==> e.kind == LogErrorKind::PermissionDenied
            && e.message@ == "retained log handle has reparse-point attributes"@,
{
    if file_attributes & 0x0000_0400u32 != 0 {
        Err(log_error(LogErrorKind::PermissionDenied, "retained log handle has reparse-point attributes"))
    } else {
        Ok(())
    }
}

/// Whether two Windows paths are the same, character for character (case
/// included, since directories may be case-sensitive).
pub fn windows_paths_match_exactly(expected: &str, opened: &str) -> (r: bool)
    ensures
        r == (expected@ == opened@),
{
    str_eq(expected, opened)
}

/// `p` with every `/` turned into `\`.
pub open spec fn backslashed(p: Seq<char>) -> Seq<char> {
    p.map_values(|c: char| if c == '/' { '\\' } else { c })
}

/// A Windows path in plain DOS form: the extended-length prefixes `\\?\` and
/// `\\?\UNC\` are removed (the latter leaving `\\`), and device paths
/// (`\\.\`) are refused.
pub open spec fn dos_path(p: Seq<char>) -> Option<Seq<char>> {
    let q = backslashed(p);
    if has_prefix(q, "\\\\?\\UNC\\"@) {
        Some("\\\\"@ + q.skip(8))
    } else if has_prefix(q, "\\\\?\\"@) {
        Some(q.skip(4))
    } else if has_prefix(q, "\\\\.\\"@) {
        None
    } else {
        Some(q)
    }
}

fn replace_slashes(p: &str) -> (r: String)
    ensures
        r@ == backslashed(p@),
{
    let chars = chars_of(p);
    let mut r = String::new();
    let mut i: usize = 0;
    proof { reveal_strlit("\\"); }
    assert(r@ =~= backslashed(p@.take(0)));
    while i < chars.len()
        invariant
            chars@ == p@,
            i <= chars.len(),
            r@ == backslashed(p@.take(i as int)),
            "\\"@ == seq!['\\'],
        decreases chars.len() - i,
    {
        if chars[i] == '/' {
            r.append("\\");
        } else {
            r.append(p.substring_char(i, i + 1));
        }
        assert(p@.subrange(i as int, i + 1) =~= seq![p@[i as int]]);
        assert(backslashed(p@.take(i + 1)) =~= backslashed(p@.take(i as int)).push(if p@[i as int] == '/' { '\\' } else { p@[i as int] }));
        i = i + 1;
    }
    assert(p@.take(chars.len() as int) =~= p@);
    r
}

/// A retained handle's Windows path in plain DOS form; device paths are
/// refused.
pub fn normalize_windows_dos_path(path: &str) -> (r: Result<String, LogError>)
    ensures
        match dos_path(path@) {
            Some(d) => r matches Ok(n) && n@ == d,
            None => r matches Err(e) && e.kind == LogErrorKind::InvalidData
                && e.message@ == "retained log handle path is not a normalized DOS path"@,
        },
{
    let q = replace_slashes(path);
    let n = q.as_str().unicode_len();
    if str_starts_with(q.as_str(), "\\\\?\\UNC\\") {
        proof { reveal_strlit("\\\\?\\UNC\\"); }
        let rest = q.as_str().substring_char(8, n);
        return Ok(concat2("\\\\", rest));
    }
    if str_starts_with(q.as_str(), "\\\\?\\") {
        proof { reveal_strlit("\\\\?\\"); }
        let rest = q.as_str().substring_char(4, n);
        return Ok(owned(rest));
    }
    if str_starts_with(q.as_str(), "\\\\.\\") {
        return Err(log_error(LogErrorKind::InvalidData, "retained log handle path is not a normalized DOS path"));
    }
    Ok(q)
}

} // verus!
