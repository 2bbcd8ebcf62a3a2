use vstd::prelude::*;
use vstd::string::StringExecFns;

verus! {

/// Logging output target.
#[derive(Debug, Clone, Copy, PartialEq, Eq, Structural)]
pub enum LogOutput {
    Stdout,
    Stderr,
    /// Structured JSON output to stderr.
    Json,
}

/// Error returned when a log output name is not recognised.
/// `value` is the lower-cased input that failed to match.
#[derive(Debug)]
pub struct LogOutputError {
    pub value: String,
}

impl LogOutputError {
    /// The error text: `invalid log output: ` followed by the lower-cased input.
    pub fn message(&self) -> (res: String)
        ensures
            res@ == "invalid log output: "@ + self.value@,
    {
        "invalid log output: ".to_string().concat(self.value.as_str())
    }
}

/// What `LogOutput::from_lowercase` yields for an already lower-cased name.
pub open spec fn output_for_name(name: Seq<char>) -> Option<LogOutput> {
    if name == "stdout"@ {
        Some(LogOutput::Stdout)
    } else if name == "stderr"@ {
        Some(LogOutput::Stderr)
    } else if name == "json"@ {
        Some(LogOutput::Json)
    } else {
        None
    }
}

/// Exactly three lower-case names are output targets: `stdout`, `stderr`
/// and `json`, each naming its own target; every other text names none.
pub proof fn lemma_output_names(name: Seq<char>)
    ensures
        output_for_name(name) == Some(LogOutput::Stdout) <==> name == "stdout"@,
        output_for_name(name) == Some(LogOutput::Stderr) <==> name == "stderr"@,
        output_for_name(name) == Some(LogOutput::Json) <==> name == "json"@,
        output_for_name(name) is None <==> (name != "stdout"@ && name != "stderr"@ && name != "json"@),
{
    reveal_strlit("stdout");
    reveal_strlit("stderr");
    reveal_strlit("json");
    assert("stdout"@[3] != "stderr"@[3]);
    assert("stdout"@.len() != "json"@.len());
    assert("stderr"@.len() != "json"@.len());
}

/// Names `str::to_lowercase` of std: the Unicode lower-case form of a string.
pub uninterp spec fn unicode_lowercase(s: Seq<char>) -> Seq<char>;

/// Every character is ASCII.
pub open spec fn all_ascii(s: Seq<char>) -> bool {
    forall|i: int| 0 <= i < s.len() ==> (#[trigger] s[i] as int) < 128
}

/// ASCII lower-casing of a string: `A`-`Z` become `a`-`z`, the rest stays.
pub open spec fn ascii_lowercase(s: Seq<char>) -> Seq<char> {
    s.map_values(|c: char| ascii_lower(c))
}

/// Calls `str::to_lowercase`. The result is named by `unicode_lowercase`
/// (a function of the argument alone); the Unicode case tables are not
/// written out here. For an all-ASCII string the Unicode lower-case mapping
/// (which the documentation refers to) is the ASCII one, character by
/// character.
#[verifier::external_body]
fn to_lowercase(s: &str) -> (res: String)
    ensures
        res@ == unicode_lowercase(s@),
        all_ascii(s@) ==> res@ == ascii_lowercase(s@),
{
    s.to_lowercase()
}

impl LogOutput {
    /// Parses a log output name case-insensitively: the input is lower-cased
    /// (Unicode) and then matched against `stdout`, `stderr` and `json`.
    pub fn parse(s: &str) -> (res: Result<LogOutput, LogOutputError>)
        ensures
            match res {
                Ok(out) => output_for_name(unicode_lowercase(s@)) == Some(out),
                Err(e) => output_for_name(unicode_lowercase(s@)) is None && e.value@
                    == unicode_lowercase(s@),
            },
            all_ascii(s@) ==> unicode_lowercase(s@) == ascii_lowercase(s@),
            res matches Ok(out) ==> (out == LogOutput::Stdout && unicode_lowercase(s@) == "stdout"@)
                || (out == LogOutput::Stderr && unicode_lowercase(s@) == "stderr"@) || (out == LogOutput::Json
                && unicode_lowercase(s@) == "json"@),
            res is Err <==> (unicode_lowercase(s@) != "stdout"@ && unicode_lowercase(s@) != "stderr"@
                && unicode_lowercase(s@) != "json"@),
    {
        let lowered = to_lowercase(s);
        match LogOutput::from_lowercase(lowered.as_str()) {
            Some(out) => Ok(out),
            None => Err(LogOutputError { value: lowered }),
        }
    }

    /// Maps an already lower-cased name to its output target.
    pub fn from_lowercase(name: &str) -> (res: Option<LogOutput>)
        ensures
            res == output_for_name(name@),
            res == Some(LogOutput::Stdout) <==> name@ == "stdout"@,
            res == Some(LogOutput::Stderr) <==> name@ == "stderr"@,
            res == Some(LogOutput::Json) <==> name@ == "json"@,
    {
        proof {
            lemma_output_names(name@);
        }
        let name = name.to_string();
        if name == "stdout".to_string() {
            Some(LogOutput::Stdout)
        } else if name == "stderr".to_string() {
            Some(LogOutput::Stderr)
        } else if name == "json".to_string() {
            Some(LogOutput::Json)
        } else {
            None
        }
    }
}

/// Severity level, as `tracing` understands it.
#[derive(Debug, Clone, Copy, PartialEq, Eq, Structural)]
pub enum LogLevel {
    Trace,
    Debug,
    Info,
    Warn,
    Error,
}

/// ASCII lower-casing of one character; every other character is unchanged.
pub open spec fn ascii_lower(c: char) -> char {
    if 'A' <= c && c <= 'Z' {
        ((c as int) + 32) as char
    } else {
        c
    }
}

/// `s` equals the lower-case ASCII word `word` when ASCII case is ignored.
pub open spec fn eq_ignore_ascii_case(s: Seq<char>, word: Seq<char>) -> bool {
    &&& s.len() == word.len()
    &&& forall|i: int| 0 <= i < s.len() ==> ascii_lower(#[trigger] s[i]) == word[i]
}

/// The level with the given number: 1 is `Error` and 5 is `Trace`.
pub open spec fn level_of_digit(d: char) -> Option<LogLevel> {
    if d == '1' {
        Some(LogLevel::Error)
    } else if d == '2' {
        Some(LogLevel::Warn)
    } else if d == '3' {
        Some(LogLevel::Info)
    } else if d == '4' {
        Some(LogLevel::Debug)
    } else if d == '5' {
        Some(LogLevel::Trace)
    } else {
        None
    }
}

/// `s` without a leading `+` sign, if it has one.
pub open spec fn unsigned_digits(s: Seq<char>) -> Seq<char> {
    if s.len() > 0 && s[0] == '+' {
        s.drop_first()
    } else {
        s
    }
}

/// Zero or more `0` characters followed by exactly one more character.
pub open spec fn zeros_then_one(d: Seq<char>) -> bool {
    &&& d.len() > 0
    &&& forall|i: int| 0 <= i < d.len() - 1 ==> #[trigger] d[i] == '0'
}

/// The level named by a decimal number (an optional `+`, then digits whose
/// value lies in 1..=5): leading zeros, then a single digit 1 to 5.
pub open spec fn numeric_level(s: Seq<char>) -> Option<LogLevel> {
    if zeros_then_one(unsigned_digits(s)) {
        level_of_digit(unsigned_digits(s).last())
    } else {
        None
    }
}

/// What `tracing::Level` parses from `s`: a number 1-5, or one of the five
/// level names with ASCII case ignored.
pub open spec fn level_for(s: Seq<char>) -> Option<LogLevel> {
    if numeric_level(s) is Some {
        numeric_level(s)
    } else if eq_ignore_ascii_case(s, "error"@) {
        Some(LogLevel::Error)
    } else if eq_ignore_ascii_case(s, "warn"@) {
        Some(LogLevel::Warn)
    } else if eq_ignore_ascii_case(s, "info"@) {
        Some(LogLevel::Info)
    } else if eq_ignore_ascii_case(s, "debug"@) {
        Some(LogLevel::Debug)
    } else if eq_ignore_ascii_case(s, "trace"@) {
        Some(LogLevel::Trace)
    } else {
        None
    }
}

/// Calls `<tracing::Level as FromStr>::from_str`. Its source first tries
/// `usize` parsing (1 = ERROR .. 5 = TRACE) and then the five names with
/// `eq_ignore_ascii_case`; `level_for` states exactly that.
#[verifier::external_body]
fn tracing_level_from_str(s: &str) -> (res: Option<LogLevel>)
    ensures
        res == level_for(s@),
{
    match s.parse::<tracing::Level>() {
        Ok(tracing::Level::ERROR) => Some(LogLevel::Error),
        Ok(tracing::Level::WARN) => Some(LogLevel::Warn),
        Ok(tracing::Level::INFO) => Some(LogLevel::Info),
        Ok(tracing::Level::DEBUG) => Some(LogLevel::Debug),
        Ok(_) => Some(LogLevel::Trace),
        Err(_) => None,
    }
}

/// Two strings that agree up to ASCII case.
pub open spec fn same_ignoring_ascii_case(s: Seq<char>, t: Seq<char>) -> bool {
    &&& s.len() == t.len()
    &&& forall|i: int| 0 <= i < s.len() ==> ascii_lower(#[trigger] s[i]) == ascii_lower(t[i])
}

/// Characters equal up to ASCII case are equal when either is not an ASCII letter.
proof fn lemma_lower_fixes_non_letters(a: char, b: char)
    requires
        ascii_lower(a) == ascii_lower(b),
    ensures
        !('A' <= a && a <= 'Z') && !('a' <= a && a <= 'z') ==> a == b,
        !('A' <= b && b <= 'Z') && !('a' <= b && b <= 'z') ==> a == b,
{
}

/// Level parsing ignores ASCII case: strings that agree up to ASCII case
/// name the same level (or are both refused).
pub proof fn lemma_level_ignores_ascii_case(s: Seq<char>, t: Seq<char>)
    requires
        same_ignoring_ascii_case(s, t),
    ensures
        level_for(s) == level_for(t),
{
    assert forall|i: int| 0 <= i < s.len() && !('A' <= s[i] && s[i] <= 'Z') && !('a' <= s[i] && s[i] <= 'z')
        implies #[trigger] s[i] == t[i] by {
        assert(ascii_lower(s[i]) == ascii_lower(t[i]));
    }
    assert(numeric_level(s) == numeric_level(t)) by {
        let ds = unsigned_digits(s);
        let dt = unsigned_digits(t);
        if s.len() > 0 {
            lemma_lower_fixes_non_letters(s[0], t[0]);
            assert((s[0] == '+') == (t[0] == '+'));
        }
        assert(ds.len() == dt.len());
        assert forall|i: int| 0 <= i < ds.len() implies (#[trigger] ds[i]) == '0' <==> dt[i] == '0' by {
            if s.len() > 0 && s[0] == '+' {
                assert(ds[i] == s[i + 1]);
                assert(dt[i] == t[i + 1]);
                assert(ascii_lower(s[i + 1]) == ascii_lower(t[i + 1]));
            } else {
                assert(ascii_lower(s[i]) == ascii_lower(t[i]));
            }
            lemma_lower_fixes_non_letters(ds[i], dt[i]);
        }
        if ds.len() > 0 {
            if zeros_then_one(ds) {
                assert forall|i: int| 0 <= i < dt.len() - 1 implies #[trigger] dt[i] == '0' by {
                    assert(ds[i] == '0');
                }
            }
            if zeros_then_one(dt) {
                assert forall|i: int| 0 <= i < ds.len() - 1 implies #[trigger] ds[i] == '0' by {
                    assert(dt[i] == '0');
                }
            }
            let k = ds.len() - 1;
            if s.len() > 0 && s[0] == '+' {
                assert(ascii_lower(s[k + 1]) == ascii_lower(t[k + 1]));
            } else {
                assert(ascii_lower(s[k]) == ascii_lower(t[k]));
            }
            lemma_lower_fixes_non_letters(ds[k], dt[k]);
            assert(level_of_digit(ds.last()) == level_of_digit(dt.last()));
        }
    }
    assert forall|w: Seq<char>| #[trigger] eq_ignore_ascii_case(s, w) == eq_ignore_ascii_case(t, w) by {
        if eq_ignore_ascii_case(s, w) {
            assert forall|i: int| 0 <= i < t.len() implies ascii_lower(#[trigger] t[i]) == w[i] by {
                assert(ascii_lower(s[i]) == w[i]);
            }
        }
        if eq_ignore_ascii_case(t, w) {
            assert forall|i: int| 0 <= i < s.len() implies ascii_lower(#[trigger] s[i]) == w[i] by {
                assert(ascii_lower(t[i]) == w[i]);
            }
        }
    }
    assert(eq_ignore_ascii_case(s, "error"@) == eq_ignore_ascii_case(t, "error"@));
    assert(eq_ignore_ascii_case(s, "warn"@) == eq_ignore_ascii_case(t, "warn"@));
    assert(eq_ignore_ascii_case(s, "info"@) == eq_ignore_ascii_case(t, "info"@));
    assert(eq_ignore_ascii_case(s, "debug"@) == eq_ignore_ascii_case(t, "debug"@));
    assert(eq_ignore_ascii_case(s, "trace"@) == eq_ignore_ascii_case(t, "trace"@));
}

/// Log output parsing ignores ASCII case on ASCII input: two all-ASCII
/// strings that agree up to ASCII case lower-case (as `LogOutput::parse`
/// does) to the same text, so they name the same output or are both refused.
pub proof fn lemma_output_ignores_ascii_case(s: Seq<char>, t: Seq<char>)
    requires
        all_ascii(s),
        all_ascii(t),
        same_ignoring_ascii_case(s, t),
    ensures
        ascii_lowercase(s) == ascii_lowercase(t),
        output_for_name(ascii_lowercase(s)) == output_for_name(ascii_lowercase(t)),
{
    assert(ascii_lowercase(s) =~= ascii_lowercase(t));
}

/// Errors of the logging set-up.
#[derive(Debug)]
pub enum LoggingError {
    /// The configured level is not a level name; holds the configured text.
    InvalidLevel(String),
}

impl LoggingError {
    /// The error text: `invalid log level: ` followed by the configured level.
    pub fn message(&self) -> (res: String)
        ensures
            match self {
                LoggingError::InvalidLevel(level) => res@ == "invalid log level: "@ + level@,
            },
    {
        match self {
            LoggingError::InvalidLevel(level) => "invalid log level: ".to_string().concat(level.as_str()),
        }
    }
}

/// Parses a log level the way `tracing` does.
pub fn parse_level(level: &str) -> (res: Result<LogLevel, LoggingError>)
    ensures
        match res {
            Ok(l) => level_for(level@) == Some(l),
            Err(LoggingError::InvalidLevel(text)) => level_for(level@) is None && text@ == level@,
        },
{
    match tracing_level_from_str(level) {
        Some(l) => Ok(l),
        None => Err(LoggingError::InvalidLevel(level.to_string())),
    }
}

/// Logging configuration matching the `logging` section in config.yaml.
#[derive(Debug, Clone)]
pub struct LoggingConfig {
    pub level: String,
    pub output: LogOutput,
}

impl Default for LoggingConfig {
    fn default() -> (res: LoggingConfig)
        ensures
            res.level@ == "info"@,
            res.output == LogOutput::Json,
    {
        LoggingConfig { level: "info".to_string(), output: LogOutput::Json }
    }
}

/// Where formatted log lines are written.
#[derive(Debug, Clone, Copy, PartialEq, Eq, Structural)]
pub enum LogWriter {
    Stdout,
    Stderr,
}

/// The subscriber to install, as decided from a `LoggingConfig`.
#[derive(Debug)]
pub struct LoggingPlan {
    /// The level that the configuration names.
    pub level: LogLevel,
    /// The filter directive used when `RUST_LOG` is not set: the configured level text.
    pub directive: String,
    pub writer: LogWriter,
    /// Structured JSON lines (with target and current span) in place of plain text.
    pub json: bool,
}

/// The writer and format that an output target selects: `stdout` and `stderr`
/// give plain text on that stream, `json` gives JSON on stderr.
pub open spec fn writer_for(output: LogOutput) -> LogWriter {
    match output {
        LogOutput::Stdout => LogWriter::Stdout,
        _ => LogWriter::Stderr,
    }
}

/// Decides the subscriber for `config`, refusing a level that is not valid.
pub fn logging_plan(config: &LoggingConfig) -> (res: Result<LoggingPlan, LoggingError>)
    ensures
        match res {
            Ok(plan) => {
                &&& level_for(config.level@) == Some(plan.level)
                &&& plan.directive@ == config.level@
                &&& plan.writer == writer_for(config.output)
                &&& plan.json == (config.output == LogOutput::Json)
            },
            Err(LoggingError::InvalidLevel(text)) => level_for(config.level@) is None && text@
                == config.level@,
        },
{
    let level = parse_level(config.level.as_str())?;
    let writer = match config.output {
        LogOutput::Stdout => LogWriter::Stdout,
        _ => LogWriter::Stderr,
    };
    let json = match config.output {
        LogOutput::Json => true,
        _ => false,
    };
    Ok(LoggingPlan { level, directive: config.level.clone(), writer, json })
}

impl std::str::FromStr for LogOutput {
    type Err = LogOutputError;

    /// Same as `LogOutput::parse`.
    fn from_str(s: &str) -> (res: Result<LogOutput, LogOutputError>)
        ensures
            match res {
                Ok(out) => output_for_name(unicode_lowercase(s@)) == Some(out),
                Err(e) => output_for_name(unicode_lowercase(s@)) is None && e.value@
                    == unicode_lowercase(s@),
            },
            all_ascii(s@) ==> unicode_lowercase(s@) == ascii_lowercase(s@),
            res matches Ok(out) ==> (out == LogOutput::Stdout && unicode_lowercase(s@) == "stdout"@)
                || (out == LogOutput::Stderr && unicode_lowercase(s@) == "stderr"@) || (out == LogOutput::Json
                && unicode_lowercase(s@) == "json"@),
            res is Err <==> (unicode_lowercase(s@) != "stdout"@ && unicode_lowercase(s@) != "stderr"@
                && unicode_lowercase(s@) != "json"@),
    {
        LogOutput::parse(s)
    }
}

} // verus!
