use vstd::prelude::*;
use std::str::FromStr;

verus! {

#[verifier::external_type_specification]
#[verifier::external_body]
pub struct ExParseLevelError(log::ParseLevelError);

/// The severity of a log record.
#[derive(PartialEq, Eq, Structural, Clone, Copy)]
pub enum LogLevel {
    Error,
    Warn,
    Info,
    Debug,
    Trace,
}

/// Which log records are let through: none, or those up to a severity.
#[derive(PartialEq, Eq, Structural, Clone, Copy)]
pub enum LogLevelFilter {
    Off,
    Error,
    Warn,
    Info,
    Debug,
    Trace,
}

/// The name of a severity, as `log` writes it.
pub open spec fn level_name(level: LogLevel) -> Seq<char> {
    match level {
        LogLevel::Error => seq!['E', 'R', 'R', 'O', 'R'],
        LogLevel::Warn => seq!['W', 'A', 'R', 'N'],
        LogLevel::Info => seq!['I', 'N', 'F', 'O'],
        LogLevel::Debug => seq!['D', 'E', 'B', 'U', 'G'],
        LogLevel::Trace => seq!['T', 'R', 'A', 'C', 'E'],
    }
}

/// The name of a filter, as `log` writes and reads it.
pub open spec fn filter_name(filter: LogLevelFilter) -> Seq<char> {
    match filter {
        LogLevelFilter::Off => seq!['O', 'F', 'F'],
        LogLevelFilter::Error => seq!['E', 'R', 'R', 'O', 'R'],
        LogLevelFilter::Warn => seq!['W', 'A', 'R', 'N'],
        LogLevelFilter::Info => seq!['I', 'N', 'F', 'O'],
        LogLevelFilter::Debug => seq!['D', 'E', 'B', 'U', 'G'],
        LogLevelFilter::Trace => seq!['T', 'R', 'A', 'C', 'E'],
    }
}

/// The ASCII lower case of a character; other characters stay as they are.
pub open spec fn ascii_lower(c: char) -> char {
    if 'A' <= c && c <= 'Z' {
        ((c as u32) + 32) as char
    } else {
        c
    }
}

/// The two texts are equal when ASCII letters are compared without regard
/// to case.
pub open spec fn equal_ignoring_ascii_case(a: Seq<char>, b: Seq<char>) -> bool {
    a.len() == b.len() && forall|i: int| 0 <= i < a.len() ==> ascii_lower(#[trigger] a[i]) == ascii_lower(b[i])
}

/// Reads the name of a log filter.
///
/// Calls `<log::LevelFilter as FromStr>::from_str`, which compares the text
/// with the names `OFF`, `ERROR`, `WARN`, `INFO`, `DEBUG` and `TRACE`
/// without regard to ASCII case and fails when none is equal.
#[verifier::external_body]
fn parse_level_filter(text: &str) -> (r: Result<LogLevelFilter, log::ParseLevelError>)
    ensures
        match r {
            Ok(filter) => equal_ignoring_ascii_case(text@, filter_name(filter)),
            Err(_) => forall|f: LogLevelFilter| !equal_ignoring_ascii_case(text@, #[trigger] filter_name(f)),
        },
{
    match log::LevelFilter::from_str(text) {
        Ok(log::LevelFilter::Off) => Ok(LogLevelFilter::Off),
        Ok(log::LevelFilter::Error) => Ok(LogLevelFilter::Error),
        Ok(log::LevelFilter::Warn) => Ok(LogLevelFilter::Warn),
        Ok(log::LevelFilter::Info) => Ok(LogLevelFilter::Info),
        Ok(log::LevelFilter::Debug) => Ok(LogLevelFilter::Debug),
        Ok(log::LevelFilter::Trace) => Ok(LogLevelFilter::Trace),
        Err(e) => Err(e),
    }
}

/// The name of a severity.
///
/// Calls `log::Level::as_str`, which returns the entry of `log`'s table of
/// names for the level: `ERROR`, `WARN`, `INFO`, `DEBUG` or `TRACE`.
#[verifier::external_body]
fn level_as_str(level: LogLevel) -> (r: &'static str)
    ensures
        r@ == level_name(level),
{
    let level = match level {
        LogLevel::Error => log::Level::Error,
        LogLevel::Warn => log::Level::Warn,
        LogLevel::Info => log::Level::Info,
        LogLevel::Debug => log::Level::Debug,
        LogLevel::Trace => log::Level::Trace,
    };
    level.as_str()
}

/// Why logging could not be set up.
pub enum LogSetupError {
    /// The configured level is not the name of a level filter; the text is
    /// what was configured.
    UnknownLevel(String),
}

/// The level setting that applies: the configured one, or `INFO`.
pub open spec fn level_setting(configured: Option<String>) -> Seq<char> {
    match configured {
        Some(text) => text@,
        None => seq!['I', 'N', 'F', 'O'],
    }
}

/// Decides the log filter from the configured level, which is `INFO` where
/// nothing is configured.  A configured name is read without regard to
/// ASCII case; a text that names no filter is refused.
pub fn get_log_level(configured: Option<String>) -> (r: Result<LogLevelFilter, LogSetupError>)
    ensures
        match r {
            Ok(filter) => equal_ignoring_ascii_case(level_setting(configured), filter_name(filter)),
            Err(LogSetupError::UnknownLevel(text)) => text@ == level_setting(configured) && forall|
                f: LogLevelFilter,
            | !equal_ignoring_ascii_case(level_setting(configured), #[trigger] filter_name(f)),
        },
        configured is None ==> r == Ok::<LogLevelFilter, LogSetupError>(LogLevelFilter::Info),
{
    let text = match configured {
        Some(text) => text,
        None => "INFO".to_owned(),
    };
    proof {
        reveal_strlit("INFO");
        assert(text@ == level_setting(configured));
    }
    match parse_level_filter(text.as_str()) {
        Ok(filter) => {
            proof {
                if configured is None {
                    lemma_filter_names_distinct(filter, LogLevelFilter::Info);
                }
            }
            Ok(filter)
        },
        Err(_) => {
            proof {
                if configured is None {
                    assert(equal_ignoring_ascii_case(text@, filter_name(LogLevelFilter::Info)));
                }
            }
            Err(LogSetupError::UnknownLevel(text))
        },
    }
}

/// Two names of filters are equal without regard to case only when the
/// filters are the same.
proof fn lemma_filter_names_distinct(a: LogLevelFilter, b: LogLevelFilter)
    requires
        equal_ignoring_ascii_case(filter_name(a), filter_name(b)),
    ensures
        a == b,
{
    let x = filter_name(a);
    let y = filter_name(b);
    assert(ascii_lower(x[0]) == ascii_lower(y[0]));
    if x.len() == 5 {
        assert(ascii_lower(x[1]) == ascii_lower(y[1]));
    }
}

/// A text names at most one filter: where a text is the name of a filter in
/// any mix of ASCII case, reading it can give no other filter.
pub proof fn lemma_level_names_unambiguous(text: Seq<char>, filter: LogLevelFilter, read: LogLevelFilter)
    requires
        equal_ignoring_ascii_case(text, filter_name(filter)),
        equal_ignoring_ascii_case(text, filter_name(read)),
    ensures
        read == filter,
{
    assert(equal_ignoring_ascii_case(filter_name(read), filter_name(filter))) by {
        assert forall|i: int| 0 <= i < filter_name(read).len() implies ascii_lower(
            #[trigger] filter_name(read)[i],
        ) == ascii_lower(filter_name(filter)[i]) by {
            assert(ascii_lower(text[i]) == ascii_lower(filter_name(read)[i]));
            assert(ascii_lower(text[i]) == ascii_lower(filter_name(filter)[i]));
        }
    }
    lemma_filter_names_distinct(read, filter);
}

/// The text of a log line: the time, the thread's name in brackets
/// (`UNKNOWN` for a thread without one), the severity, the target, a dash,
/// and the message.
pub open spec fn log_line(
    time: Seq<char>,
    thread_name: Option<Seq<char>>,
    level: LogLevel,
    target: Seq<char>,
    message: Seq<char>,
) -> Seq<char> {
    let name = match thread_name {
        Some(n) => n,
        None => "UNKNOWN"@,
    };
    time + " ["@ + name + "] "@ + level_name(level) + " "@ + target + " - "@ + message
}

/// A log line begins with the time and ends with the whole message; it is
/// as long as its parts together with the eight characters of ` [`, `] `,
/// the space after the severity and ` - `.
pub proof fn lemma_log_line_layout(
    time: Seq<char>,
    thread_name: Option<Seq<char>>,
    level: LogLevel,
    target: Seq<char>,
    message: Seq<char>,
)
    ensures
        ({
            let line = log_line(time, thread_name, level, target, message);
            let name = match thread_name {
                Some(n) => n,
                None => seq!['U', 'N', 'K', 'N', 'O', 'W', 'N'],
            };
            &&& line.len() == time.len() + name.len() + level_name(level).len() + target.len()
                + message.len() + 8
            &&& line.subrange(0, time.len() as int) == time
            &&& line.subrange(line.len() - message.len(), line.len() as int) == message
        }),
{
    reveal_strlit(" [");
    reveal_strlit("] ");
    reveal_strlit(" ");
    reveal_strlit(" - ");
    reveal_strlit("UNKNOWN");
    let line = log_line(time, thread_name, level, target, message);
    let name = match thread_name {
        Some(n) => n,
        None => seq!['U', 'N', 'K', 'N', 'O', 'W', 'N'],
    };
    assert("UNKNOWN"@ =~= seq!['U', 'N', 'K', 'N', 'O', 'W', 'N']);
    let head = time + " ["@ + name + "] "@ + level_name(level) + " "@ + target + " - "@;
    assert(line == head + message);
    assert(line.subrange(0, time.len() as int) =~= time);
    assert(line.subrange(line.len() - message.len(), line.len() as int) =~= message);
}

/// Writes a log line.
pub fn format_log_line(
    time: &str,
    thread_name: Option<&str>,
    level: LogLevel,
    target: &str,
    message: &str,
) -> (r: String)
    ensures
        r@ == log_line(
            time@,
            match thread_name {
                Some(n) => Some(n@),
                None => None,
            },
            level,
            target@,
            message@,
        ),
{
    let mut line = time.to_owned();
    line.append(" [");
    match thread_name {
        Some(name) => line.append(name),
        None => line.append("UNKNOWN"),
    }
    line.append("] ");
    line.append(level_as_str(level));
    line.append(" ");
    line.append(target);
    line.append(" - ");
    line.append(message);
    line
}

/// Where the thread that writes log lines to the standard output stands:
/// waiting for the next line, or writing out the lines that have queued up.
#[derive(PartialEq, Eq, Structural, Clone, Copy)]
pub enum OutputState {
    Waiting,
    Draining,
}

/// What the writing thread learned from its channel.
pub enum OutputEvent {
    /// Waiting gave a line.
    Received(String),
    /// Waiting failed; the text describes the failure.
    ReceiveFailed(String),
    /// Looking for a queued line found one.
    Queued(String),
    /// Looking for a queued line found none.
    QueueEmpty,
    /// Looking for a queued line found the channel closed.
    QueueClosed,
}

/// Whether the thread can learn `event` in `state`: waiting yields a line or
/// a failure, looking at the queue yields a line, nothing, or a closed
/// channel.
pub open spec fn event_fits(state: OutputState, event: OutputEvent) -> bool {
    match state {
        OutputState::Waiting => event is Received || event is ReceiveFailed,
        OutputState::Draining => event is Queued || event is QueueEmpty || event is QueueClosed,
    }
}

/// What the thread does next: the state it goes to, the text it writes to
/// the standard output, if any, and whether it flushes the output.
pub struct OutputStep {
    pub state: OutputState,
    pub write: Option<String>,
    pub flush: bool,
}

/// The state that follows an event.
pub open spec fn next_state(state: OutputState, event: OutputEvent) -> OutputState {
    match event {
        OutputEvent::Received(_) => OutputState::Draining,
        OutputEvent::ReceiveFailed(_) => OutputState::Waiting,
        OutputEvent::Queued(_) => OutputState::Draining,
        OutputEvent::QueueEmpty => OutputState::Waiting,
        OutputEvent::QueueClosed => OutputState::Draining,
    }
}

/// The text written on an event (empty where nothing is written).
pub open spec fn written_text(event: OutputEvent) -> Seq<char> {
    match event {
        OutputEvent::Received(line) => line@,
        OutputEvent::ReceiveFailed(reason) => "run_logging_output_thread recv error "@ + reason@ + "\n"@,
        OutputEvent::Queued(line) => line@,
        OutputEvent::QueueEmpty => Seq::empty(),
        OutputEvent::QueueClosed => "run_logging_output_thread try_recv disconnected error"@,
    }
}

/// Whether the output is flushed after an event: once the queue is empty,
/// and after a failed wait.
pub open spec fn flushes_after(event: OutputEvent) -> bool {
    event is QueueEmpty || event is ReceiveFailed
}

/// Decides what the writing thread does on an event: it writes each line it
/// gets, flushes once no more lines are queued, and reports a failed wait
/// or a closed channel in the output.
pub fn run_logging_output_step(state: OutputState, event: OutputEvent) -> (r: OutputStep)
    requires
        event_fits(state, event),
    ensures
        r.state == next_state(state, event),
        r.flush == flushes_after(event),
        match r.write {
            Some(text) => text@ == written_text(event) && !(event is QueueEmpty),
            None => event is QueueEmpty,
        },
{
    match event {
        OutputEvent::Received(line) => OutputStep { state: OutputState::Draining, write: Some(line), flush: false },
        OutputEvent::ReceiveFailed(reason) => {
            let mut text = "run_logging_output_thread recv error ".to_owned();
            text.append(reason.as_str());
            text.append("\n");
            OutputStep { state: OutputState::Waiting, write: Some(text), flush: true }
        },
        OutputEvent::Queued(line) => OutputStep { state: OutputState::Draining, write: Some(line), flush: false },
        OutputEvent::QueueEmpty => OutputStep { state: OutputState::Waiting, write: None, flush: true },
        OutputEvent::QueueClosed => OutputStep {
            state: OutputState::Draining,
            write: Some("run_logging_output_thread try_recv disconnected error".to_owned()),
            flush: false,
        },
    }
}

/// All that a run of events writes, in order.
pub open spec fn run_output(events: Seq<OutputEvent>) -> Seq<char>
    decreases events.len(),
{
    if events.len() == 0 {
        Seq::empty()
    } else {
        written_text(events[0]) + run_output(events.drop_first())
    }
}

/// The line that an event delivers, if it delivers one.
pub open spec fn delivered_line(event: OutputEvent) -> Seq<char> {
    match event {
        OutputEvent::Received(line) => line@,
        OutputEvent::Queued(line) => line@,
        _ => Seq::empty(),
    }
}

/// All the lines that a run of events delivers, in order.
pub open spec fn run_lines(events: Seq<OutputEvent>) -> Seq<char>
    decreases events.len(),
{
    if events.len() == 0 {
        Seq::empty()
    } else {
        delivered_line(events[0]) + run_lines(events.drop_first())
    }
}

/// Where the channel neither fails nor closes, the writing thread writes
/// exactly the lines it is given, each once, in the order it gets them.
pub proof fn lemma_lines_written_in_order(events: Seq<OutputEvent>)
    requires
        forall|i: int|
            0 <= i < events.len() ==> !(#[trigger] events[i] is ReceiveFailed) && !(events[i] is QueueClosed),
    ensures
        run_output(events) == run_lines(events),
    decreases events.len(),
{
    if events.len() > 0 {
        let rest = events.drop_first();
        assert forall|i: int| 0 <= i < rest.len() implies !(#[trigger] rest[i] is ReceiveFailed) && !(
        rest[i] is QueueClosed) by {
            assert(rest[i] == events[i + 1]);
        }
        lemma_lines_written_in_order(rest);
        assert(events[0] is Received || events[0] is Queued || events[0] is QueueEmpty);
    }
}

} // verus!
