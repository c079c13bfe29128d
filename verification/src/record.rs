//! Turning one finished command into a history entry.
use vstd::prelude::*;
use crate::schema::History;
use crate::text::{chars_of, string_of, trim_chars, trimmed};

verus! {

/// Why a command could not be recorded.
#[derive(Debug, Clone, Copy, PartialEq, Eq, Structural)]
pub enum RecordError {
    /// Neither a command nor a file holding one was given.
    MissingCommand,
}

impl RecordError {
    /// The message shown for the error.
    pub fn message(&self) -> (m: String)
        ensures
            m@ == "Either --command or --file must be provided"@,
    {
        "Either --command or --file must be provided".to_owned()
    }
}

/// The command text to record: the contents of the given file when there
/// is one, else the given command.
pub fn command_source(command: Option<String>, file_text: Option<String>) -> (r: Result<String, RecordError>)
    ensures
        match file_text {
            Some(t) => r matches Ok(c) && c@ == t@,
            None => match command {
                Some(cm) => r matches Ok(c) && c@ == cm@,
                None => r == Err::<String, RecordError>(RecordError::MissingCommand),
            },
        },
{
    match file_text {
        Some(t) => Ok(t),
        None => match command {
            Some(c) => Ok(c),
            None => Err(RecordError::MissingCommand),
        },
    }
}

/// Nanoseconds in a second.
pub const NANOS_PER_SEC: i64 = 1_000_000_000;

/// The working directory recorded when none is given: `"."`.
pub open spec fn cwd_or_dot(cwd: Option<String>) -> Seq<char> {
    match cwd {
        Some(c) => c@,
        None => seq!['.'],
    }
}

/// The arithmetic of an entry fits in 64 bits: the duration in
/// nanoseconds, and the start time it gives.
pub open spec fn times_fit(duration_secs: i64, now_nanos: i64) -> bool {
    &&& i64::MIN <= duration_secs * 1_000_000_000 <= i64::MAX
    &&& i64::MIN <= now_nanos - duration_secs * 1_000_000_000 <= i64::MAX
}

/// The entry for `command` (already trimmed), which ran for
/// `duration_secs` seconds and finished at `now_nanos`: it started
/// `duration_secs` seconds earlier.
pub fn build_history_entry(
    command: String,
    cwd: Option<String>,
    exit: i32,
    duration_secs: i64,
    now_nanos: i64,
    id: String,
    session: String,
    hostname: String,
) -> (h: History)
    requires
        times_fit(duration_secs, now_nanos),
    ensures
        h.id == id,
        h.duration == duration_secs * 1_000_000_000,
        h.timestamp == now_nanos - duration_secs * 1_000_000_000,
        h.exit == exit,
        h.command == command,
        h.cwd@ == cwd_or_dot(cwd),
        h.session == session,
        h.hostname == hostname,
        h.deleted_at is None,
{
    let duration = duration_secs * NANOS_PER_SEC;
    let cwd = match cwd {
        Some(c) => c,
        None => {
            let dot = ".".to_owned();
            proof {
                reveal_strlit(".");
                assert(dot@ =~= seq!['.']);
            }
            dot
        },
    };
    History {
        id,
        timestamp: now_nanos - duration,
        duration,
        exit,
        command,
        cwd,
        session,
        hostname,
        deleted_at: None,
    }
}

/// A lowercase hexadecimal digit.
pub open spec fn is_lower_hex(c: char) -> bool {
    (48 <= c as u32 <= 57) || (97 <= c as u32 <= 102)
}

/// `s` is a random (version 4) UUID in hyphenated lowercase form:
/// 8-4-4-4-12 hex digits, the version digit `4`, the variant digit one of
/// `8`, `9`, `a`, `b`.
pub open spec fn is_uuid_v4_text(s: Seq<char>) -> bool {
    &&& s.len() == 36
    &&& forall|i: int|
        0 <= i < 36 ==> if i == 8 || i == 13 || i == 18 || i == 23 {
            #[trigger] s[i] == '-'
        } else {
            is_lower_hex(s[i])
        }
    &&& s[14] == '4'
    &&& (s[19] == '8' || s[19] == '9' || s[19] == 'a' || s[19] == 'b')
}

/// `uuid::Uuid::new_v4()` written with `to_string`. The value is random;
/// the contract claims only its form, which the crate's source fixes: the
/// version and variant bits are set, and `Display` writes the hyphenated
/// lowercase form.
#[verifier::external_body]
fn new_uuid_text() -> (r: String)
    ensures
        is_uuid_v4_text(r@),
{
    uuid::Uuid::new_v4().to_string()
}

/// `hostname::get()`, the machine's name, as text; `None` when the system
/// call fails. It depends on the machine, so nothing is claimed of it.
#[verifier::external_body]
fn machine_name() -> Option<String> {
    hostname::get().ok().map(|h| h.to_string_lossy().into_owned())
}

/// The host name recorded when the machine's name cannot be read.
pub open spec fn unknown_host() -> Seq<char> {
    seq!['u', 'n', 'k', 'n', 'o', 'w', 'n']
}

/// The host name to record: the machine's name when it could be read,
/// else `"unknown"`.
pub fn host_or_unknown(name: Option<String>) -> (h: String)
    ensures
        h@ == match name {
            Some(n) => n@,
            None => unknown_host(),
        },
{
    match name {
        Some(n) => n,
        None => {
            let u = "unknown".to_owned();
            proof {
                reveal_strlit("unknown");
                assert(u@ =~= unknown_host());
            }
            u
        },
    }
}

/// Whether `command_text` is only whitespace, so that nothing is recorded
/// for it.
pub fn is_blank_command(command_text: &str) -> (b: bool)
    ensures
        b == (trimmed(command_text@).len() == 0),
{
    let chars = chars_of(command_text);
    trim_chars(&chars).len() == 0
}

/// The entry recording `command_text`, or `None` when the command is only
/// whitespace. The command is trimmed; the entry gets a fresh UUID, the
/// given session or else a fresh UUID, and this machine's name (or
/// `"unknown"`).
pub fn new_history_entry(
    command_text: &str,
    cwd: Option<String>,
    exit: i32,
    duration_secs: i64,
    now_nanos: i64,
    session: Option<String>,
) -> (r: Option<History>)
    requires
        trimmed(command_text@).len() > 0 ==> times_fit(duration_secs, now_nanos),
    ensures
        r is None <==> trimmed(command_text@).len() == 0,
        r matches Some(h) ==> {
            &&& h.command@ == trimmed(command_text@)
            &&& h.duration == duration_secs * 1_000_000_000
            &&& h.timestamp == now_nanos - duration_secs * 1_000_000_000
            &&& h.exit == exit
            &&& h.cwd@ == cwd_or_dot(cwd)
            &&& is_uuid_v4_text(h.id@)
            &&& match session {
                Some(s) => h.session == s,
                None => is_uuid_v4_text(h.session@),
            }
            &&& h.deleted_at is None
        },
{
    let chars = chars_of(command_text);
    let t = trim_chars(&chars);
    if t.len() == 0 {
        return None;
    }
    let command = string_of(t.as_slice());
    let id = new_uuid_text();
    let session = match session {
        Some(s) => s,
        None => new_uuid_text(),
    };
    let hostname = host_or_unknown(machine_name());
    Some(build_history_entry(command, cwd, exit, duration_secs, now_nanos, id, session, hostname))
}

} // verus!
