//! Operations session journals: their entries, with credential-like values
//! hidden, and their markdown summary.
use vstd::prelude::*;

use crate::runner::{redact_secret_like_values, redacted};
use crate::text::{decimal, decimal_exec, is_alnum, owned, push_chars, push_str};

verus! {

/// One entry of a session journal.
#[derive(Clone, Debug)]
pub struct SessionEntry {
    /// Entry kind: `command`, or the kind of a note.
    pub kind: String,
    /// Seconds since the Unix epoch when the entry was added.
    pub timestamp: u64,
    /// The command run, credential-like values hidden.
    pub command: Option<String>,
    /// The command's exit status, when known.
    pub exit_status: Option<i32>,
    /// The note's message, credential-like values hidden.
    pub message: Option<String>,
    /// The plan the session follows.
    pub plan_id: Option<String>,
}

/// An operations session journal.
#[derive(Clone, Debug)]
pub struct SessionJournal {
    /// Session id.
    pub id: String,
    /// Session name, sanitized when the session started.
    pub name: String,
    /// The plan the session follows.
    pub plan_id: Option<String>,
    /// Entries, oldest first.
    pub entries: Vec<SessionEntry>,
}

/// The text of an optional string.
pub open spec fn opt_text(o: Option<String>) -> Option<Seq<char>> {
    match o {
        Some(s) => Some(s@),
        None => None,
    }
}

/// A session name: every character but ASCII letters, digits, `-` and `_`
/// becomes `-`.
pub open spec fn sanitized_name(name: Seq<char>) -> Seq<char> {
    name.map_values(|c: char| if is_alnum(c) || c == '-' || c == '_' { c } else { '-' })
}

/// Whether an entry holds exactly these values.
pub open spec fn entry_holds(
    e: SessionEntry,
    kind: Seq<char>,
    timestamp: u64,
    command: Option<Seq<char>>,
    exit_status: Option<i32>,
    message: Option<Seq<char>>,
    plan_id: Option<Seq<char>>,
) -> bool {
    &&& e.kind@ == kind
    &&& e.timestamp == timestamp
    &&& opt_text(e.command) == command
    &&& e.exit_status == exit_status
    &&& opt_text(e.message) == message
    &&& opt_text(e.plan_id) == plan_id
}

/// `after` is `before` with one more entry, and the same id, name and plan.
pub open spec fn appended_one(before: SessionJournal, after: SessionJournal) -> bool {
    &&& after.id == before.id
    &&& after.name == before.name
    &&& after.plan_id == before.plan_id
    &&& after.entries@.len() == before.entries@.len() + 1
    &&& after.entries@.drop_last() == before.entries@
}

/// Starts a session journal with no entries.
pub fn start_session(id: String, name: &str, plan_id: Option<String>) -> (j: SessionJournal)
    ensures
        j.id == id,
        j.name@ == sanitized_name(name@),
        j.plan_id == plan_id,
        j.entries@.len() == 0,
{
    SessionJournal { id, name: sanitize_session_name(name), plan_id, entries: Vec::new() }
}

/// Replaces every character but ASCII letters, digits, `-` and `_` by `-`.
pub fn sanitize_session_name(name: &str) -> (r: String)
    ensures
        r@ == sanitized_name(name@),
{
    let cs = crate::text::chars_of(name);
    let mut out = String::new();
    let mut i: usize = 0;
    while i < cs.len()
        invariant
            i <= cs.len(),
            cs@ == name@,
            out@ == sanitized_name(cs@.subrange(0, i as int)),
        decreases cs.len() - i,
    {
        let c = cs[i];
        let keep = ('a' <= c && c <= 'z') || ('A' <= c && c <= 'Z') || ('0' <= c && c <= '9') || c == '-' || c == '_';
        crate::text::push_char(&mut out, if keep { c } else { '-' });
        i = i + 1;
        assert(out@ =~= sanitized_name(cs@.subrange(0, i as int)));
    }
    assert(cs@.subrange(0, cs.len() as int) =~= cs@);
    out
}

/// Whether a session is the one named `session`, by name or by id.
pub fn session_matches(journal: &SessionJournal, session: &str) -> (r: bool)
    ensures
        r == (journal.name@ == session@ || journal.id@ == session@),
{
    crate::text::str_eq(journal.name.as_str(), session) || crate::text::str_eq(journal.id.as_str(), session)
}

/// Records a command run in the session, credential-like values hidden.
pub fn add_command(journal: &mut SessionJournal, command: &str, exit_status: Option<i32>, timestamp: u64)
    ensures
        appended_one(*old(journal), *final(journal)),
        entry_holds(final(journal).entries@.last(), "command"@, timestamp, Some(redacted(command@)),
            exit_status, None, opt_text(old(journal).plan_id)),
{
    let entry = SessionEntry {
        kind: owned("command"),
        timestamp,
        command: Some(redact_secret_like_values(command)),
        exit_status,
        message: None,
        plan_id: journal.plan_id.clone(),
    };
    journal.entries.push(entry);
    assert(journal.entries@.drop_last() =~= old(journal).entries@);
}

/// Records a note of the given kind in the session, credential-like values
/// hidden.
pub fn add_note(journal: &mut SessionJournal, note_kind: &str, message: &str, timestamp: u64)
    ensures
        appended_one(*old(journal), *final(journal)),
        entry_holds(final(journal).entries@.last(), note_kind@, timestamp, None, None,
            Some(redacted(message@)), opt_text(old(journal).plan_id)),
{
    let entry = SessionEntry {
        kind: owned(note_kind),
        timestamp,
        command: None,
        exit_status: None,
        message: Some(redact_secret_like_values(message)),
        plan_id: journal.plan_id.clone(),
    };
    journal.entries.push(entry);
    assert(journal.entries@.drop_last() =~= old(journal).entries@);
}

/// A signed number in decimal, with `-` before a negative one.
pub open spec fn signed_decimal(v: int) -> Seq<char> {
    if v < 0 {
        "-"@ + decimal((-v) as nat)
    } else {
        decimal(v as nat)
    }
}

/// ` status=N` for a known exit status, else nothing.
pub open spec fn status_text(s: Option<i32>) -> Seq<char> {
    match s {
        Some(v) => " status="@ + signed_decimal(v as int),
        None => Seq::empty(),
    }
}

/// What an entry shows: its command, else its message, else nothing.
pub open spec fn entry_detail(e: SessionEntry) -> Seq<char> {
    match e.command {
        Some(c) => c@,
        None => match e.message {
            Some(m) => m@,
            None => Seq::empty(),
        },
    }
}

/// The evidence line of an entry.
pub open spec fn entry_line(e: SessionEntry) -> Seq<char> {
    "- `"@ + e.kind@ + "` at "@ + decimal(e.timestamp as nat) + status_text(e.exit_status) + ": "@ + entry_detail(e)
        + "\n"@
}

/// The evidence lines, oldest first.
pub open spec fn entry_lines(es: Seq<SessionEntry>) -> Seq<char>
    decreases es.len(),
{
    if es.len() == 0 {
        Seq::empty()
    } else {
        entry_lines(es.drop_last()) + entry_line(es.last())
    }
}

/// The markdown summary of a session: its name, its plan when it follows
/// one, and one evidence line per entry.
pub open spec fn session_summary_text(j: SessionJournal) -> Seq<char> {
    "# Operations Session: "@ + j.name@ + "\n"@
        + match j.plan_id {
            Some(p) => "\nPlan: `"@ + p@ + "`\n"@,
            None => Seq::empty(),
        }
        + "\n## Evidence\n"@ + entry_lines(j.entries@)
}

fn decimal_u64(n: u64) -> (out: Vec<char>)
    ensures
        out@ == decimal(n as nat),
    decreases n,
{
    let d = n % 10;
    let c = if d == 0 { '0' }
        else if d == 1 { '1' }
        else if d == 2 { '2' }
        else if d == 3 { '3' }
        else if d == 4 { '4' }
        else if d == 5 { '5' }
        else if d == 6 { '6' }
        else if d == 7 { '7' }
        else if d == 8 { '8' }
        else { '9' };
    if n < 10 {
        let mut out: Vec<char> = Vec::new();
        out.push(c);
        assert(out@ =~= seq![crate::text::digit_char(n as nat)]);
        out
    } else {
        let mut out = decimal_u64(n / 10);
        out.push(c);
        out
    }
}

fn push_status(out: &mut String, status: Option<i32>)
    ensures
        final(out)@ == old(out)@ + status_text(status),
{
    match status {
        Some(v) => {
            push_str(out, " status=");
            if v < 0 {
                push_str(out, "-");
                let magnitude: u64 = (0i64 - (v as i64)) as u64;
                push_chars(out, &decimal_u64(magnitude));
            } else {
                push_chars(out, &decimal_u64(v as u64));
            }
        },
        None => {
            assert(out@ =~= old(out)@ + Seq::<char>::empty());
        },
    }
}

fn push_entry_line(out: &mut String, e: &SessionEntry)
    ensures
        final(out)@ == old(out)@ + entry_line(*e),
{
    push_str(out, "- `");
    push_str(out, e.kind.as_str());
    push_str(out, "` at ");
    push_chars(out, &decimal_u64(e.timestamp));
    push_status(out, e.exit_status);
    push_str(out, ": ");
    let ghost mid = out@;
    match &e.command {
        Some(c) => push_str(out, c.as_str()),
        None => match &e.message {
            Some(m) => push_str(out, m.as_str()),
            None => {},
        },
    }
    assert(out@ =~= mid + entry_detail(*e));
    push_str(out, "\n");
    assert(out@ =~= old(out)@ + entry_line(*e));
}

/// Renders the markdown summary of a session.
pub fn render_session_summary(journal: &SessionJournal) -> (r: String)
    ensures
        r@ == session_summary_text(*journal),
{
    let mut out = String::new();
    push_str(&mut out, "# Operations Session: ");
    push_str(&mut out, journal.name.as_str());
    push_str(&mut out, "\n");
    match &journal.plan_id {
        Some(p) => {
            push_str(&mut out, "\nPlan: `");
            push_str(&mut out, p.as_str());
            push_str(&mut out, "`\n");
        },
        None => {},
    }
    push_str(&mut out, "\n## Evidence\n");
    let ghost head = out@;
    let es = &journal.entries;
    let mut i: usize = 0;
    assert(es@.subrange(0, 0) =~= Seq::<SessionEntry>::empty());
    assert(out@ =~= head + entry_lines(es@.subrange(0, 0)));
    while i < es.len()
        invariant
            i <= es.len(),
            *es == journal.entries,
            out@ == head + entry_lines(es@.subrange(0, i as int)),
        decreases es.len() - i,
    {
        push_entry_line(&mut out, &es[i]);
        assert(es@.subrange(0, i as int + 1).drop_last() =~= es@.subrange(0, i as int));
        i = i + 1;
        assert(out@ =~= head + entry_lines(es@.subrange(0, i as int)));
    }
    assert(es@.subrange(0, es.len() as int) =~= es@);
    assert(out@ =~= session_summary_text(*journal));
    out
}

/// The status text of a session journal kept at `path`: title, path,
/// session name and id, and the number of entries.
pub open spec fn journal_status_text(path: Seq<char>, j: SessionJournal) -> Seq<char> {
    crate::cli::title_text("Operations journal"@) + "Path: "@ + path + "\n"@ + "Session: "@ + j.name@ + " ("@ + j.id@
        + ")\n"@ + "Entries: "@ + decimal(j.entries@.len()) + "\n"@
}

/// Renders the status of a session journal kept at `path`.
pub fn render_journal_status(path: &str, journal: &SessionJournal) -> (r: String)
    ensures
        r@ == journal_status_text(path@, *journal),
{
    let mut out = String::new();
    crate::cli::append_title(&mut out, "Operations journal");
    push_str(&mut out, "Path: ");
    push_str(&mut out, path);
    push_str(&mut out, "\n");
    push_str(&mut out, "Session: ");
    push_str(&mut out, journal.name.as_str());
    push_str(&mut out, " (");
    push_str(&mut out, journal.id.as_str());
    push_str(&mut out, ")\n");
    push_str(&mut out, "Entries: ");
    push_chars(&mut out, &decimal_exec(journal.entries.len()));
    push_str(&mut out, "\n");
    assert(out@ =~= journal_status_text(path@, *journal));
    out
}

} // verus!
