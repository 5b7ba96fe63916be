//! The IPC protocol between `layernotes msg <command>` and the running
//! daemon: one command line in, one reply line out.

use vstd::prelude::*;

use crate::text::{chars_of, push_str, str_eq, trim, trim_bounds, trim_end, trim_end_bound, trim_start, string_of};

verus! {

/// Command that a client can send to the daemon.
#[derive(Debug, Clone, Copy, PartialEq, Eq, Structural)]
pub enum IpcCommand {
    /// Toggle the notes between the Bottom and Top layers.
    ToggleLayer,
    /// Create a new note on the primary output and start editing it.
    AddNote,
}

/// The wire name of a command.
pub open spec fn command_name(cmd: IpcCommand) -> Seq<char> {
    match cmd {
        IpcCommand::ToggleLayer => "toggle-layer"@,
        IpcCommand::AddNote => "add-note"@,
    }
}

/// The command a wire name stands for.
pub open spec fn command_named(s: Seq<char>) -> Option<IpcCommand> {
    if s == "toggle-layer"@ {
        Some(IpcCommand::ToggleLayer)
    } else if s == "add-note"@ {
        Some(IpcCommand::AddNote)
    } else {
        None
    }
}

impl IpcCommand {
    /// The wire name, as the command is written on the socket and on the
    /// command line.
    pub fn name(&self) -> (s: String)
        ensures
            s@ == command_name(*self),
    {
        let mut s = String::new();
        match self {
            IpcCommand::ToggleLayer => push_str(&mut s, "toggle-layer"),
            IpcCommand::AddNote => push_str(&mut s, "add-note"),
        }
        s
    }

    /// The command with the given wire name, if there is one.
    pub fn parse(s: &str) -> (cmd: Option<IpcCommand>)
        ensures
            cmd == command_named(s@),
    {
        if str_eq(s, "toggle-layer") {
            Some(IpcCommand::ToggleLayer)
        } else if str_eq(s, "add-note") {
            Some(IpcCommand::AddNote)
        } else {
            None
        }
    }
}

/// The command a client's request line asks for, surrounding whitespace
/// ignored.
pub fn request_command(line: &str) -> (cmd: Option<IpcCommand>)
    ensures
        cmd == command_named(trim(line@)),
{
    let v = chars_of(line);
    let (a, b) = trim_bounds(&v, 0, v.len());
    assert(v@.subrange(0, v.len() as int) =~= line@);
    let t = string_of(&v, a, b);
    IpcCommand::parse(t.as_str())
}

/// The line a client sends for a command.
pub fn request_line(cmd: IpcCommand) -> (line: String)
    ensures
        line@ == command_name(cmd).push('\n'),
{
    let mut line = cmd.name();
    line.push('\n');
    line
}

/// What the daemon answers: `ok`, or `error <message>`.
pub fn reply_line(outcome: Result<(), &str>) -> (line: String)
    ensures
        line@ == match outcome {
            Ok(()) => "ok\n"@,
            Err(m) => "error "@ + m@ + "\n"@,
        },
{
    let mut line = String::new();
    match outcome {
        Ok(()) => push_str(&mut line, "ok\n"),
        Err(m) => {
            push_str(&mut line, "error ");
            push_str(&mut line, m);
            push_str(&mut line, "\n");
        },
    }
    line
}

/// What a client makes of the daemon's reply line.
#[derive(Debug, Clone, PartialEq, Eq)]
pub enum ClientReply {
    /// Nothing to print.
    Quiet,
    /// Print this line.
    Show(String),
    /// The daemon reported this error.
    Failed(String),
}

/// The error marker that starts a failure reply.
pub open spec fn error_prefix() -> Seq<char> {
    "error "@
}

/// A client's reading of a reply line: trailing whitespace dropped, an
/// `error ` prefix marks a failure, an empty reply prints nothing.
pub open spec fn reply_meaning(response: Seq<char>) -> (int, Seq<char>) {
    let t = trim_end(response);
    if t.len() >= 6 && t.take(6) == error_prefix() {
        (2, t.skip(6))
    } else if t.len() == 0 {
        (0, t)
    } else {
        (1, t)
    }
}

/// The kind and text of a reply, as `reply_meaning` writes them.
pub open spec fn reply_view(r: ClientReply) -> (int, Seq<char>) {
    match r {
        ClientReply::Quiet => (0, seq![]),
        ClientReply::Show(s) => (1, s@),
        ClientReply::Failed(s) => (2, s@),
    }
}

/// Interpret the daemon's reply line.
pub fn client_reply(response: &str) -> (r: ClientReply)
    ensures
        reply_view(r) == reply_meaning(response@),
{
    let v = chars_of(response);
    let b = trim_end_bound(&v, 0, v.len());
    assert(v@.subrange(0, v.len() as int) =~= response@);
    let t = Ghost(v@.subrange(0, b as int));
    let prefix = chars_of("error ");
    if b >= 6 && crate::text::range_eq(&v, 0, 6, &prefix) {
        assert(t@.take(6) =~= v@.subrange(0, 6));
        let rest = string_of(&v, 6, b);
        assert(rest@ =~= t@.skip(6));
        return ClientReply::Failed(rest);
    }
    proof {
        if b >= 6 {
            assert(t@.take(6) =~= v@.subrange(0, 6));
        }
    }
    if b == 0 {
        assert(t@ =~= seq![]);
        ClientReply::Quiet
    } else {
        ClientReply::Show(string_of(&v, 0, b))
    }
}

/// A request line that a client writes for a command is read back by the
/// daemon as that same command.
pub proof fn lemma_request_round_trip(cmd: IpcCommand)
    ensures
        command_named(trim(command_name(cmd).push('\n'))) == Some(cmd),
{
    reveal_strlit("toggle-layer");
    reveal_strlit("add-note");
    let n = command_name(cmd);
    let l = n.push('\n');
    assert(trim_start(l) == l);
    assert(l.drop_last() =~= n);
    assert(trim_end(n) == n);
    assert(trim(l) == n);
    assert("toggle-layer"@ != "add-note"@) by {
        assert("toggle-layer"@.len() != "add-note"@.len());
    }
}

/// A client reads the daemon's `ok` as a line to show, and an error reply as
/// that error, when the message is non-empty and has no trailing whitespace.
pub proof fn lemma_reply_round_trip(m: Seq<char>)
    requires
        m.len() > 0,
        trim_end(m) == m,
    ensures
        reply_meaning("ok\n"@) == (1int, "ok"@),
        reply_meaning("error "@ + m + "\n"@) == (2int, m),
{
    reveal_strlit("ok\n");
    reveal_strlit("ok");
    reveal_strlit("error ");
    reveal_strlit("\n");
    let ok = "ok\n"@;
    assert(ok.drop_last() =~= "ok"@);
    assert(trim_end("ok"@) == "ok"@);
    assert(trim_end(ok) == "ok"@);
    let e = "error "@ + m + "\n"@;
    assert(e.drop_last() =~= "error "@ + m);
    lemma_trim_end_prefix("error "@, m);
    assert(trim_end(e) == "error "@ + m);
    let t = "error "@ + m;
    assert(t.take(6) =~= "error "@);
    assert(t.skip(6) =~= m);
}

proof fn lemma_trim_end_len(s: Seq<char>)
    ensures
        trim_end(s).len() <= s.len(),
    decreases s.len(),
{
    if s.len() > 0 && crate::text::is_ws(s.last()) {
        lemma_trim_end_len(s.drop_last());
    }
}

proof fn lemma_trim_end_prefix(p: Seq<char>, m: Seq<char>)
    requires
        trim_end(m) == m,
        m.len() > 0,
    ensures
        trim_end(p + m) == p + m,
{
    if crate::text::is_ws(m.last()) {
        lemma_trim_end_len(m.drop_last());
    }
    assert((p + m).last() == m.last());
}

} // verus!
