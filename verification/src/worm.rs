//! Propagating the chain to the next host: the per-hop engine.
//!
//! One hop runs one engine. The engine owns every decision of the hop —
//! which step follows which, which key to try next, when to fall back from
//! the direct binary transfer to the shell-encoded transfer, and which
//! failure ends the hop — as a state machine over plain events. The
//! unverifiable outside work (the network transport, the secure-shell
//! session) is performed by the process around the library, which carries
//! out each [`Action`] the engine asks for and feeds the outcome back in as
//! an [`Event`].

use crate::codec::{chunked_lines, encode_printf_lines};
use crate::strutil::str_views;
use vstd::prelude::*;
use vstd::string::*;

verus! {

/// Why one transfer strategy failed: an I/O failure or a transport-layer
/// failure. Kept per strategy so the final failure can show both attempts.
#[derive(Clone, Copy, Debug, PartialEq, Eq, Structural)]
pub enum UploadExecutableError {
    IO,
    SSH,
}

/// The typed failure of a hop, by the stage that could not complete.
#[derive(Clone, Copy, Debug, PartialEq, Eq, Structural)]
pub enum Error {
    /// Opening the network transport to the next host failed.
    ConnectionFailed,
    /// The secure-transport handshake was rejected.
    TransportHandshakeFailed,
    /// No identity offered by the local authentication agent was accepted,
    /// or the agent could not be consulted.
    AuthenticationFailed,
    /// Both transfer strategies failed; carries the direct-channel failure
    /// and then the shell-path failure.
    UploadFailed(UploadExecutableError, UploadExecutableError),
    /// Starting the uploaded copy, or handing the configuration to it,
    /// failed.
    ExecuteFailed,
}

/// Where a hop stands.
#[derive(Clone, Copy, Debug, PartialEq, Eq, Structural)]
pub enum Stage {
    /// Opening the network transport.
    Connecting,
    /// Performing the secure-transport handshake.
    Handshaking,
    /// Asking the local agent for its identities.
    AwaitingAgent,
    /// Trying the agent's identities in order: the next one to try and how
    /// many there are.
    Authenticating { next_key: usize, key_count: usize },
    /// Trying the direct binary file-transfer sub-channel.
    UploadingScp,
    /// Fallen back to the shell-encoded transfer; remembers why the direct
    /// channel failed.
    UploadingShell { scp_err: UploadExecutableError },
    /// Starting the uploaded copy on the remote host.
    Executing,
    /// Streaming the next hop's configuration into the remote copy.
    HandingOff,
    /// The remote copy runs and holds the chain configuration.
    Done,
    /// The hop failed; no retry.
    Failed(Error),
}

/// What the driver reports back to the engine.
#[derive(Clone, Copy, Debug, PartialEq, Eq, Structural)]
pub enum Event {
    Connected,
    ConnectFailed,
    HandshakeCompleted,
    HandshakeFailed,
    /// The agent listed this many identities.
    AgentKeysListed(usize),
    AgentFailed,
    AuthSucceeded,
    AuthRejected,
    ScpUploaded,
    ScpFailed(UploadExecutableError),
    ShellUploaded,
    ShellUploadFailed(UploadExecutableError),
    Executed,
    ExecuteFailed,
    HandoffWritten,
    HandoffFailed,
}

/// What the engine asks the driver to do next.
#[derive(Clone, Copy, Debug, PartialEq, Eq, Structural)]
pub enum Action {
    /// Open the network transport to the current host.
    Connect,
    /// Set up the secure transport and shake hands.
    Handshake,
    /// Connect to the local agent and list its identities.
    ListAgentKeys,
    /// Try authenticating with the identity at this index.
    TryAuthKey(usize),
    /// Try the direct binary file-transfer sub-channel.
    UploadScp,
    /// Try the shell-encoded transfer.
    UploadShell,
    /// Execute the uploaded copy on the remote host.
    Execute,
    /// Write the framed next-hop configuration to the remote copy's input.
    WriteHandoff,
    /// The hop is over, in success or failure; do nothing further.
    Halt,
}

/// The action a stage is waiting on.
pub open spec fn action_of(s: Stage) -> Action {
    match s {
        Stage::Connecting => Action::Connect,
        Stage::Handshaking => Action::Handshake,
        Stage::AwaitingAgent => Action::ListAgentKeys,
        Stage::Authenticating { next_key, .. } => Action::TryAuthKey(next_key),
        Stage::UploadingScp => Action::UploadScp,
        Stage::UploadingShell { .. } => Action::UploadShell,
        Stage::Executing => Action::Execute,
        Stage::HandingOff => Action::WriteHandoff,
        Stage::Done => Action::Halt,
        Stage::Failed(_) => Action::Halt,
    }
}

/// The transition relation of a hop: which stage follows which on each
/// event. An event the stage does not expect leaves it unchanged.
pub open spec fn spec_step(s: Stage, e: Event) -> Stage {
    match (s, e) {
        (Stage::Connecting, Event::Connected) => Stage::Handshaking,
        (Stage::Connecting, Event::ConnectFailed) => Stage::Failed(Error::ConnectionFailed),
        (Stage::Handshaking, Event::HandshakeCompleted) => Stage::AwaitingAgent,
        (Stage::Handshaking, Event::HandshakeFailed) => Stage::Failed(
            Error::TransportHandshakeFailed,
        ),
        (Stage::AwaitingAgent, Event::AgentKeysListed(n)) => if n == 0 {
            Stage::Failed(Error::AuthenticationFailed)
        } else {
            Stage::Authenticating { next_key: 0, key_count: n }
        },
        (Stage::AwaitingAgent, Event::AgentFailed) => Stage::Failed(Error::AuthenticationFailed),
        (Stage::Authenticating { .. }, Event::AuthSucceeded) => Stage::UploadingScp,
        (Stage::Authenticating { next_key, key_count }, Event::AuthRejected) => if next_key + 1
            < key_count {
            Stage::Authenticating { next_key: (next_key + 1) as usize, key_count }
        } else {
            Stage::Failed(Error::AuthenticationFailed)
        },
        (Stage::UploadingScp, Event::ScpUploaded) => Stage::Executing,
        (Stage::UploadingScp, Event::ScpFailed(err)) => Stage::UploadingShell { scp_err: err },
        (Stage::UploadingShell { .. }, Event::ShellUploaded) => Stage::Executing,
        (Stage::UploadingShell { scp_err }, Event::ShellUploadFailed(err)) => Stage::Failed(
            Error::UploadFailed(scp_err, err),
        ),
        (Stage::Executing, Event::Executed) => Stage::HandingOff,
        (Stage::Executing, Event::ExecuteFailed) => Stage::Failed(Error::ExecuteFailed),
        (Stage::HandingOff, Event::HandoffWritten) => Stage::Done,
        (Stage::HandingOff, Event::HandoffFailed) => Stage::Failed(Error::ExecuteFailed),
        _ => s,
    }
}

/// The per-hop propagation engine. Strictly sequential: every transition is
/// one outside operation's outcome.
#[derive(Debug)]
pub struct Engine {
    pub stage: Stage,
}

impl Engine {
    /// The key index never runs past the listed key count.
    pub open spec fn wf(self) -> bool {
        match self.stage {
            Stage::Authenticating { next_key, key_count } => next_key < key_count,
            _ => true,
        }
    }

    /// A fresh engine, about to open the transport.
    pub fn new() -> (e: Engine)
        ensures
            e.stage == Stage::Connecting,
            e.wf(),
    {
        Engine { stage: Stage::Connecting }
    }

    /// The action the engine is waiting on.
    pub fn current_action(&self) -> (a: Action)
        ensures
            a == action_of(self.stage),
    {
        match self.stage {
            Stage::Connecting => Action::Connect,
            Stage::Handshaking => Action::Handshake,
            Stage::AwaitingAgent => Action::ListAgentKeys,
            Stage::Authenticating { next_key, .. } => Action::TryAuthKey(next_key),
            Stage::UploadingScp => Action::UploadScp,
            Stage::UploadingShell { .. } => Action::UploadShell,
            Stage::Executing => Action::Execute,
            Stage::HandingOff => Action::WriteHandoff,
            Stage::Done => Action::Halt,
            Stage::Failed(_) => Action::Halt,
        }
    }

    /// Feeds one outcome in and returns the next action to perform.
    pub fn step(&mut self, ev: Event) -> (a: Action)
        requires
            old(self).wf(),
        ensures
            final(self).stage == spec_step(old(self).stage, ev),
            final(self).wf(),
            a == action_of(final(self).stage),
    {
        let next = match (self.stage, ev) {
            (Stage::Connecting, Event::Connected) => Stage::Handshaking,
            (Stage::Connecting, Event::ConnectFailed) => Stage::Failed(Error::ConnectionFailed),
            (Stage::Handshaking, Event::HandshakeCompleted) => Stage::AwaitingAgent,
            (Stage::Handshaking, Event::HandshakeFailed) => Stage::Failed(
                Error::TransportHandshakeFailed,
            ),
            (Stage::AwaitingAgent, Event::AgentKeysListed(n)) => {
                if n == 0 {
                    Stage::Failed(Error::AuthenticationFailed)
                } else {
                    Stage::Authenticating { next_key: 0, key_count: n }
                }
            },
            (Stage::AwaitingAgent, Event::AgentFailed) => Stage::Failed(
                Error::AuthenticationFailed,
            ),
            (Stage::Authenticating { .. }, Event::AuthSucceeded) => Stage::UploadingScp,
            (Stage::Authenticating { next_key, key_count }, Event::AuthRejected) => {
                if next_key + 1 < key_count {
                    Stage::Authenticating { next_key: next_key + 1, key_count }
                } else {
                    Stage::Failed(Error::AuthenticationFailed)
                }
            },
            (Stage::UploadingScp, Event::ScpUploaded) => Stage::Executing,
            (Stage::UploadingScp, Event::ScpFailed(err)) => Stage::UploadingShell {
                scp_err: err,
            },
            (Stage::UploadingShell { .. }, Event::ShellUploaded) => Stage::Executing,
            (Stage::UploadingShell { scp_err }, Event::ShellUploadFailed(err)) => Stage::Failed(
                Error::UploadFailed(scp_err, err),
            ),
            (Stage::Executing, Event::Executed) => Stage::HandingOff,
            (Stage::Executing, Event::ExecuteFailed) => Stage::Failed(Error::ExecuteFailed),
            (Stage::HandingOff, Event::HandoffWritten) => Stage::Done,
            (Stage::HandingOff, Event::HandoffFailed) => Stage::Failed(Error::ExecuteFailed),
            (s, _) => s,
        };
        self.stage = next;
        self.current_action()
    }
}

/// The permission bits the uploaded copy is given: owner read, write and
/// execute, nothing for anyone else.
pub const REMOTE_EXE_MODE: i32 = 0o700;

/// The fixed remote path the direct binary transfer writes to. The shell
/// transfer prefers a freshly generated temporary file and falls back to
/// this same path.
pub fn remote_exe_path() -> (s: String)
    ensures
        s@ == "/tmp/daisy"@,
{
    String::from_str("/tmp/daisy")
}

/// The statements that open the shell-encoded transfer: strict shell modes,
/// a restrictive file-creation mask, a uniquely-named temporary file (with a
/// fixed fallback path), and the channel's standard output redirected into
/// that file while the original stream is kept on descriptor 3.
pub open spec fn upload_preamble() -> Seq<Seq<char>> {
    seq![
        "#!/bin/sh"@,
        "set -e"@,
        "set -o pipefail"@,
        "umask 077"@,
        "file=\"$(mktemp || echo /tmp/daisy)\""@,
        "exec 3>&1"@,
        "exec 1>\"$file\""@,
    ]
}

/// The statements that close the shell-encoded transfer: the original
/// output stream restored, the spare descriptor closed, and the saved file
/// marked executable for its owner — the file is created under `umask
/// 077`, so the connecting account is the one that must be able to run it.
pub open spec fn upload_postamble() -> Seq<Seq<char>> {
    seq!["exec 1>&3"@, "exec 3>&-"@, "chmod u+x \"$file\""@]
}

/// The whole statement stream of the shell-encoded transfer for an
/// executable image: preamble, one escaped statement line per chunk of the
/// image, postamble.
pub open spec fn upload_script(exe: Seq<u8>) -> Seq<Seq<char>> {
    upload_preamble() + chunked_lines(exe) + upload_postamble()
}

/// Builds the statement stream that the shell-encoded transfer writes to
/// the remote shell, one statement per line.
pub fn build_upload_script(exe: &Vec<u8>) -> (lines: Vec<String>)
    ensures
        str_views(lines@) == upload_script(exe@),
{
    let mut lines: Vec<String> = Vec::new();
    lines.push(String::from_str("#!/bin/sh"));
    lines.push(String::from_str("set -e"));
    lines.push(String::from_str("set -o pipefail"));
    lines.push(String::from_str("umask 077"));
    lines.push(String::from_str("file=\"$(mktemp || echo /tmp/daisy)\""));
    lines.push(String::from_str("exec 3>&1"));
    lines.push(String::from_str("exec 1>\"$file\""));
    let mut body = encode_printf_lines(exe);
    let ghost body_view = body@;
    lines.append(&mut body);
    lines.push(String::from_str("exec 1>&3"));
    lines.push(String::from_str("exec 3>&-"));
    lines.push(String::from_str("chmod u+x \"$file\""));
    proof {
        assert(str_views(lines@) =~= upload_script(exe@)) by {
            assert forall|i: int| 0 <= i < lines@.len() implies str_views(lines@)[i]
                == lines@[i]@ by {}
            assert forall|i: int| 0 <= i < body_view.len() implies str_views(body_view)[i]
                == body_view[i]@ by {}
        }
    }
    lines
}

/// The statement that asks the remote shell to print the saved file's path
/// with no trailing content.
pub fn path_query_line() -> (s: String)
    ensures
        s@ == "printf '%s' \"$file\""@,
{
    String::from_str("printf '%s' \"$file\"")
}

/// What one read attempt of the drain loop reported.
#[derive(Clone, Copy, Debug, PartialEq, Eq, Structural)]
pub enum ReadEvent {
    /// End of stream.
    Eof,
    /// This many bytes arrived and were discarded.
    Data(usize),
    /// Nothing is buffered right now.
    WouldBlock,
    /// The read was interrupted before doing anything.
    Interrupted,
    /// The read failed.
    Failed,
}

/// What the drain loop does after one read attempt.
#[derive(Clone, Copy, Debug, PartialEq, Eq, Structural)]
pub enum DrainStep {
    /// Everything buffered has been discarded; go on with the transfer.
    Stop,
    /// More may be buffered; read again.
    KeepReading,
    /// The transfer is lost.
    Abort,
}

/// The decision rule of the drain loop, which discards buffered shell
/// echo without blocking: end-of-stream and would-block both mean nothing
/// is left, data and an interruption mean try again, and a real failure
/// aborts.
pub open spec fn spec_drain_decision(ev: ReadEvent) -> DrainStep {
    match ev {
        ReadEvent::Eof => DrainStep::Stop,
        ReadEvent::WouldBlock => DrainStep::Stop,
        ReadEvent::Data(_) => DrainStep::KeepReading,
        ReadEvent::Interrupted => DrainStep::KeepReading,
        ReadEvent::Failed => DrainStep::Abort,
    }
}

/// Decides what the drain loop does after one read attempt.
pub fn drain_decision(ev: ReadEvent) -> (d: DrainStep)
    ensures
        d == spec_drain_decision(ev),
{
    match ev {
        ReadEvent::Eof => DrainStep::Stop,
        ReadEvent::WouldBlock => DrainStep::Stop,
        ReadEvent::Data(_) => DrainStep::KeepReading,
        ReadEvent::Interrupted => DrainStep::KeepReading,
        ReadEvent::Failed => DrainStep::Abort,
    }
}

/// The transport error code meaning the remote policy denied the requested
/// command, after which the login shell is the fallback. This is
/// libssh2's `LIBSSH2_ERROR_CHANNEL_REQUEST_DENIED`.
pub const CHANNEL_REQUEST_DENIED: i32 = -22;

/// Whether a rejected fixed shell invocation falls back to the account's
/// login shell: only when the remote policy denied the request, not on any
/// other failure.
pub fn shell_exec_fallback(error_code: i32) -> (r: bool)
    ensures
        r == (error_code == CHANNEL_REQUEST_DENIED),
{
    error_code == CHANNEL_REQUEST_DENIED
}

/// A hop that has ended, in success or failure, stays ended: no retry.
pub proof fn lemma_terminal_stages_absorb(s: Stage, e: Event)
    requires
        s is Done || s is Failed,
    ensures
        spec_step(s, e) == s,
{
}

/// No partial success is reported as success: the engine reaches `Done`
/// only from the handoff stage, on the handoff's completion.
pub proof fn lemma_done_only_after_handoff(s: Stage, e: Event)
    requires
        s != Stage::Done,
        spec_step(s, e) == Stage::Done,
    ensures
        s == Stage::HandingOff,
        e == Event::HandoffWritten,
{
}

/// An upload failure aggregates the errors of both attempted strategies:
/// it arises only after the direct channel failed with the first error and
/// the shell path then failed with the second.
pub proof fn lemma_upload_failure_names_both_attempts(
    s: Stage,
    e: Event,
    e1: UploadExecutableError,
    e2: UploadExecutableError,
)
    requires
        s != Stage::Failed(Error::UploadFailed(e1, e2)),
        spec_step(s, e) == Stage::Failed(Error::UploadFailed(e1, e2)),
    ensures
        s == (Stage::UploadingShell { scp_err: e1 }),
        e == Event::ShellUploadFailed(e2),
{
}

} // verus!
