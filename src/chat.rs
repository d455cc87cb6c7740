use vstd::prelude::*;

use crate::generator::matches_lower;
use crate::text::{chars_of, string_of, trim, trim_of};

verus! {

/// Shown when the assistant's session died and a fresh one replaced it.
pub const SESSION_DEATH_NOTICE: &'static str = "[Session died — respawning fresh session. Please resend your last message.]";

/// What reading the user's input gave.
#[derive(Debug, Clone, PartialEq, Eq)]
pub enum InputEvent {
    /// A line of text.
    Line(String),
    /// End of input, or an interrupt.
    Exit,
    /// A read error; a recoverable one (such as an interrupted system call)
    /// leaves the input usable.
    Error { recoverable: bool },
}

/// What the chat loop does next.
#[derive(Debug, Clone, PartialEq, Eq)]
pub enum ReplStep {
    /// Nothing to send: read the next line.
    Ignore,
    /// Send this message.
    Send(String),
    /// Say goodbye and stop.
    Quit,
    /// Warn about the input error and read again.
    Retry,
    /// Stop with the input error.
    Fail,
}

/// `t` equals the lower-case word `w`, ignoring ASCII case.
pub open spec fn is_word(t: Seq<char>, w: Seq<char>) -> bool {
    t.len() == w.len() && forall|i: int| 0 <= i < t.len() ==> matches_lower(#[trigger] t[i], w[i])
}

/// Whether `t` equals the lower-case word `w`, ignoring ASCII case.
fn word_matches(t: &Vec<char>, w: &str) -> (r: bool)
    ensures
        r == is_word(t@, w@),
{
    let ws = chars_of(w);
    if ws.len() != t.len() {
        return false;
    }
    let mut i: usize = 0;
    while i < t.len()
        invariant
            ws@ == w@,
            ws@.len() == t@.len(),
            i <= t@.len(),
            forall|k: int| 0 <= k < i ==> matches_lower(#[trigger] t@[k], w@[k]),
        decreases t@.len() - i,
    {
        let c = t[i];
        let l = ws[i];
        if !(c == l || ('A' <= c && c <= 'Z' && (c as u32) + 32 == (l as u32))) {
            return false;
        }
        i = i + 1;
    }
    true
}

/// Decide what the chat loop does with an input event: a line is trimmed; a
/// blank line is ignored, `quit` or `exit` in any ASCII case stops, any other
/// line is sent as it stands after trimming. End of input stops; a
/// recoverable read error is retried and any other fails.
pub fn repl_step(event: &InputEvent) -> (r: ReplStep)
    ensures
        match *event {
            InputEvent::Line(l) => {
                let t = trim_of(l@);
                if t.len() == 0 {
                    r == ReplStep::Ignore
                } else if is_word(t, "quit"@) || is_word(t, "exit"@) {
                    r == ReplStep::Quit
                } else {
                    r matches ReplStep::Send(m) && m@ == t
                }
            },
            InputEvent::Exit => r == ReplStep::Quit,
            InputEvent::Error { recoverable } => r == if recoverable {
                ReplStep::Retry
            } else {
                ReplStep::Fail
            },
        },
{
    match event {
        InputEvent::Line(line) => {
            let t = trim(line.as_str());
            if t.len() == 0 {
                ReplStep::Ignore
            } else if word_matches(&t, "quit") || word_matches(&t, "exit") {
                ReplStep::Quit
            } else {
                ReplStep::Send(string_of(&t))
            }
        },
        InputEvent::Exit => ReplStep::Quit,
        InputEvent::Error { recoverable } => {
            if *recoverable {
                ReplStep::Retry
            } else {
                ReplStep::Fail
            }
        },
    }
}

/// How handing a message to the assistant, or streaming its answer, ended.
#[derive(Debug, Clone, Copy, PartialEq, Eq, Structural)]
pub enum SendOutcome {
    Delivered,
    /// The session is gone; a fresh one is needed.
    SessionDied,
    /// Any other failure.
    Failed,
}

/// What to do after handing a message over or streaming the answer.
#[derive(Debug, Clone, Copy, PartialEq, Eq, Structural)]
pub enum Recovery {
    /// Go on with the same session.
    Continue,
    /// Show the session death notice, start a fresh session, and hand the
    /// message over again.
    RespawnAndResend,
    /// Show the session death notice and start a fresh session; the answer
    /// in flight is lost, so the user is asked to resend.
    Respawn,
    /// Stop with the error.
    Abort,
}

/// Recover from how a send ended: a session that died while the message was
/// handed over is replaced and the message resent; one that died while the
/// answer streamed is replaced; other failures stop the chat.
pub fn recover(outcome: SendOutcome, streaming: bool) -> (r: Recovery)
    ensures
        outcome == SendOutcome::Delivered ==> r == Recovery::Continue,
        outcome == SendOutcome::SessionDied ==> r == if streaming {
            Recovery::Respawn
        } else {
            Recovery::RespawnAndResend
        },
        outcome == SendOutcome::Failed ==> r == Recovery::Abort,
{
    match outcome {
        SendOutcome::Delivered => Recovery::Continue,
        SendOutcome::SessionDied => {
            if streaming {
                Recovery::Respawn
            } else {
                Recovery::RespawnAndResend
            }
        },
        SendOutcome::Failed => Recovery::Abort,
    }
}

} // verus!
