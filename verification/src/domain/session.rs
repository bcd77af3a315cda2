use vstd::prelude::*;

use crate::domain::connection::AuthMethod;
use crate::languages::messages::{fill, lookup, Messages};
use crate::services::ssh::{PortForwardRule, SshEvent};
use crate::text::{chars_have_prefix, chars_of, has_prefix};

verus! {

/// What a terminal session was started with, kept so that it can be restarted or cloned.
#[derive(Debug)]
pub struct SessionLaunchConfig {
    pub name: String,
    pub host: String,
    pub port: u16,
    pub username: String,
    pub auth_method: AuthMethod,
    pub forwards: Vec<PortForwardRule>,
}

/// What reaches a session's tab from its session loop: an event, or the end of the loop.
#[derive(Debug)]
pub enum SessionUpdate {
    Event(SshEvent),
    LoopEnded,
}

/// The text of message `key` in `entries`, the key itself where there is none.
pub open spec fn message_text(entries: Seq<(Seq<char>, Seq<char>)>, key: Seq<char>) -> Seq<char> {
    match lookup(entries, key) {
        Some(t) => t,
        None => key,
    }
}

/// The status after the session stopped: an error status stays, else `key`'s text.
pub open spec fn stopped_status(entries: Seq<(Seq<char>, Seq<char>)>, status: Seq<char>, key: Seq<char>) -> Seq<char> {
    if has_prefix(status, message_text(entries, "status.error_prefix"@)) {
        status
    } else {
        message_text(entries, key)
    }
}

/// The tab's connection flag and status line after an update: connected on `Connected`; an
/// error message replaces the status; a disconnect or the end of the loop clears the flag and
/// says so, unless the status reports an error; data changes neither.
pub open spec fn spec_status_after(
    entries: Seq<(Seq<char>, Seq<char>)>,
    connected: bool,
    status: Seq<char>,
    update: SessionUpdate,
) -> (bool, Seq<char>) {
    match update {
        SessionUpdate::Event(SshEvent::Connected) => (true, message_text(entries, "status.connected"@)),
        SessionUpdate::Event(SshEvent::Data(_)) => (connected, status),
        SessionUpdate::Event(SshEvent::Error(m)) => (
            connected,
            fill(message_text(entries, "status.error_with_message"@), seq![("message"@, m@)]),
        ),
        SessionUpdate::Event(SshEvent::Disconnected) => (false, stopped_status(entries, status, "status.disconnected"@)),
        SessionUpdate::LoopEnded => (false, stopped_status(entries, status, "status.session_ended"@)),
    }
}

/// Over a session's life: connecting sets the flag; data changes neither flag nor status; an
/// error keeps the flag and shows the error; a disconnect or the end of the loop clears the
/// flag, keeping a status that reports an error (it starts with the error prefix) and
/// otherwise saying that the session stopped.
pub proof fn lemma_status_after(
    entries: Seq<(Seq<char>, Seq<char>)>,
    connected: bool,
    status: Seq<char>,
    update: SessionUpdate,
)
    ensures
        ({
            let r = spec_status_after(entries, connected, status, update);
            let error_prefix = message_text(entries, "status.error_prefix"@);
            match update {
                SessionUpdate::Event(SshEvent::Connected) => r.0 && r.1 == message_text(entries, "status.connected"@),
                SessionUpdate::Event(SshEvent::Data(_)) => r == (connected, status),
                SessionUpdate::Event(SshEvent::Error(m)) => r.0 == connected && r.1 == fill(
                    message_text(entries, "status.error_with_message"@),
                    seq![("message"@, m@)],
                ),
                SessionUpdate::Event(SshEvent::Disconnected) => !r.0 && (has_prefix(status, error_prefix) ==> r.1
                    == status) && (!has_prefix(status, error_prefix) ==> r.1 == message_text(
                    entries,
                    "status.disconnected"@,
                )),
                SessionUpdate::LoopEnded => !r.0 && (has_prefix(status, error_prefix) ==> r.1 == status) && (
                !has_prefix(status, error_prefix) ==> r.1 == message_text(entries, "status.session_ended"@)),
            }
        }),
{
}

/// The tab's connection flag and status line after an update of its session loop.
pub fn status_after(messages: &Messages, connected: bool, status: &str, update: &SessionUpdate) -> (r: (bool, String))
    ensures
        r.0 == spec_status_after(messages.entries(), connected, status@, *update).0,
        r.1@ == spec_status_after(messages.entries(), connected, status@, *update).1,
{
    match update {
        SessionUpdate::Event(SshEvent::Connected) => (true, messages.get("status.connected")),
        SessionUpdate::Event(SshEvent::Data(_)) => (connected, String::from_str(status)),
        SessionUpdate::Event(SshEvent::Error(m)) => {
            let args: [(&str, &str); 1] = [("message", m.as_str())];
            let text = messages.format("status.error_with_message", &args);
            assert(args@.map_values(|a: (&str, &str)| (a.0@, a.1@)) =~= seq![("message"@, m@)]);
            (connected, text)
        },
        SessionUpdate::Event(SshEvent::Disconnected) => (false, stopped(messages, status, "status.disconnected")),
        SessionUpdate::LoopEnded => (false, stopped(messages, status, "status.session_ended")),
    }
}

fn stopped(messages: &Messages, status: &str, key: &str) -> (s: String)
    ensures
        s@ == stopped_status(messages.entries(), status@, key@),
{
    let prefix = messages.get("status.error_prefix");
    if chars_have_prefix(&chars_of(status), &chars_of(prefix.as_str())) {
        String::from_str(status)
    } else {
        messages.get(key)
    }
}

/// The banner that the terminal shows for a session error: the message between red rules.
pub fn error_banner(message: &str) -> (b: String)
    ensures
        b@ == "\r\n\x1b[1;31m--- SSH Error ---\r\n"@ + message@ + "\r\n-----------------\x1b[0m\r\n"@,
{
    let mut b = String::from_str("\r\n\x1b[1;31m--- SSH Error ---\r\n");
    b.append(message);
    b.append("\r\n-----------------\x1b[0m\r\n");
    b
}

} // verus!
