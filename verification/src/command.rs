//! What each command means: the reply it is owed and what it changes in the
//! store and in the session of the connection that sent it.

use crate::number::number_of;
use crate::reply::{bulk_reply, error_line, null_reply, status_line};
use crate::session::{info_line, SessionView};
use crate::store::{after_get, after_set, lookup, Entries};
use crate::text::{is_word, text_of};
use vstd::prelude::*;
use vstd::utf8::encode_utf8;

verus! {

/// A command as the dispatcher sees it: the verb, then the arguments.
pub open spec fn command_view(args: Seq<&[u8]>) -> Seq<Seq<u8>> {
    Seq::new(args.len(), |i: int| args[i]@)
}

/// Why a command was answered with an error reply.
#[derive(Clone, Copy, Debug, PartialEq, Eq)]
pub enum CommandError {
    /// The verb is none of those that the server knows.
    UnknownCommand,
    /// The verb is `CLIENT`, and what follows it is no known subcommand.
    UnknownSubcommand,
    /// The command has too few or too many arguments for its verb.
    WrongArity,
    /// An optional part of the command is not spelled as the verb allows.
    Syntax,
    /// An argument that has to be a decimal number is none, or is too large.
    NotAnInteger,
    /// The deadline that the command asks for lies beyond what time can reach.
    ExpiryOutOfRange,
}

/// The text of the error reply for each kind of error.
pub open spec fn error_text(error: CommandError) -> Seq<char> {
    match error {
        CommandError::UnknownCommand => "ERR unknown command"@,
        CommandError::UnknownSubcommand => "ERR unknown subcommand"@,
        CommandError::WrongArity => "ERR wrong number of arguments"@,
        CommandError::Syntax => "ERR syntax error"@,
        CommandError::NotAnInteger => "ERR value is not an integer or out of range"@,
        CommandError::ExpiryOutOfRange => "ERR invalid expire time"@,
    }
}

impl CommandError {
    /// The text of the error reply.
    pub fn message(&self) -> (text: &'static str)
        ensures
            text@ == error_text(*self),
    {
        match self {
            CommandError::UnknownCommand => "ERR unknown command",
            CommandError::UnknownSubcommand => "ERR unknown subcommand",
            CommandError::WrongArity => "ERR wrong number of arguments",
            CommandError::Syntax => "ERR syntax error",
            CommandError::NotAnInteger => "ERR value is not an integer or out of range",
            CommandError::ExpiryOutOfRange => "ERR invalid expire time",
        }
    }
}

/// A deletion to schedule: after `delay` milliseconds, at time `deadline`,
/// the entry that was just written under `key` is due to leave the store.
#[derive(Debug, Clone)]
pub struct Expiry {
    pub key: String,
    pub deadline: u64,
    pub delay: u64,
}

/// The mathematical content of an [`Expiry`].
pub struct ExpiryView {
    pub key: Seq<char>,
    pub deadline: u64,
    pub delay: u64,
}

impl View for Expiry {
    type V = ExpiryView;

    open spec fn view(&self) -> ExpiryView {
        ExpiryView { key: self.key@, deadline: self.deadline, delay: self.delay }
    }
}

/// What the caller has to do after a command was executed.
#[derive(Debug, Clone)]
pub struct Outcome {
    /// The bytes to send back. Empty where the connection is to be closed.
    pub reply: Vec<u8>,
    /// The deletion to schedule, where the command set a deadline.
    pub expiry: Option<Expiry>,
    /// Whether the connection has to be closed: an argument that has to be
    /// text was not UTF-8.
    pub close: bool,
}

/// The mathematical content of an [`Outcome`].
pub struct OutcomeView {
    pub reply: Seq<u8>,
    pub expiry: Option<ExpiryView>,
    pub close: bool,
}

impl View for Outcome {
    type V = OutcomeView;

    open spec fn view(&self) -> OutcomeView {
        OutcomeView {
            reply: self.reply@,
            expiry: match self.expiry {
                Some(expiry) => Some(expiry@),
                None => None,
            },
            close: self.close,
        }
    }
}

/// The result of executing one command: the store and the session as the
/// command leaves them, and what the caller has to do.
pub struct Step {
    pub store: Entries,
    pub session: SessionView,
    pub outcome: OutcomeView,
}

/// The bytes of a status reply.
pub open spec fn status_reply(text: Seq<char>) -> Seq<u8> {
    encode_utf8(status_line(text))
}

/// The bytes of the error reply for `error`.
pub open spec fn error_reply(error: CommandError) -> Seq<u8> {
    encode_utf8(error_line(error_text(error)))
}

/// A step that sends `reply` and changes nothing.
pub open spec fn answer(store: Entries, session: SessionView, reply: Seq<u8>) -> Step {
    Step { store, session, outcome: OutcomeView { reply, expiry: None, close: false } }
}

/// A step that refuses the command with an error reply and changes nothing.
pub open spec fn refuse(store: Entries, session: SessionView, error: CommandError) -> Step {
    answer(store, session, error_reply(error))
}

/// A step that closes the connection, sends nothing and changes nothing.
pub open spec fn hang_up(store: Entries, session: SessionView) -> Step {
    Step { store, session, outcome: OutcomeView { reply: Seq::empty(), expiry: None, close: true } }
}

/// `PING`: answered with the status `PONG`.
pub open spec fn execute_ping(store: Entries, session: SessionView, command: Seq<Seq<u8>>) -> Step {
    if command.len() != 1 {
        refuse(store, session, CommandError::WrongArity)
    } else {
        answer(store, session, status_reply("PONG"@))
    }
}

/// `ECHO message`: answered with the message as a bulk string.
pub open spec fn execute_echo(store: Entries, session: SessionView, command: Seq<Seq<u8>>) -> Step {
    if command.len() != 2 {
        refuse(store, session, CommandError::WrongArity)
    } else {
        answer(store, session, bulk_reply(command[1]))
    }
}

/// `SET key value [PX milliseconds]`: writes the value under the key. With
/// `PX` the entry gets the deadline `now` plus the milliseconds given;
/// without it the entry has no deadline, whatever the key had before.
pub open spec fn execute_set(
    store: Entries,
    session: SessionView,
    command: Seq<Seq<u8>>,
    now: u64,
) -> Step {
    if command.len() != 3 && command.len() != 5 {
        refuse(store, session, CommandError::WrongArity)
    } else {
        match text_of(command[1]) {
            None => hang_up(store, session),
            Some(key) => {
                if command.len() == 3 {
                    Step {
                        store: after_set(store, key, command[2], None),
                        session,
                        outcome: OutcomeView {
                            reply: status_reply("OK"@),
                            expiry: None,
                            close: false,
                        },
                    }
                } else if text_of(command[3]) is None {
                    hang_up(store, session)
                } else if !is_word(command[3], "px"@) {
                    refuse(store, session, CommandError::Syntax)
                } else {
                    match number_of(command[4]) {
                        None => refuse(store, session, CommandError::NotAnInteger),
                        Some(delay) => {
                            if now + delay > u64::MAX {
                                refuse(store, session, CommandError::ExpiryOutOfRange)
                            } else {
                                let deadline = (now + delay) as u64;
                                Step {
                                    store: after_set(store, key, command[2], Some(deadline)),
                                    session,
                                    outcome: OutcomeView {
                                        reply: status_reply("OK"@),
                                        expiry: Some(
                                            ExpiryView { key, deadline, delay: delay as u64 },
                                        ),
                                        close: false,
                                    },
                                }
                            }
                        },
                    }
                }
            },
        }
    }
}

/// `GET key`: answered with the live value under the key as a bulk string,
/// or with the null bulk string. An entry found past its deadline is dropped.
pub open spec fn execute_get(
    store: Entries,
    session: SessionView,
    command: Seq<Seq<u8>>,
    now: u64,
) -> Step {
    if command.len() != 2 {
        refuse(store, session, CommandError::WrongArity)
    } else {
        match text_of(command[1]) {
            None => hang_up(store, session),
            Some(key) => answer(
                after_get(store, key, now),
                session,
                match lookup(store, key, now) {
                    Some(value) => bulk_reply(value),
                    None => null_reply(),
                },
            ),
        }
    }
}

/// The session after one attribute was registered: `lib-name` and `lib-ver`
/// are stored, any other attribute is accepted and ignored. `None` where the
/// name or the value is not text.
pub open spec fn with_attribute(session: SessionView, name: Seq<u8>, value: Seq<u8>) -> Option<
    SessionView,
> {
    match text_of(value) {
        None => None,
        Some(text) => {
            if text_of(name) is None {
                None
            } else if is_word(name, "lib-name"@) {
                Some(SessionView { client_lib_name: text, ..session })
            } else if is_word(name, "lib-ver"@) {
                Some(SessionView { client_lib_ver: text, ..session })
            } else {
                Some(session)
            }
        },
    }
}

/// The session after the attributes in `pairs`, which holds names and values
/// in turn, were registered one after the other. `None` where any of them is
/// not text.
pub open spec fn with_attributes(session: SessionView, pairs: Seq<Seq<u8>>) -> Option<SessionView>
    decreases pairs.len(),
{
    if pairs.len() < 2 {
        Some(session)
    } else {
        match with_attributes(session, pairs.take(pairs.len() - 2)) {
            None => None,
            Some(earlier) => with_attribute(
                earlier,
                pairs[pairs.len() - 2],
                pairs[pairs.len() - 1],
            ),
        }
    }
}

/// `CLIENT INFO` is answered with the line that describes the session;
/// `CLIENT SETINFO attribute value [attribute value ...]` registers what the
/// client says about itself.
pub open spec fn execute_client(store: Entries, session: SessionView, command: Seq<Seq<u8>>) -> Step {
    if command.len() < 2 {
        refuse(store, session, CommandError::WrongArity)
    } else if text_of(command[1]) is None {
        hang_up(store, session)
    } else if is_word(command[1], "info"@) {
        if command.len() != 2 {
            refuse(store, session, CommandError::WrongArity)
        } else {
            answer(store, session, bulk_reply(info_line(session)))
        }
    } else if is_word(command[1], "setinfo"@) {
        if command.len() < 4 || command.len() % 2 != 0 {
            refuse(store, session, CommandError::WrongArity)
        } else {
            match with_attributes(session, command.skip(2)) {
                None => hang_up(store, session),
                Some(updated) => answer(store, updated, status_reply("OK"@)),
            }
        }
    } else {
        refuse(store, session, CommandError::UnknownSubcommand)
    }
}

/// What executing `command` at time `now` does and answers. The verb is
/// matched without regard to case. A verb that is not text closes the
/// connection; an unknown verb is answered with an error reply.
#[verifier::opaque]
pub open spec fn execute(
    store: Entries,
    session: SessionView,
    command: Seq<Seq<u8>>,
    now: u64,
) -> Step {
    if command.len() == 0 {
        refuse(store, session, CommandError::UnknownCommand)
    } else if text_of(command[0]) is None {
        hang_up(store, session)
    } else if is_word(command[0], "ping"@) {
        execute_ping(store, session, command)
    } else if is_word(command[0], "echo"@) {
        execute_echo(store, session, command)
    } else if is_word(command[0], "set"@) {
        execute_set(store, session, command, now)
    } else if is_word(command[0], "get"@) {
        execute_get(store, session, command, now)
    } else if is_word(command[0], "client"@) {
        execute_client(store, session, command)
    } else {
        refuse(store, session, CommandError::UnknownCommand)
    }
}

} // verus!
