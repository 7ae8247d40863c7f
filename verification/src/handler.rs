//! The command dispatcher: it owns the store, numbers the connections and
//! executes commands against the store and a connection's session.

use crate::command::{
    command_view, error_reply, execute, execute_client, execute_get, execute_set, status_reply,
    with_attributes, CommandError, Expiry, Outcome,
};
use crate::connection::{Connection, ConnectionView};
use crate::number::ascii_to_number;
use crate::reply::{encode_error_string, encode_response_string, encode_status_string};
use crate::session::{RemoteAddress, Session, SessionView};
use crate::store::{after_expire, Entries, Store};
use crate::text::{matches_word, read_text};
use vstd::prelude::*;
use vstd::slice::slice_to_vec;
use vstd::string::StringExecFns;
use vstd::utf8::encode_utf8;

verus! {

/// The state that all connections share.
pub struct Handler {
    store: Store,
    connections: usize,
    lib_name: String,
    lib_ver: String,
}

/// The mathematical content of a [`Handler`].
pub struct HandlerView {
    /// The entries of the store.
    pub store: Entries,
    /// How many connections were taken on so far.
    pub connections: usize,
    /// The library name that a new session starts with.
    pub lib_name: Seq<char>,
    /// The library version that a new session starts with.
    pub lib_ver: Seq<char>,
}

impl View for Handler {
    type V = HandlerView;

    closed spec fn view(&self) -> HandlerView {
        HandlerView {
            store: self.store@,
            connections: self.connections,
            lib_name: self.lib_name@,
            lib_ver: self.lib_ver@,
        }
    }
}

/// The UTF-8 bytes of a text.
fn text_bytes(text: &str) -> (bytes: Vec<u8>)
    ensures
        bytes@ == encode_utf8(text@),
{
    slice_to_vec(text.as_bytes())
}

/// An outcome that sends `reply` and asks for nothing else.
fn reply_with(reply: Vec<u8>) -> (outcome: Outcome)
    ensures
        outcome@.reply == reply@,
        outcome@.expiry is None,
        !outcome@.close,
{
    Outcome { reply, expiry: None, close: false }
}

/// An outcome that sends the status `text`.
fn reply_status(text: &str) -> (outcome: Outcome)
    ensures
        outcome@.reply == status_reply(text@),
        outcome@.expiry is None,
        !outcome@.close,
{
    let line: String = encode_status_string(text);
    reply_with(text_bytes(line.as_str()))
}

/// An outcome that sends the error reply for `error`.
fn reply_error(error: CommandError) -> (outcome: Outcome)
    ensures
        outcome@.reply == error_reply(error),
        outcome@.expiry is None,
        !outcome@.close,
{
    let line: String = encode_error_string(error.message());
    reply_with(text_bytes(line.as_str()))
}

/// An outcome that closes the connection.
fn close_connection() -> (outcome: Outcome)
    ensures
        outcome@.reply == Seq::<u8>::empty(),
        outcome@.expiry is None,
        outcome@.close,
{
    Outcome { reply: Vec::new(), expiry: None, close: true }
}

impl Handler {
    /// A handler with an empty store that has taken on no connection yet.
    /// Every session starts with the library name and version given here.
    pub fn new(lib_name: String, lib_ver: String) -> (handler: Handler)
        ensures
            handler@ == (HandlerView {
                store: Map::empty(),
                connections: 0,
                lib_name: lib_name@,
                lib_ver: lib_ver@,
            }),
    {
        Handler { store: Store::new(), connections: 0, lib_name, lib_ver }
    }

    /// Takes on a new connection from `remote_address`: numbers it and gives
    /// it a session of its own and an empty buffer. Connections are numbered
    /// from one, each with the number after that of the one before it;
    /// `None` once the numbers have run out.
    pub fn handle_connection(&mut self, remote_address: RemoteAddress) -> (connection: Option<
        Connection,
    >)
        ensures
            match connection {
                Some(connection) => {
                    &&& old(self)@.connections < usize::MAX
                    &&& final(self)@ == (HandlerView {
                        connections: (old(self)@.connections + 1) as usize,
                        ..old(self)@
                    })
                    &&& connection@ == (ConnectionView {
                        session: SessionView {
                            connection_id: (old(self)@.connections + 1) as usize,
                            client_lib_name: old(self)@.lib_name,
                            client_lib_ver: old(self)@.lib_ver,
                            remote_address: remote_address@,
                        },
                        buffer: Seq::empty(),
                    })
                },
                None => old(self)@.connections == usize::MAX && final(self)@ == old(self)@,
            },
    {
        if self.connections == usize::MAX {
            return None;
        }
        self.connections = self.connections + 1;
        Some(
            Connection::new(
                Session {
                    connection_id: self.connections,
                    client_lib_name: self.lib_name.clone(),
                    client_lib_ver: self.lib_ver.clone(),
                    remote_address,
                },
            ),
        )
    }

    /// Runs the deletion that an [`Expiry`] asked for: see [`Store::expire_key`].
    pub fn expire_key(&mut self, key: &str, deadline: u64, now: u64)
        ensures
            final(self)@ == (HandlerView {
                store: after_expire(old(self)@.store, key@, deadline, now),
                ..old(self)@
            }),
    {
        self.store.expire_key(key, deadline, now);
    }

    /// Executes one command at time `now`, for the connection that `session`
    /// belongs to. Of the handler only the store can change.
    pub fn execute_one_command(
        &mut self,
        session: &mut Session,
        command_args: Vec<&[u8]>,
        now: u64,
    ) -> (outcome: Outcome)
        ensures
            ({
                let step = execute(
                    old(self)@.store,
                    old(session)@,
                    command_view(command_args@),
                    now,
                );
                &&& final(self)@ == (HandlerView { store: step.store, ..old(self)@ })
                &&& final(session)@ == step.session
                &&& outcome@ == step.outcome
            }),
    {
        proof {
            reveal(execute);
        }
        if command_args.len() == 0 {
            return reply_error(CommandError::UnknownCommand);
        }
        let verb: &[u8] = command_args[0];
        if read_text(verb).is_none() {
            return close_connection();
        }
        if matches_word(verb, "ping") {
            if command_args.len() != 1 {
                reply_error(CommandError::WrongArity)
            } else {
                reply_status("PONG")
            }
        } else if matches_word(verb, "echo") {
            if command_args.len() != 2 {
                reply_error(CommandError::WrongArity)
            } else {
                reply_with(encode_response_string(Some(command_args[1])))
            }
        } else if matches_word(verb, "set") {
            self.execute_set(&command_args, now, Ghost(session@))
        } else if matches_word(verb, "get") {
            self.execute_get(&command_args, now, Ghost(session@))
        } else if matches_word(verb, "client") {
            Self::execute_client(session, &command_args, Ghost(self@.store))
        } else {
            reply_error(CommandError::UnknownCommand)
        }
    }

    /// `SET`, on behalf of a connection whose session is `session`.
    fn execute_set(
        &mut self,
        command_args: &Vec<&[u8]>,
        now: u64,
        Ghost(session): Ghost<SessionView>,
    ) -> (outcome: Outcome)
        ensures
            ({
                let step = execute_set(old(self)@.store, session, command_view(command_args@), now);
                &&& final(self)@ == (HandlerView { store: step.store, ..old(self)@ })
                &&& session == step.session
                &&& outcome@ == step.outcome
            }),
    {
        let count: usize = command_args.len();
        if count != 3 && count != 5 {
            return reply_error(CommandError::WrongArity);
        }
        let key: &str = match read_text(command_args[1]) {
            None => {
                return close_connection();
            },
            Some(key) => key,
        };
        let value: Vec<u8> = slice_to_vec(command_args[2]);
        if count == 3 {
            self.store.set(String::from_str(key), value, None);
            return reply_status("OK");
        }
        if read_text(command_args[3]).is_none() {
            return close_connection();
        }
        if !matches_word(command_args[3], "px") {
            return reply_error(CommandError::Syntax);
        }
        let delay: u64 = match ascii_to_number(command_args[4]) {
            None => {
                return reply_error(CommandError::NotAnInteger);
            },
            Some(delay) => delay as u64,
        };
        if delay > u64::MAX - now {
            return reply_error(CommandError::ExpiryOutOfRange);
        }
        let deadline: u64 = now + delay;
        self.store.set(String::from_str(key), value, Some(deadline));
        let line: String = encode_status_string("OK");
        Outcome {
            reply: text_bytes(line.as_str()),
            expiry: Some(Expiry { key: String::from_str(key), deadline, delay }),
            close: false,
        }
    }

    /// `GET`, on behalf of a connection whose session is `session`.
    fn execute_get(
        &mut self,
        command_args: &Vec<&[u8]>,
        now: u64,
        Ghost(session): Ghost<SessionView>,
    ) -> (outcome: Outcome)
        ensures
            ({
                let step = execute_get(old(self)@.store, session, command_view(command_args@), now);
                &&& final(self)@ == (HandlerView { store: step.store, ..old(self)@ })
                &&& session == step.session
                &&& outcome@ == step.outcome
            }),
    {
        if command_args.len() != 2 {
            return reply_error(CommandError::WrongArity);
        }
        let key: &str = match read_text(command_args[1]) {
            None => {
                return close_connection();
            },
            Some(key) => key,
        };
        match self.store.get(key, now) {
            Some(value) => reply_with(encode_response_string(Some(value.as_slice()))),
            None => reply_with(encode_response_string(None)),
        }
    }

    /// `CLIENT`, while the store holds `store`.
    fn execute_client(
        session: &mut Session,
        command_args: &Vec<&[u8]>,
        Ghost(store): Ghost<Entries>,
    ) -> (outcome: Outcome)
        ensures
            ({
                let step = execute_client(store, old(session)@, command_view(command_args@));
                &&& store == step.store
                &&& final(session)@ == step.session
                &&& outcome@ == step.outcome
            }),
    {
        let count: usize = command_args.len();
        if count < 2 {
            return reply_error(CommandError::WrongArity);
        }
        let subcommand: &[u8] = command_args[1];
        if read_text(subcommand).is_none() {
            return close_connection();
        }
        if matches_word(subcommand, "info") {
            if count != 2 {
                reply_error(CommandError::WrongArity)
            } else {
                let line: Vec<u8> = session.info_line();
                reply_with(encode_response_string(Some(line.as_slice())))
            }
        } else if matches_word(subcommand, "setinfo") {
            if count < 4 || count % 2 != 0 {
                reply_error(CommandError::WrongArity)
            } else if Self::set_info(session, command_args) {
                reply_status("OK")
            } else {
                close_connection()
            }
        } else {
            reply_error(CommandError::UnknownSubcommand)
        }
    }

    /// Registers the attributes that follow `CLIENT SETINFO`. Returns whether
    /// all of them were text; if not, the session is left as it was.
    fn set_info(session: &mut Session, command_args: &Vec<&[u8]>) -> (done: bool)
        requires
            command_args@.len() >= 2,
            command_args@.len() % 2 == 0,
        ensures
            match with_attributes(old(session)@, command_view(command_args@).skip(2)) {
                Some(updated) => done && final(session)@ == updated,
                None => !done && final(session)@ == old(session)@,
            },
    {
        let count: usize = command_args.len();
        let ghost pairs = command_view(command_args@).skip(2);
        let mut lib_name: Option<String> = None;
        let mut lib_ver: Option<String> = None;
        let mut index: usize = 2;
        proof {
            assert(pairs.take(0).len() == 0);
        }
        while index < count
            invariant
                count == command_args@.len(),
                count % 2 == 0,
                index % 2 == 0,
                2 <= index <= count,
                pairs == command_view(command_args@).skip(2),
                *session == *old(session),
                with_attributes(old(session)@, pairs.take(index - 2)) == Some(
                    SessionView {
                        client_lib_name: match lib_name {
                            Some(name) => name@,
                            None => old(session)@.client_lib_name,
                        },
                        client_lib_ver: match lib_ver {
                            Some(ver) => ver@,
                            None => old(session)@.client_lib_ver,
                        },
                        ..old(session)@
                    },
                ),
            decreases count - index,
        {
            let name: &[u8] = command_args[index];
            let value: &[u8] = command_args[index + 1];
            proof {
                let seen = pairs.take(index as int);
                assert(seen.take(seen.len() - 2) =~= pairs.take(index - 2));
                assert(seen[seen.len() - 2] == name@);
                assert(seen[seen.len() - 1] == value@);
                if with_attributes(old(session)@, seen) is None {
                    lemma_with_attributes_fails(old(session)@, pairs, index as int);
                }
            }
            let text: &str = match read_text(value) {
                None => {
                    return false;
                },
                Some(text) => text,
            };
            if read_text(name).is_none() {
                return false;
            }
            if matches_word(name, "lib-name") {
                lib_name = Some(String::from_str(text));
            } else if matches_word(name, "lib-ver") {
                lib_ver = Some(String::from_str(text));
            }
            index += 2;
        }
        proof {
            assert(pairs.take(index - 2) =~= pairs);
        }
        match lib_name {
            Some(name) => {
                session.client_lib_name = name;
            },
            None => {},
        }
        match lib_ver {
            Some(ver) => {
                session.client_lib_ver = ver;
            },
            None => {},
        }
        true
    }
}

/// Once an attribute in `pairs` is not text, no later attribute can make the
/// registration succeed.
proof fn lemma_with_attributes_fails(session: SessionView, pairs: Seq<Seq<u8>>, upto: int)
    requires
        0 <= upto <= pairs.len(),
        upto % 2 == 0,
        pairs.len() % 2 == 0,
        with_attributes(session, pairs.take(upto)) is None,
    ensures
        with_attributes(session, pairs) is None,
    decreases pairs.len() - upto,
{
    if upto == pairs.len() {
        assert(pairs.take(upto) =~= pairs);
    } else {
        let next = pairs.take(upto + 2);
        assert(next.take(next.len() - 2) =~= pairs.take(upto));
        lemma_with_attributes_fails(session, pairs, upto + 2);
    }
}

} // verus!
