//! One connection: the bytes that arrived and wait for the rest of their
//! frame, and the session. Bytes come in chunks of any size; every complete
//! frame in them is executed, in order, before more bytes are asked for.

use crate::command::{execute, Expiry, ExpiryView};
use crate::frame::{
    lemma_cut_frame_is_truncated, lemma_parse_frame_bounds, lemma_parse_frame_stable, parse_frame,
    read_one_command, tail, FrameError,
};
use crate::handler::{Handler, HandlerView};
use crate::session::{Session, SessionView};
use crate::store::Entries;
use vstd::prelude::*;

verus! {

/// The state of one connection.
pub struct Connection {
    session: Session,
    buffer: Vec<u8>,
}

/// The mathematical content of a [`Connection`].
pub struct ConnectionView {
    pub session: SessionView,
    /// The bytes that arrived and belong to no complete frame yet.
    pub buffer: Seq<u8>,
}

impl View for Connection {
    type V = ConnectionView;

    closed spec fn view(&self) -> ConnectionView {
        ConnectionView { session: self.session@, buffer: self.buffer@ }
    }
}

/// The deletions that a list of [`Expiry`] values asks for.
pub open spec fn expiries_view(expiries: Seq<Expiry>) -> Seq<ExpiryView> {
    Seq::new(expiries.len(), |i: int| expiries[i]@)
}

/// What the caller has to do after a chunk of bytes was received.
#[derive(Debug, Clone)]
pub struct Output {
    /// The replies to send back, in the order of the commands.
    pub replies: Vec<u8>,
    /// The deletions to schedule.
    pub expiries: Vec<Expiry>,
    /// Whether the connection has to be closed, once the replies are sent.
    pub close: bool,
}

/// The mathematical content of an [`Output`].
pub struct OutputView {
    pub replies: Seq<u8>,
    pub expiries: Seq<ExpiryView>,
    pub close: bool,
}

impl View for Output {
    type V = OutputView;

    open spec fn view(&self) -> OutputView {
        OutputView {
            replies: self.replies@,
            expiries: expiries_view(self.expiries@),
            close: self.close,
        }
    }
}

/// The result of executing the frames in a buffer: the store and the
/// session as the commands leave them, what the caller has to do, and the
/// bytes that stay in the buffer.
pub struct Run {
    pub store: Entries,
    pub session: SessionView,
    pub output: OutputView,
    pub rest: Seq<u8>,
}

/// A run that stops where it stands, with nothing to send.
pub open spec fn stop(store: Entries, session: SessionView, rest: Seq<u8>, close: bool) -> Run {
    Run {
        store,
        session,
        output: OutputView { replies: Seq::empty(), expiries: Seq::empty(), close },
        rest,
    }
}

/// The run `later`, after `replies` and `expiries` were already gathered.
pub open spec fn after(replies: Seq<u8>, expiries: Seq<ExpiryView>, later: Run) -> Run {
    Run {
        output: OutputView {
            replies: replies + later.output.replies,
            expiries: expiries + later.output.expiries,
            close: later.output.close,
        },
        ..later
    }
}

/// The deletion that one command asks for, as a list.
pub open spec fn scheduled(expiry: Option<ExpiryView>) -> Seq<ExpiryView> {
    match expiry {
        Some(expiry) => seq![expiry],
        None => Seq::empty(),
    }
}

/// What executing the frames in `buffer` at time `now` does: frame after
/// frame is read from the front and its command executed. The run stops at
/// a frame that is not complete yet, and it stops to close the connection at
/// a malformed frame or at a command that asks for it.
pub open spec fn run(store: Entries, session: SessionView, buffer: Seq<u8>, now: u64) -> Run
    decreases buffer.len(),
    via run_terminates
{
    match parse_frame(buffer) {
        Err(FrameError::Truncated) => stop(store, session, buffer, false),
        Err(_) => stop(store, session, buffer, true),
        Ok((command, used)) => {
            let step = execute(store, session, command, now);
            let rest = tail(buffer, used as int);
            after(
                step.outcome.reply,
                scheduled(step.outcome.expiry),
                if step.outcome.close {
                    stop(step.store, step.session, rest, true)
                } else {
                    run(step.store, step.session, rest, now)
                },
            )
        },
    }
}

#[via_fn]
proof fn run_terminates(store: Entries, session: SessionView, buffer: Seq<u8>, now: u64) {
    lemma_parse_frame_bounds(buffer);
}

impl Connection {
    /// A connection on which nothing has arrived yet.
    pub fn new(session: Session) -> (connection: Connection)
        ensures
            connection@ == (ConnectionView { session: session@, buffer: Seq::empty() }),
    {
        Connection { session, buffer: Vec::new() }
    }

    /// The session of this connection.
    pub fn session(&self) -> (session: &Session)
        ensures
            session@ == self@.session,
    {
        &self.session
    }

    /// How many bytes wait for the rest of their frame. At the end of the
    /// stream, a number other than zero tells of a frame cut short.
    pub fn pending(&self) -> (count: usize)
        ensures
            count == self@.buffer.len(),
    {
        self.buffer.len()
    }

    /// Takes in a chunk of bytes that arrived at time `now` and executes
    /// every command that is now complete, in order. What is left of the
    /// chunk waits in the buffer for the bytes that follow.
    pub fn receive(&mut self, handler: &mut Handler, chunk: &[u8], now: u64) -> (output: Output)
        ensures
            ({
                let done = run(
                    old(handler)@.store,
                    old(self)@.session,
                    old(self)@.buffer + chunk@,
                    now,
                );
                &&& final(handler)@ == (HandlerView { store: done.store, ..old(handler)@ })
                &&& final(self)@ == (ConnectionView { session: done.session, buffer: done.rest })
                &&& output@ == done.output
            }),
    {
        self.buffer.extend_from_slice(chunk);
        let ghost whole = old(self)@.buffer + chunk@;
        let ghost total = run(old(handler)@.store, old(self)@.session, whole, now);
        proof {
            assert(self.buffer@ =~= whole);
        }
        let len: usize = self.buffer.len();
        let mut replies: Vec<u8> = Vec::new();
        let mut expiries: Vec<Expiry> = Vec::new();
        let mut close: bool = false;
        let mut done: bool = false;
        let mut index: usize = 0;
        proof {
            assert(tail(whole, 0) =~= whole);
            assert(expiries_view(expiries@) =~= Seq::<ExpiryView>::empty());
            let later = run(handler@.store, self.session@, tail(whole, 0), now);
            assert(replies@ + later.output.replies =~= later.output.replies);
            assert(expiries_view(expiries@) + later.output.expiries =~= later.output.expiries);
        }
        while !done
            invariant
                self.buffer@ == whole,
                len == whole.len(),
                index <= len,
                close ==> done,
                handler@ == (HandlerView { store: handler@.store, ..old(handler)@ }),
                total == after(
                    replies@,
                    expiries_view(expiries@),
                    if done {
                        stop(handler@.store, self.session@, tail(whole, index as int), close)
                    } else {
                        run(handler@.store, self.session@, tail(whole, index as int), now)
                    },
                ),
            decreases len - index + (if done { 0int } else { 1int }),
        {
            let ghost here = tail(whole, index as int);
            let ghost gathered = replies@;
            let ghost asked = expiries_view(expiries@);
            proof {
                lemma_parse_frame_bounds(here);
            }
            match read_one_command(self.buffer.as_slice(), index) {
                Err(FrameError::Truncated) => {
                    done = true;
                },
                Err(_) => {
                    close = true;
                    done = true;
                },
                Ok((command, used)) => {
                    let ghost before = (handler@.store, self.session@);
                    let outcome = handler.execute_one_command(&mut self.session, command, now);
                    let ghost step = execute(before.0, before.1, parse_frame(here)->Ok_0.0, now);
                    let mut reply: Vec<u8> = outcome.reply;
                    replies.append(&mut reply);
                    match outcome.expiry {
                        Some(expiry) => {
                            proof {
                                assert(expiries_view(expiries@.push(expiry)) =~= asked + seq![
                                    expiry@,
                                ]);
                            }
                            expiries.push(expiry);
                        },
                        None => {
                            proof {
                                assert(asked + Seq::<ExpiryView>::empty() =~= asked);
                            }
                        },
                    }
                    index += used;
                    if outcome.close {
                        close = true;
                        done = true;
                    }
                    proof {
                        assert(tail(here, used as int) =~= tail(whole, index as int));
                        let later = if done {
                            stop(handler@.store, self.session@, tail(whole, index as int), close)
                        } else {
                            run(handler@.store, self.session@, tail(whole, index as int), now)
                        };
                        let reply = step.outcome.reply;
                        let wanted = scheduled(step.outcome.expiry);
                        assert(replies@ == gathered + reply);
                        assert(expiries_view(expiries@) == asked + wanted);
                        assert(gathered + (reply + later.output.replies) =~= (gathered + reply)
                            + later.output.replies);
                        assert(asked + (wanted + later.output.expiries) =~= (asked + wanted)
                            + later.output.expiries);
                    }
                },
            }
        }
        let rest: Vec<u8> = self.buffer.split_off(index);
        self.buffer = rest;
        proof {
            assert(self.buffer@ =~= tail(whole, index as int));
            assert(replies@ + Seq::<u8>::empty() =~= replies@);
            assert(expiries_view(expiries@) + Seq::<ExpiryView>::empty() =~= expiries_view(
                expiries@,
            ));
        }
        Output { replies, expiries, close }
    }
}

/// Bytes may arrive in any number of chunks, cut at any place: receiving
/// `first` and then `second` executes the same commands, sends the same
/// replies in the same order and leaves the same state as receiving both in
/// one chunk. Where the connection is closed on the way, what arrives later
/// changes nothing of what was done.
pub proof fn lemma_chunks_do_not_matter(
    store: Entries,
    session: SessionView,
    first: Seq<u8>,
    second: Seq<u8>,
    now: u64,
)
    ensures
        ({
            let early = run(store, session, first, now);
            let whole = run(store, session, first + second, now);
            if early.output.close {
                whole == (Run { rest: early.rest + second, ..early })
            } else {
                whole == after(
                    early.output.replies,
                    early.output.expiries,
                    run(early.store, early.session, early.rest + second, now),
                )
            }
        }),
    decreases first.len(),
{
    let early = run(store, session, first, now);
    let whole = run(store, session, first + second, now);
    match parse_frame(first) {
        Err(FrameError::Truncated) => {
            assert(early.output.replies + whole.output.replies =~= whole.output.replies);
            assert(early.output.expiries + whole.output.expiries =~= whole.output.expiries);
        },
        Err(_) => {
            lemma_parse_frame_stable(first, second);
        },
        Ok((command, used)) => {
            lemma_parse_frame_stable(first, second);
            lemma_parse_frame_bounds(first);
            let step = execute(store, session, command, now);
            let rest = tail(first, used as int);
            assert(tail(first + second, used as int) =~= rest + second);
            if !step.outcome.close {
                lemma_chunks_do_not_matter(step.store, step.session, rest, second, now);
                let inner = run(step.store, step.session, rest, now);
                let reply = step.outcome.reply;
                let asked = scheduled(step.outcome.expiry);
                if inner.output.close {
                    assert(whole == (Run { rest: early.rest + second, ..early }));
                } else {
                    let late = run(inner.store, inner.session, inner.rest + second, now);
                    assert(reply + (inner.output.replies + late.output.replies) =~= (reply
                        + inner.output.replies) + late.output.replies);
                    assert(asked + (inner.output.expiries + late.output.expiries) =~= (asked
                        + inner.output.expiries) + late.output.expiries);
                }
            }
        },
    }
}

/// A frame may be cut anywhere: its first part does nothing and closes
/// nothing, it waits in the buffer; and when the rest arrives, the buffer
/// holds the frame as if it had arrived whole.
pub proof fn lemma_cut_frame_waits(
    store: Entries,
    session: SessionView,
    frame: Seq<u8>,
    cut: int,
    now: u64,
)
    requires
        parse_frame(frame) matches Ok((_, used)) && used == frame.len(),
        0 <= cut < frame.len(),
    ensures
        run(store, session, frame.take(cut), now) == stop(store, session, frame.take(cut), false),
        run(store, session, frame.take(cut), now).rest + frame.skip(cut) == frame,
{
    lemma_cut_frame_is_truncated(frame, cut);
    assert(frame.take(cut) + frame.skip(cut) =~= frame);
}

} // verus!
