//! The reactor's bookkeeping: the table of live connections keyed by
//! token, and strictly increasing token allocation, so a token is
//! never reused while an old one could still be in flight.
//!
//! The readiness notifier itself (registration, polling) is an outside
//! collaborator; what is kept here is every decision about the table:
//! which token an event belongs to, which connection it reaches, and
//! that closing one connection touches no other.

use vstd::prelude::*;

use std::collections::HashMap;

use crate::codec::Frame;
use crate::conn::{close_frames, conn_wf, frames_view, spec_drain, Connection, ConnectionPhase,
    Interest};

verus! {

broadcast use vstd::std_specs::hash::group_hash_axioms;

/// The token of the listening socket.  Connection tokens start at 1.
pub const LISTENER_TOKEN: u64 = 0;

/// What a readiness event's token names: the listener, or one peer.
#[derive(Clone, Copy, PartialEq, Eq, Structural, Debug)]
pub enum TokenKind {
    Listener,
    Peer(u64),
}

/// Resolves a token once, at the top of event handling.
pub fn classify_token(t: u64) -> (r: TokenKind)
    ensures
        r == (if t == LISTENER_TOKEN {
            TokenKind::Listener
        } else {
            TokenKind::Peer(t)
        }),
{
    if t == LISTENER_TOKEN {
        TokenKind::Listener
    } else {
        TokenKind::Peer(t)
    }
}

/// The table of live connections and the token counter.
pub struct Reactor {
    pub connections: HashMap<u64, Connection>,
    pub token_counter: u64,
}

/// The reactor's invariant: every live token was allocated below the
/// counter and above the listener's, and every tracked connection
/// keeps its own invariant.
pub open spec fn reactor_wf(r: Reactor) -> bool {
    &&& r.token_counter >= 1
    &&& (forall|k: u64| #[trigger] r.connections@.contains_key(k) ==> 1 <= k < r.token_counter)
    &&& (forall|k: u64| #[trigger] r.connections@.contains_key(k) ==> conn_wf(r.connections@[k]))
}

impl Reactor {
    /// An empty table; the first connection will get token 1.
    pub fn new() -> (r: Reactor)
        ensures
            reactor_wf(r),
            r.token_counter == 1,
            r.connections@ == Map::<u64, Connection>::empty(),
    {
        Reactor { connections: HashMap::new(), token_counter: 1 }
    }

    /// A new peer was accepted: allocates the next token — fresh by
    /// the strictly increasing counter — and tracks a new connection
    /// awaiting its handshake.  No other entry moves.
    pub fn accept_connection(&mut self) -> (tok: u64)
        requires
            reactor_wf(*old(self)),
            old(self).token_counter < u64::MAX,
        ensures
            reactor_wf(*final(self)),
            tok == old(self).token_counter,
            tok != LISTENER_TOKEN,
            !old(self).connections@.contains_key(tok),
            final(self).token_counter == old(self).token_counter + 1,
            final(self).connections@.contains_key(tok),
            ({
                let c = final(self).connections@[tok];
                &&& c.phase == ConnectionPhase::AwaitingHandshake
                &&& c.interest == Interest::Read
                &&& c.read_buf@.len() == 0
                &&& c.out_queue@.len() == 0
            }),
            final(self).connections@ == old(self).connections@.insert(
                tok,
                final(self).connections@[tok],
            ),
    {
        let tok = self.token_counter;
        self.token_counter = self.token_counter + 1;
        self.connections.insert(tok, Connection::new());
        tok
    }

    /// Hands a connection out for event handling, removing it from the
    /// table; the caller restores it — or drops it, if it closed.
    pub fn take_connection(&mut self, tok: u64) -> (r: Option<Connection>)
        requires
            reactor_wf(*old(self)),
        ensures
            reactor_wf(*final(self)),
            final(self).token_counter == old(self).token_counter,
            match r {
                Some(c) => old(self).connections@.contains_key(tok)
                    && c == old(self).connections@[tok]
                    && conn_wf(c)
                    && 1 <= tok < old(self).token_counter
                    && final(self).connections@ == old(self).connections@.remove(tok),
                None => !old(self).connections@.contains_key(tok) && final(self).connections@
                    == old(self).connections@,
            },
    {
        self.connections.remove(&tok)
    }

    /// Puts a connection back under its token.
    pub fn restore_connection(&mut self, tok: u64, c: Connection)
        requires
            reactor_wf(*old(self)),
            1 <= tok < old(self).token_counter,
            conn_wf(c),
        ensures
            reactor_wf(*final(self)),
            final(self).token_counter == old(self).token_counter,
            final(self).connections@ == old(self).connections@.insert(tok, c),
    {
        self.connections.insert(tok, c);
    }

    /// Deregisters a connection in the same step that ends it: the
    /// token leaves the table, and no other tracked connection is
    /// affected.
    pub fn close_connection(&mut self, tok: u64)
        requires
            reactor_wf(*old(self)),
        ensures
            reactor_wf(*final(self)),
            final(self).token_counter == old(self).token_counter,
            !final(self).connections@.contains_key(tok),
            final(self).connections@ == old(self).connections@.remove(tok),
            forall|k: u64| k != tok ==> (#[trigger] final(self).connections@.contains_key(k)
                == old(self).connections@.contains_key(k)
                && (old(self).connections@.contains_key(k) ==> final(self).connections@[k]
                == old(self).connections@[k])),
    {
        self.connections.remove(&tok);
    }

    /// The readiness a connection currently asks for, if the token is
    /// live — what the reactor re-arms the registration with.
    pub fn interest_of(&self, tok: u64) -> (r: Option<Interest>)
        ensures
            match r {
                Some(i) => self.connections@.contains_key(tok) && i
                    == self.connections@[tok].interest,
                None => !self.connections@.contains_key(tok),
            },
    {
        match self.connections.get(&tok) {
            Some(c) => Some(c.interest),
            None => None,
        }
    }

    /// A readable event delivered bytes for an open connection: feeds
    /// them to that connection's frame pump.  A connection that closes
    /// over a bad frame leaves the table in the same step; every other
    /// token keeps its entry untouched.  Returns the decoded frames
    /// for dispatch, or `None` if the token is not live and open.
    pub fn on_frame_data(&mut self, tok: u64, data: &[u8]) -> (r: Option<Vec<Frame>>)
        requires
            reactor_wf(*old(self)),
        ensures
            reactor_wf(*final(self)),
            final(self).token_counter == old(self).token_counter,
            ({
                let live = old(self).connections@.contains_key(tok);
                if live && old(self).connections@[tok].phase == ConnectionPhase::Open {
                    let c0 = old(self).connections@[tok];
                    let d = spec_drain(c0.read_buf@ + data@);
                    &&& r matches Some(frames) && frames_view(frames@) == d.frames
                    &&& (d.error ==> final(self).connections@ == old(self).connections@.remove(
                        tok,
                    ))
                    &&& (!d.error ==> final(self).connections@.contains_key(tok) && ({
                        let c1 = final(self).connections@[tok];
                        &&& final(self).connections@ == old(self).connections@.insert(tok, c1)
                        &&& c1.read_buf@ == d.rest
                        &&& c1.handler == c0.handler
                        &&& frames_view(c1.out_queue@) == frames_view(c0.out_queue@)
                            + close_frames(d.closes)
                        &&& c1.phase == (if d.closes > 0 {
                            ConnectionPhase::Closing
                        } else {
                            ConnectionPhase::Open
                        })
                    }))
                } else {
                    r is None && final(self).connections@ == old(self).connections@
                }
            }),
    {
        match self.connections.remove(&tok) {
            None => None,
            Some(mut c) => {
                if c.phase == ConnectionPhase::Open {
                    let frames = c.on_data(data);
                    if c.phase == ConnectionPhase::Closed {
                        Some(frames)
                    } else {
                        self.connections.insert(tok, c);
                        Some(frames)
                    }
                } else {
                    self.connections.insert(tok, c);
                    proof {
                        assert(old(self).connections@.insert(tok, c) =~= old(self).connections@);
                    }
                    None
                }
            },
        }
    }
}

} // verus!
