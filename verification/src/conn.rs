//! The per-connection protocol state machine.
//!
//! A connection moves AwaitingHandshake → HandshakeResponsePending →
//! Open → Closing → Closed.  While awaiting the handshake the outside
//! tokenizer feeds the handler; once it reports an upgrade the
//! connection either owes the 101 response (key present) or fails
//! (key absent).  Once open, arriving bytes are buffered and decoded
//! frame by frame; a Close frame starts the closing exchange, a
//! malformed or unmasked frame closes the connection outright.

use vstd::prelude::*;

use crate::codec::{decode_client, encode, frame_bytes, frame_wf, spec_decode,
    spec_decode_client, spec_total_len, DecodeModel, Frame, FrameModel, OpCode};
use crate::handshake::{handler_headers, header_lookup, slice_copy, HandshakeHandler};
use crate::key::{accept_key, accept_key_spec};

verus! {

/// The phase a connection is in; exactly one at a time.
#[derive(Clone, Copy, PartialEq, Eq, Structural, Debug)]
pub enum ConnectionPhase {
    AwaitingHandshake,
    HandshakeResponsePending,
    Open,
    Closing,
    Closed,
}

/// The readiness a connection currently asks the reactor to watch.
#[derive(Clone, Copy, PartialEq, Eq, Structural, Debug)]
pub enum Interest {
    Read,
    Write,
}

/// What a readable event means in the current phase.
#[derive(Clone, Copy, PartialEq, Eq, Structural, Debug)]
pub enum ReadAction {
    FeedHandshake,
    ReadFrames,
    Ignore,
}

/// The name of the header the accept key is derived from,
/// `Sec-WebSocket-Key`, as ASCII bytes.
pub open spec fn ws_key() -> Seq<u8> {
    seq![83u8, 101, 99, 45, 87, 101, 98, 83, 111, 99, 107, 101, 116, 45, 75, 101, 121]
}

/// Builds the `Sec-WebSocket-Key` header name as bytes.
pub fn ws_key_bytes() -> (r: Vec<u8>)
    ensures
        r@ == ws_key(),
{
    let mut v: Vec<u8> = Vec::new();
    v.push(83);
    v.push(101);
    v.push(99);
    v.push(45);
    v.push(87);
    v.push(101);
    v.push(98);
    v.push(83);
    v.push(111);
    v.push(99);
    v.push(107);
    v.push(101);
    v.push(116);
    v.push(45);
    v.push(75);
    v.push(101);
    v.push(121);
    proof {
        assert(v@ =~= ws_key());
    }
    v
}

/// The response text before the accept key:
/// `HTTP/1.1 101 Switching Protocols\r\nConnection: Upgrade\r\nSec-WebSocket-Accept: `.
pub open spec fn response_prefix() -> Seq<u8> {
    seq![72u8, 84, 84, 80, 47, 49, 46, 49, 32, 49, 48, 49, 32, 83, 119, 105, 116, 99, 104, 105,
        110, 103, 32, 80, 114, 111, 116, 111, 99, 111, 108, 115, 13, 10, 67, 111, 110, 110, 101,
        99, 116, 105, 111, 110, 58, 32, 85, 112, 103, 114, 97, 100, 101, 13, 10, 83, 101, 99, 45,
        87, 101, 98, 83, 111, 99, 107, 101, 116, 45, 65, 99, 99, 101, 112, 116, 58, 32]
}

/// The response text after the accept key:
/// `\r\nUpgrade: websocket\r\n\r\n`.
pub open spec fn response_suffix() -> Seq<u8> {
    seq![13u8, 10, 85, 112, 103, 114, 97, 100, 101, 58, 32, 119, 101, 98, 115, 111, 99, 107, 101,
        116, 13, 10, 13, 10]
}

/// The exact 101 response owed for a given accept key.
pub open spec fn response_bytes(accept: Seq<u8>) -> Seq<u8> {
    response_prefix() + accept + response_suffix()
}

/// Builds the response text before the accept key.
fn response_prefix_bytes() -> (r: Vec<u8>)
    ensures
        r@ == response_prefix(),
{
    let mut v: Vec<u8> = Vec::new();
    v.push(72);
    v.push(84);
    v.push(84);
    v.push(80);
    v.push(47);
    v.push(49);
    v.push(46);
    v.push(49);
    v.push(32);
    v.push(49);
    v.push(48);
    v.push(49);
    v.push(32);
    v.push(83);
    v.push(119);
    v.push(105);
    v.push(116);
    v.push(99);
    v.push(104);
    v.push(105);
    v.push(110);
    v.push(103);
    v.push(32);
    v.push(80);
    v.push(114);
    v.push(111);
    v.push(116);
    v.push(111);
    v.push(99);
    v.push(111);
    v.push(108);
    v.push(115);
    v.push(13);
    v.push(10);
    v.push(67);
    v.push(111);
    v.push(110);
    v.push(110);
    v.push(101);
    v.push(99);
    v.push(116);
    v.push(105);
    v.push(111);
    v.push(110);
    v.push(58);
    v.push(32);
    v.push(85);
    v.push(112);
    v.push(103);
    v.push(114);
    v.push(97);
    v.push(100);
    v.push(101);
    v.push(13);
    v.push(10);
    v.push(83);
    v.push(101);
    v.push(99);
    v.push(45);
    v.push(87);
    v.push(101);
    v.push(98);
    v.push(83);
    v.push(111);
    v.push(99);
    v.push(107);
    v.push(101);
    v.push(116);
    v.push(45);
    v.push(65);
    v.push(99);
    v.push(99);
    v.push(101);
    v.push(112);
    v.push(116);
    v.push(58);
    v.push(32);
    proof {
        assert(v@ =~= response_prefix());
    }
    v
}

/// Builds the response text after the accept key.
fn response_suffix_bytes() -> (r: Vec<u8>)
    ensures
        r@ == response_suffix(),
{
    let mut v: Vec<u8> = Vec::new();
    v.push(13);
    v.push(10);
    v.push(85);
    v.push(112);
    v.push(103);
    v.push(114);
    v.push(97);
    v.push(100);
    v.push(101);
    v.push(58);
    v.push(32);
    v.push(119);
    v.push(101);
    v.push(98);
    v.push(115);
    v.push(111);
    v.push(99);
    v.push(107);
    v.push(101);
    v.push(116);
    v.push(13);
    v.push(10);
    v.push(13);
    v.push(10);
    proof {
        assert(v@ =~= response_suffix());
    }
    v
}

/// The frames of a sequence, as their mathematical values.
pub open spec fn frames_view(s: Seq<Frame>) -> Seq<FrameModel> {
    Seq::new(s.len(), |i: int| s[i]@)
}

/// The Close frame a server answers a peer's Close with: final,
/// unmasked, empty.
pub open spec fn close_model() -> FrameModel {
    FrameModel {
        fin: true,
        opcode: OpCode::Close,
        masked: false,
        mask_key: None,
        payload: Seq::empty(),
    }
}

/// `n` outbound Close frames.
pub open spec fn close_frames(n: nat) -> Seq<FrameModel> {
    Seq::new(n, |i: int| close_model())
}

/// Builds the outbound Close frame.
pub fn close_frame() -> (r: Frame)
    ensures
        r@ == close_model(),
        frame_wf(r@),
{
    let r = Frame { fin: true, opcode: OpCode::Close, masked: false, mask_key: None, payload: Vec::new() };
    proof {
        assert(r@ =~= close_model());
    }
    r
}

/// What draining a buffer of client frames yields: the frames to hand
/// to the dispatch callback (Close frames are handled, not handed on),
/// the bytes left over, how many Close frames arrived, and whether a
/// malformed or unmasked frame ended the connection.
#[verifier::ext_equal]
pub struct DrainResult {
    pub frames: Seq<FrameModel>,
    pub rest: Seq<u8>,
    pub closes: nat,
    pub error: bool,
}

/// Drains complete client frames off the front of `b`, as a server
/// must: frame after frame until the bytes run short (no error) or a
/// malformed or unmasked frame appears (error).
pub open spec fn spec_drain(b: Seq<u8>) -> DrainResult
    decreases b.len(),
{
    match spec_decode_client(b) {
        DecodeModel::Incomplete => DrainResult {
            frames: Seq::empty(),
            rest: b,
            closes: 0,
            error: false,
        },
        DecodeModel::Malformed => DrainResult {
            frames: Seq::empty(),
            rest: b,
            closes: 0,
            error: true,
        },
        DecodeModel::Complete(m, n) => {
            if 1 <= n <= b.len() {
                let tail = spec_drain(b.skip(n as int));
                if m.opcode == OpCode::Close {
                    DrainResult {
                        frames: tail.frames,
                        rest: tail.rest,
                        closes: tail.closes + 1,
                        error: tail.error,
                    }
                } else {
                    DrainResult {
                        frames: seq![m] + tail.frames,
                        rest: tail.rest,
                        closes: tail.closes,
                        error: tail.error,
                    }
                }
            } else {
                // a complete frame always spans at least its two header
                // bytes and never more than the buffer; this arm is not
                // reachable
                DrainResult { frames: Seq::empty(), rest: b, closes: 0, error: true }
            }
        },
    }
}

/// A complete decode spans at least the two header bytes and at most
/// the buffer.
pub proof fn lemma_complete_bounds(b: Seq<u8>)
    requires
        spec_decode_client(b) is Complete,
    ensures
        spec_decode_client(b) matches DecodeModel::Complete(m, n) ==> 2 <= n <= b.len()
            && n == spec_total_len(b),
{
    assert(spec_decode(b) is Complete ==> b.len() >= spec_total_len(b));
}

/// One connection's protocol state: its phase, the handshake handler
/// that accumulates headers, the buffered inbound bytes, the queued
/// outbound frames, and the readiness it currently asks for.
pub struct Connection {
    pub phase: ConnectionPhase,
    pub handler: HandshakeHandler,
    pub read_buf: Vec<u8>,
    pub out_queue: Vec<Frame>,
    pub interest: Interest,
}

/// A connection's invariant: while the 101 response is owed the key
/// header is at hand, and every queued outbound frame is well formed.
pub open spec fn conn_wf(c: Connection) -> bool {
    &&& (c.phase == ConnectionPhase::HandshakeResponsePending ==> header_lookup(
        handler_headers(c.handler),
        ws_key(),
    ) is Some)
    &&& (forall|i: int| 0 <= i < c.out_queue@.len() ==> frame_wf(#[trigger] c.out_queue@[i]@))
}

impl Connection {
    /// A fresh connection: awaiting its handshake, interested in
    /// reading, with nothing buffered.
    pub fn new() -> (r: Connection)
        ensures
            r.phase == ConnectionPhase::AwaitingHandshake,
            r.interest == Interest::Read,
            r.handler.current_key is None,
            handler_headers(r.handler) == Seq::<(Seq<u8>, Seq<u8>)>::empty(),
            r.read_buf@ == Seq::<u8>::empty(),
            r.out_queue@ == Seq::<Frame>::empty(),
            conn_wf(r),
    {
        let r = Connection {
            phase: ConnectionPhase::AwaitingHandshake,
            handler: HandshakeHandler::new(),
            read_buf: Vec::new(),
            out_queue: Vec::new(),
            interest: Interest::Read,
        };
        proof {
            assert(r.read_buf@ =~= Seq::<u8>::empty());
            assert(r.out_queue@ =~= Seq::<Frame>::empty());
        }
        r
    }

    /// What a readable event means right now: feed the tokenizer while
    /// the handshake runs, decode frames once open, nothing otherwise.
    pub fn readable_action(&self) -> (r: ReadAction)
        ensures
            r == (match self.phase {
                ConnectionPhase::AwaitingHandshake => ReadAction::FeedHandshake,
                ConnectionPhase::Open => ReadAction::ReadFrames,
                _ => ReadAction::Ignore,
            }),
    {
        match self.phase {
            ConnectionPhase::AwaitingHandshake => ReadAction::FeedHandshake,
            ConnectionPhase::Open => ReadAction::ReadFrames,
            _ => ReadAction::Ignore,
        }
    }

    /// The tokenizer reported the request is an upgrade.  With the key
    /// header at hand the 101 response is now owed and the connection
    /// asks for writability; without it the handshake is invalid and
    /// the connection fails — no response will be written.
    pub fn upgrade_detected(&mut self) -> (r: bool)
        requires
            old(self).phase == ConnectionPhase::AwaitingHandshake,
            conn_wf(*old(self)),
        ensures
            conn_wf(*final(self)),
            r == (header_lookup(handler_headers(old(self).handler), ws_key()) is Some),
            final(self).phase == (if r {
                ConnectionPhase::HandshakeResponsePending
            } else {
                ConnectionPhase::Closed
            }),
            final(self).interest == (if r {
                Interest::Write
            } else {
                old(self).interest
            }),
            final(self).handler == old(self).handler,
            final(self).read_buf == old(self).read_buf,
            final(self).out_queue == old(self).out_queue,
    {
        let name = ws_key_bytes();
        match self.handler.get_header(name.as_slice()) {
            Some(_) => {
                self.phase = ConnectionPhase::HandshakeResponsePending;
                self.interest = Interest::Write;
                true
            },
            None => {
                self.phase = ConnectionPhase::Closed;
                false
            },
        }
    }

    /// The peer went away (disconnect or read failure): the connection
    /// is closed, whatever it was doing.
    pub fn peer_closed(&mut self)
        requires
            conn_wf(*old(self)),
        ensures
            conn_wf(*final(self)),
            final(self).phase == ConnectionPhase::Closed,
            final(self).handler == old(self).handler,
            final(self).read_buf == old(self).read_buf,
            final(self).out_queue == old(self).out_queue,
            final(self).interest == old(self).interest,
    {
        self.phase = ConnectionPhase::Closed;
    }

    /// The socket became writable while the 101 response was owed:
    /// derives the accept key from the stored `Sec-WebSocket-Key`,
    /// returns the exact response bytes to write, opens the
    /// connection, and asks for readability again.
    pub fn handshake_response(&mut self) -> (r: Vec<u8>)
        requires
            old(self).phase == ConnectionPhase::HandshakeResponsePending,
            conn_wf(*old(self)),
        ensures
            conn_wf(*final(self)),
            r@ == response_bytes(
                accept_key_spec(
                    header_lookup(handler_headers(old(self).handler), ws_key()).unwrap(),
                ),
            ),
            final(self).phase == ConnectionPhase::Open,
            final(self).interest == Interest::Read,
            final(self).handler == old(self).handler,
            final(self).read_buf == old(self).read_buf,
            final(self).out_queue == old(self).out_queue,
    {
        let name = ws_key_bytes();
        let key = match self.handler.get_header(name.as_slice()) {
            Some(v) => v,
            None => {
                proof {
                    assert(false);
                }
                Vec::new()
            },
        };
        let mut out = response_prefix_bytes();
        let mut accept = accept_key(&key);
        out.append(&mut accept);
        let mut suffix = response_suffix_bytes();
        out.append(&mut suffix);
        self.phase = ConnectionPhase::Open;
        self.interest = Interest::Read;
        proof {
            assert(out@ =~= response_bytes(
                accept_key_spec(
                    header_lookup(handler_headers(old(self).handler), ws_key()).unwrap(),
                ),
            ));
        }
        out
    }

    /// Newly read bytes arrived on an open connection: buffers them
    /// and decodes frame after frame until the bytes run short or a
    /// bad frame appears.  Returns the frames for the dispatch
    /// callback; each Close frame instead starts the closing exchange
    /// and queues the answering Close; a malformed or unmasked frame
    /// closes the connection.
    pub fn on_data(&mut self, data: &[u8]) -> (r: Vec<Frame>)
        requires
            old(self).phase == ConnectionPhase::Open,
            conn_wf(*old(self)),
        ensures
            conn_wf(*final(self)),
            ({
                let d = spec_drain(old(self).read_buf@ + data@);
                &&& frames_view(r@) == d.frames
                &&& final(self).read_buf@ == d.rest
                &&& frames_view(final(self).out_queue@) == frames_view(old(self).out_queue@)
                    + close_frames(d.closes)
                &&& final(self).phase == (if d.error {
                    ConnectionPhase::Closed
                } else if d.closes > 0 {
                    ConnectionPhase::Closing
                } else {
                    ConnectionPhase::Open
                })
                &&& final(self).handler == old(self).handler
                &&& final(self).interest == (if !d.error && old(self).out_queue@.len() + d.closes
                    > 0 {
                    Interest::Write
                } else {
                    old(self).interest
                })
            }),
    {
        let mut arrived = slice_copy(data);
        self.read_buf.append(&mut arrived);
        let ghost init = self.read_buf@;
        let ghost d = spec_drain(init);
        let ghost oq0 = self.out_queue@;
        proof {
            assert(init == old(self).read_buf@ + data@);
        }
        let mut frames: Vec<Frame> = Vec::new();
        let mut done: bool = false;
        let mut error: bool = false;
        let mut saw_close: bool = false;
        while !done
            invariant
                conn_wf(*old(self)),
                d == spec_drain(init),
                self.handler == old(self).handler,
                self.interest == old(self).interest,
                oq0 == old(self).out_queue@,
                oq0.len() <= self.out_queue@.len(),
                frames_view(self.out_queue@) == frames_view(oq0) + close_frames(
                    (self.out_queue@.len() - oq0.len()) as nat,
                ),
                forall|i: int| 0 <= i < self.out_queue@.len() ==> frame_wf(
                    #[trigger] self.out_queue@[i]@,
                ),
                saw_close == (self.out_queue@.len() > oq0.len()),
                self.phase == (if error {
                    ConnectionPhase::Closed
                } else if saw_close {
                    ConnectionPhase::Closing
                } else {
                    ConnectionPhase::Open
                }),
                error ==> done,
                !error ==> d.frames == frames_view(frames@) + spec_drain(self.read_buf@).frames,
                !error ==> d.closes == (self.out_queue@.len() - oq0.len()) + spec_drain(
                    self.read_buf@,
                ).closes,
                !error ==> d.error == spec_drain(self.read_buf@).error,
                !error ==> d.rest == spec_drain(self.read_buf@).rest,
                error ==> d.frames == frames_view(frames@) && d.closes == (self.out_queue@.len()
                    - oq0.len()) && d.error && d.rest == self.read_buf@,
                done && !error ==> spec_decode_client(self.read_buf@) is Incomplete,
            decreases self.read_buf@.len(), (if done {
                0int
            } else {
                1int
            }),
        {
            let step = decode_client(&self.read_buf);
            match step {
                Ok(None) => {
                    done = true;
                },
                Err(_) => {
                    error = true;
                    done = true;
                    self.phase = ConnectionPhase::Closed;
                },
                Ok(Some((f, n))) => {
                    let ghost b = self.read_buf@;
                    let ghost fv0 = frames_view(frames@);
                    let ghost q0 = self.out_queue@;
                    let ghost tail = spec_drain(b.skip(n as int));
                    proof {
                        lemma_complete_bounds(b);
                    }
                    let rest = self.read_buf.split_off(n);
                    self.read_buf = rest;
                    proof {
                        assert(self.read_buf@ =~= b.skip(n as int));
                    }
                    let is_close = match f.opcode {
                        OpCode::Close => true,
                        _ => false,
                    };
                    if is_close {
                        self.out_queue.push(close_frame());
                        saw_close = true;
                        self.phase = ConnectionPhase::Closing;
                        proof {
                            assert(f@.opcode == OpCode::Close);
                            assert(spec_drain(b).closes == tail.closes + 1);
                            assert(spec_drain(b).frames == tail.frames);
                            let k = (self.out_queue@.len() - oq0.len()) as nat;
                            assert(frames_view(self.out_queue@) =~= frames_view(q0) + seq![
                                close_model(),
                            ]);
                            assert(close_frames(k) =~= close_frames((k - 1) as nat) + seq![
                                close_model(),
                            ]);
                            assert(frames_view(self.out_queue@) =~= frames_view(oq0)
                                + close_frames(k));
                        }
                    } else {
                        frames.push(f);
                        proof {
                            assert(f@.opcode != OpCode::Close);
                            assert(spec_drain(b).frames == seq![f@] + tail.frames);
                            assert(spec_drain(b).closes == tail.closes);
                            assert(frames_view(frames@) =~= fv0.push(f@));
                            assert(fv0 + (seq![f@] + tail.frames) =~= fv0.push(f@)
                                + tail.frames);
                        }
                    }
                },
            }
        }
        if !error {
            if self.out_queue.len() > 0 {
                self.interest = Interest::Write;
            }
            proof {
                let cur = spec_drain(self.read_buf@);
                assert(cur.frames == Seq::<FrameModel>::empty());
                assert(d.frames == frames_view(frames@) + cur.frames);
                assert(frames_view(frames@) + Seq::<FrameModel>::empty() =~= frames_view(
                    frames@,
                ));
            }
        }
        frames
    }

    /// The socket became writable on an open or closing connection:
    /// encodes and hands back every queued outbound frame — unmasked,
    /// as a server sends them — and empties the queue.  Once the
    /// answering Close frame is flushed this way, the connection is
    /// closed; otherwise it returns to reading.
    pub fn take_outbound(&mut self) -> (r: Vec<u8>)
        requires
            old(self).phase == ConnectionPhase::Open || old(self).phase
                == ConnectionPhase::Closing,
            conn_wf(*old(self)),
        ensures
            conn_wf(*final(self)),
            r@ == queue_bytes(frames_view(old(self).out_queue@)),
            final(self).out_queue@.len() == 0,
            final(self).phase == (if old(self).phase == ConnectionPhase::Closing {
                ConnectionPhase::Closed
            } else {
                ConnectionPhase::Open
            }),
            final(self).interest == Interest::Read,
            final(self).handler == old(self).handler,
            final(self).read_buf == old(self).read_buf,
    {
        let ghost qv = frames_view(self.out_queue@);
        let mut out: Vec<u8> = Vec::new();
        let mut i: usize = 0;
        while i < self.out_queue.len()
            invariant
                conn_wf(*self),
                self.phase == old(self).phase,
                self.handler == old(self).handler,
                self.read_buf == old(self).read_buf,
                self.out_queue == old(self).out_queue,
                self.interest == old(self).interest,
                qv == frames_view(self.out_queue@),
                0 <= i <= self.out_queue@.len(),
                out@ == queue_bytes(qv.subrange(0, i as int)),
            decreases self.out_queue@.len() - i,
        {
            let mut piece = encode(&self.out_queue[i]);
            out.append(&mut piece);
            i = i + 1;
            proof {
                assert(qv.subrange(0, i as int).drop_last() =~= qv.subrange(0, i - 1));
                assert(qv.subrange(0, i as int).last() == qv[i - 1]);
            }
        }
        proof {
            assert(qv.subrange(0, qv.len() as int) =~= qv);
        }
        self.out_queue.clear();
        if matches!(self.phase, ConnectionPhase::Closing) {
            self.phase = ConnectionPhase::Closed;
        }
        self.interest = Interest::Read;
        out
    }
}

/// The wire bytes of a run of frames, in order.
pub open spec fn queue_bytes(q: Seq<FrameModel>) -> Seq<u8>
    decreases q.len(),
{
    if q.len() == 0 {
        Seq::empty()
    } else {
        queue_bytes(q.drop_last()) + frame_bytes(q.last())
    }
}

} // verus!
