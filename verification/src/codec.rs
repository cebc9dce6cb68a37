//! RFC 6455 base framing: encoding and decoding of one WebSocket frame
//! against a byte buffer.
//!
//! `decode` consumes as many leading bytes of the buffer as form one
//! complete frame; it reports how many bytes the frame took, so the
//! caller can retain the rest.  An incomplete frame is `Ok(None)`, never
//! an error and never a partial frame; a malformed frame is a
//! `ProtocolError`.  `encode` is the mirror operation.

use vstd::prelude::*;

use crate::bytes::{vec_range, be16_bytes, be16_val, be64_bytes, be64_val, lemma_be16_round_trip,
    lemma_be64_round_trip, lemma_be64_top_bit, read_be16, read_be64, write_be16, push_be64};

verus! {

/// The 4-bit opcode of a frame.
#[derive(Clone, Copy, PartialEq, Eq, Structural, Debug)]
pub enum OpCode {
    Continuation,
    Text,
    Binary,
    Close,
    Ping,
    Pong,
}

/// The one way a frame (or a handshake callback sequence) can be
/// malformed.
#[derive(Clone, Copy, PartialEq, Eq, Structural, Debug)]
pub enum FrameError {
    ProtocolError,
}

/// One WebSocket frame, as decoded from or encoded to the wire.
pub struct Frame {
    pub fin: bool,
    pub opcode: OpCode,
    pub masked: bool,
    pub mask_key: Option<[u8; 4]>,
    pub payload: Vec<u8>,
}

/// The mathematical value of a frame.
#[verifier::ext_equal]
pub struct FrameModel {
    pub fin: bool,
    pub opcode: OpCode,
    pub masked: bool,
    pub mask_key: Option<Seq<u8>>,
    pub payload: Seq<u8>,
}

impl View for Frame {
    type V = FrameModel;

    open spec fn view(&self) -> FrameModel {
        FrameModel {
            fin: self.fin,
            opcode: self.opcode,
            masked: self.masked,
            mask_key: match self.mask_key {
                Some(k) => Some(k@),
                None => None,
            },
            payload: self.payload@,
        }
    }
}

/// The wire nibble of an opcode.
pub open spec fn opcode_nibble(op: OpCode) -> u8 {
    match op {
        OpCode::Continuation => 0,
        OpCode::Text => 1,
        OpCode::Binary => 2,
        OpCode::Close => 8,
        OpCode::Ping => 9,
        OpCode::Pong => 10,
    }
}

/// The opcode a wire nibble stands for; nibbles outside the defined set
/// have none.
pub open spec fn nibble_opcode(n: u8) -> Option<OpCode> {
    if n == 0 {
        Some(OpCode::Continuation)
    } else if n == 1 {
        Some(OpCode::Text)
    } else if n == 2 {
        Some(OpCode::Binary)
    } else if n == 8 {
        Some(OpCode::Close)
    } else if n == 9 {
        Some(OpCode::Ping)
    } else if n == 10 {
        Some(OpCode::Pong)
    } else {
        None
    }
}

/// Close, Ping and Pong are control frames.
pub open spec fn is_control(op: OpCode) -> bool {
    op == OpCode::Close || op == OpCode::Ping || op == OpCode::Pong
}

/// A well-formed frame: the mask key is present exactly when the mask
/// bit is set and is four bytes long; a control frame carries at most
/// 125 payload bytes and is final; the payload length fits the 63 bits
/// the wire format grants it.
pub open spec fn frame_wf(m: FrameModel) -> bool {
    &&& m.masked <==> m.mask_key is Some
    &&& (m.mask_key matches Some(k) ==> k.len() == 4)
    &&& (is_control(m.opcode) ==> m.payload.len() <= 125 && m.fin)
    &&& m.payload.len() < 0x8000000000000000
}

/// XOR of payload byte `i` with key byte `i mod 4` — RFC 6455 masking.
pub open spec fn mask_seq(d: Seq<u8>, k: Seq<u8>) -> Seq<u8>
    recommends
        k.len() == 4,
{
    Seq::new(d.len(), |i: int| d[i] ^ k[i % 4])
}

/// Masking is an involution: applying the same key twice gives the
/// payload back.
pub proof fn lemma_mask_involution(d: Seq<u8>, k: Seq<u8>)
    requires
        k.len() == 4,
    ensures
        mask_seq(mask_seq(d, k), k) == d,
{
    assert forall|i: int| 0 <= i < d.len() implies mask_seq(mask_seq(d, k), k)[i] == d[i] by {
        let x = d[i];
        let y = k[i % 4];
        assert((x ^ y) ^ y == x) by (bit_vector);
    }
    assert(mask_seq(mask_seq(d, k), k) =~= d);
}

/// An all-zero mask key leaves the payload bytes identical.
pub proof fn lemma_mask_zero(d: Seq<u8>, k: Seq<u8>)
    requires
        k.len() == 4,
        forall|i: int| 0 <= i < 4 ==> k[i] == 0,
    ensures
        mask_seq(d, k) == d,
{
    assert forall|i: int| 0 <= i < d.len() implies mask_seq(d, k)[i] == d[i] by {
        let x = d[i];
        assert(x ^ 0 == x) by (bit_vector);
    }
    assert(mask_seq(d, k) =~= d);
}

/// The FIN bit of the first header byte.
pub open spec fn spec_fin(b0: u8) -> bool {
    b0 & 0x80 == 0x80
}

/// The opcode nibble of the first header byte.
pub open spec fn spec_nibble(b0: u8) -> u8 {
    b0 & 0x0F
}

/// The mask bit of the second header byte.
pub open spec fn spec_masked(b1: u8) -> bool {
    b1 & 0x80 == 0x80
}

/// The 7-bit length field of the second header byte.
pub open spec fn spec_len7(b1: u8) -> u8 {
    b1 & 0x7F
}

/// How many extended-length bytes a 7-bit length field announces.
pub open spec fn ext_count(l7: u8) -> nat {
    if l7 == 126 {
        2
    } else if l7 == 127 {
        8
    } else {
        0
    }
}

/// How many mask-key bytes the mask bit announces.
pub open spec fn mask_count(b1: u8) -> nat {
    if spec_masked(b1) {
        4
    } else {
        0
    }
}

/// The payload length the header states.
pub open spec fn spec_payload_len(b: Seq<u8>) -> nat
    recommends
        b.len() >= 2 + ext_count(spec_len7(b[1])),
{
    let l7 = spec_len7(b[1]);
    if l7 == 126 {
        be16_val(b[2], b[3])
    } else if l7 == 127 {
        be64_val(b.subrange(2, 10))
    } else {
        l7 as nat
    }
}

/// The length of the whole header: the two fixed bytes, the extended
/// length, and the mask key.
pub open spec fn spec_header_len(b: Seq<u8>) -> nat
    recommends
        b.len() >= 2,
{
    2 + ext_count(spec_len7(b[1])) + mask_count(b[1])
}

/// The length of the whole frame the buffer starts with.
pub open spec fn spec_total_len(b: Seq<u8>) -> nat
    recommends
        b.len() >= 2 + ext_count(spec_len7(b[1])),
{
    spec_header_len(b) + spec_payload_len(b)
}

/// The mask key the header carries, if the mask bit is set.
pub open spec fn spec_mask_key(b: Seq<u8>) -> Option<Seq<u8>>
    recommends
        b.len() >= spec_header_len(b),
{
    if spec_masked(b[1]) {
        let at = (2 + ext_count(spec_len7(b[1]))) as int;
        Some(b.subrange(at, at + 4))
    } else {
        None
    }
}

/// The payload bytes as they stand on the wire, still masked.
pub open spec fn spec_raw_payload(b: Seq<u8>) -> Seq<u8>
    recommends
        b.len() >= spec_total_len(b),
{
    b.subrange(spec_header_len(b) as int, spec_total_len(b) as int)
}

/// The frame a complete buffer prefix decodes to.
pub open spec fn extract_frame(b: Seq<u8>) -> FrameModel
    recommends
        b.len() >= spec_total_len(b),
        b.len() >= 2,
        nibble_opcode(spec_nibble(b[0])) is Some,
{
    FrameModel {
        fin: spec_fin(b[0]),
        opcode: nibble_opcode(spec_nibble(b[0])).unwrap(),
        masked: spec_masked(b[1]),
        mask_key: spec_mask_key(b),
        payload: if spec_masked(b[1]) {
            mask_seq(spec_raw_payload(b), spec_mask_key(b).unwrap())
        } else {
            spec_raw_payload(b)
        },
    }
}

/// What a buffer holds at its front: not yet one whole frame, a
/// malformed frame, or one complete frame and the count of bytes it
/// occupies.
#[verifier::ext_equal]
pub enum DecodeModel {
    Incomplete,
    Malformed,
    Complete(FrameModel, nat),
}

/// The decoding of the front of a buffer, checked in the order the
/// bytes arrive: an error is raised as soon as the bytes that show it
/// are present; until then the buffer is merely incomplete.
pub open spec fn spec_decode(b: Seq<u8>) -> DecodeModel {
    if b.len() < 1 {
        DecodeModel::Incomplete
    } else if nibble_opcode(spec_nibble(b[0])) is None {
        DecodeModel::Malformed
    } else if b.len() < 2 {
        DecodeModel::Incomplete
    } else if is_control(nibble_opcode(spec_nibble(b[0])).unwrap()) && (spec_len7(b[1]) > 125
        || !spec_fin(b[0])) {
        DecodeModel::Malformed
    } else if b.len() < 2 + ext_count(spec_len7(b[1])) {
        DecodeModel::Incomplete
    } else if spec_len7(b[1]) == 127 && b[2] >= 0x80 {
        DecodeModel::Malformed
    } else if b.len() < spec_total_len(b) {
        DecodeModel::Incomplete
    } else {
        DecodeModel::Complete(extract_frame(b), spec_total_len(b))
    }
}

/// A server rejects a client frame whose mask bit is clear; otherwise
/// as `spec_decode`.
pub open spec fn spec_decode_client(b: Seq<u8>) -> DecodeModel {
    match spec_decode(b) {
        DecodeModel::Complete(m, n) => if m.masked {
            DecodeModel::Complete(m, n)
        } else {
            DecodeModel::Malformed
        },
        other => other,
    }
}

/// The 7-bit length field a payload of `n` bytes is announced with.
pub open spec fn len7_of(n: nat) -> u8 {
    if n <= 125 {
        n as u8
    } else if n <= 0xFFFF {
        126
    } else {
        127
    }
}

/// The extended-length bytes a payload of `n` bytes is announced with.
pub open spec fn ext_bytes_of(n: nat) -> Seq<u8> {
    if n <= 125 {
        Seq::empty()
    } else if n <= 0xFFFF {
        be16_bytes(n)
    } else {
        be64_bytes(n)
    }
}

/// The first header byte of a frame.
pub open spec fn byte0_of(m: FrameModel) -> u8 {
    (if m.fin {
        0x80u8
    } else {
        0u8
    }) | opcode_nibble(m.opcode)
}

/// The second header byte of a frame.
pub open spec fn byte1_of(m: FrameModel) -> u8 {
    (if m.masked {
        0x80u8
    } else {
        0u8
    }) | len7_of(m.payload.len())
}

/// The wire bytes of a frame: header, extended length, mask key, and
/// the payload, masked when the mask bit is set.
pub open spec fn frame_bytes(m: FrameModel) -> Seq<u8> {
    seq![byte0_of(m), byte1_of(m)] + ext_bytes_of(m.payload.len()) + (match m.mask_key {
        Some(k) => k,
        None => Seq::empty(),
    }) + (if m.masked {
        mask_seq(m.payload, m.mask_key.unwrap())
    } else {
        m.payload
    })
}

/// The well-formed frames a buffer can begin with are exactly the
/// buffers that decode completely: wherever the wire bytes of a
/// well-formed frame `m` stand at the front of `b` — whatever follows
/// them — decoding `b` yields `m` and consumes exactly the bytes of
/// `m`, never more.
pub proof fn lemma_decode_of_encoded(m: FrameModel, b: Seq<u8>)
    requires
        frame_wf(m),
        frame_bytes(m).len() <= b.len(),
        b.subrange(0, frame_bytes(m).len() as int) == frame_bytes(m),
    ensures
        spec_decode(b) == DecodeModel::Complete(m, frame_bytes(m).len() as nat),
{
    let n = m.payload.len();
    let e = frame_bytes(m);
    let el = e.len() as int;
    let ext = ext_bytes_of(n);
    let extl = ext.len() as int;
    let key = match m.mask_key {
        Some(k) => k,
        None => Seq::<u8>::empty(),
    };
    let keyl = key.len() as int;
    let pay = if m.masked {
        mask_seq(m.payload, m.mask_key.unwrap())
    } else {
        m.payload
    };
    let fbit: u8 = if m.fin {
        0x80
    } else {
        0
    };
    let nibv = opcode_nibble(m.opcode);
    let mbit: u8 = if m.masked {
        0x80
    } else {
        0
    };
    let l7v = len7_of(n);
    assert(nibv == 0 || nibv == 1 || nibv == 2 || nibv == 8 || nibv == 9 || nibv == 10);
    assert(l7v <= 127);
    assert(pay.len() == n);
    assert(el == 2 + extl + keyl + n);
    assert forall|i: int| 0 <= i < el implies b[i] == e[i] by {
        assert(b.subrange(0, el)[i] == b[i]);
    }
    assert(e[0] == byte0_of(m));
    assert(e[1] == byte1_of(m));
    assert(byte0_of(m) == fbit | nibv);
    assert(byte1_of(m) == mbit | l7v);
    assert(((fbit | nibv) & 0x0F) == nibv) by (bit_vector)
        requires
            fbit == 0 || fbit == 0x80,
            nibv == 0 || nibv == 1 || nibv == 2 || nibv == 8 || nibv == 9 || nibv == 10,
    ;
    assert((((fbit | nibv) & 0x80) == 0x80) == (fbit == 0x80)) by (bit_vector)
        requires
            fbit == 0 || fbit == 0x80,
            nibv == 0 || nibv == 1 || nibv == 2 || nibv == 8 || nibv == 9 || nibv == 10,
    ;
    assert(((mbit | l7v) & 0x7F) == l7v) by (bit_vector)
        requires
            mbit == 0 || mbit == 0x80,
            l7v <= 127,
    ;
    assert((((mbit | l7v) & 0x80) == 0x80) == (mbit == 0x80)) by (bit_vector)
        requires
            mbit == 0 || mbit == 0x80,
            l7v <= 127,
    ;
    assert(spec_nibble(b[0]) == nibv);
    assert(nibble_opcode(nibv) == Some(m.opcode));
    assert(spec_fin(b[0]) == m.fin);
    assert(spec_masked(b[1]) == m.masked);
    assert(spec_len7(b[1]) == l7v);
    // The control-frame checks pass for a well-formed frame.
    assert(is_control(m.opcode) ==> l7v <= 125 && m.fin);
    // The announced extended length occupies exactly the bytes emitted.
    assert(ext_count(l7v) == extl);
    assert(b.len() >= 2 + ext_count(spec_len7(b[1])));
    assert forall|i: int| 0 <= i < extl implies b[2 + i] == ext[i] by {
        assert(e[2 + i] == ext[i]);
    }
    // The stated payload length reads back as the payload's length.
    if l7v == 126 {
        lemma_be16_round_trip(n);
        assert(b[2] == ext[0] && b[3] == ext[1]);
        assert(spec_payload_len(b) == n);
    } else if l7v == 127 {
        assert(n < 0x8000000000000000);
        assert(n / 0x100000000000000 < 0x80) by (nonlinear_arith)
            requires
                n < 0x8000000000000000,
        ;
        lemma_be64_round_trip(n);
        assert(b.subrange(2, 10) =~= be64_bytes(n));
        assert(b[2] == ext[0]);
        assert(b[2] < 0x80);
        assert(spec_payload_len(b) == n);
    } else {
        assert(l7v as nat == n);
        assert(spec_payload_len(b) == n);
    }
    // Header and total length line up with the emitted bytes.
    assert(m.masked ==> keyl == 4);
    assert(!m.masked ==> keyl == 0);
    assert(mask_count(b[1]) == keyl);
    assert(spec_header_len(b) == 2 + extl + keyl);
    assert(spec_total_len(b) == el);
    assert(b.len() >= spec_total_len(b));
    // The mask key and the raw payload read back from their regions.
    if m.masked {
        let at = 2 + extl;
        assert forall|i: int| 0 <= i < 4 implies b[at + i] == key[i] by {
            assert(e[at + i] == key[i]);
        }
        assert(spec_mask_key(b).unwrap() =~= key);
        assert(m.mask_key == Some(key));
    }
    assert forall|i: int| 0 <= i < n implies b[2 + extl + keyl + i] == pay[i] by {
        assert(e[2 + extl + keyl + i] == pay[i]);
    }
    assert(spec_raw_payload(b) =~= pay);
    if m.masked {
        lemma_mask_involution(m.payload, key);
        assert(extract_frame(b).payload == m.payload);
    }
    assert(extract_frame(b) =~= m);
    assert(spec_decode(b) == DecodeModel::Complete(m, el as nat));
}

/// Round trip: the wire bytes of a well-formed frame of at most 2^16
/// payload bytes — masked or unmasked — decode back to the very same
/// frame, and to nothing else.  Together with the contracts of `encode`
/// and `decode` this says `decode(encode(f)) == f`.
pub proof fn lemma_codec_round_trip(m: FrameModel)
    requires
        frame_wf(m),
        m.payload.len() <= 0x10000,
    ensures
        spec_decode(frame_bytes(m)) == DecodeModel::Complete(m, frame_bytes(m).len() as nat),
{
    let e = frame_bytes(m);
    assert(e.subrange(0, e.len() as int) =~= e);
    lemma_decode_of_encoded(m, e);
}

/// A byte-exact prefix of a valid frame decodes to "not yet": never an
/// error, never a partial frame.
pub proof fn lemma_decode_prefix(m: FrameModel, i: int)
    requires
        frame_wf(m),
        0 <= i < frame_bytes(m).len(),
    ensures
        spec_decode(frame_bytes(m).take(i)) is Incomplete,
{
    let n = m.payload.len();
    let e = frame_bytes(m);
    let el = e.len() as int;
    let p = e.take(i);
    let ext = ext_bytes_of(n);
    let extl = ext.len() as int;
    let key = match m.mask_key {
        Some(k) => k,
        None => Seq::<u8>::empty(),
    };
    let keyl = key.len() as int;
    let fbit: u8 = if m.fin {
        0x80
    } else {
        0
    };
    let nibv = opcode_nibble(m.opcode);
    let mbit: u8 = if m.masked {
        0x80
    } else {
        0
    };
    let l7v = len7_of(n);
    assert(nibv == 0 || nibv == 1 || nibv == 2 || nibv == 8 || nibv == 9 || nibv == 10);
    assert(l7v <= 127);
    assert(el == 2 + extl + keyl + n);
    assert forall|j: int| 0 <= j < i implies p[j] == e[j] by {}
    if i == 0 {
        assert(spec_decode(p) is Incomplete);
    } else {
        assert(e[0] == byte0_of(m));
        assert(byte0_of(m) == fbit | nibv);
        assert(((fbit | nibv) & 0x0F) == nibv) by (bit_vector)
            requires
                fbit == 0 || fbit == 0x80,
                nibv == 0 || nibv == 1 || nibv == 2 || nibv == 8 || nibv == 9 || nibv == 10,
        ;
        assert((((fbit | nibv) & 0x80) == 0x80) == (fbit == 0x80)) by (bit_vector)
            requires
                fbit == 0 || fbit == 0x80,
                nibv == 0 || nibv == 1 || nibv == 2 || nibv == 8 || nibv == 9 || nibv == 10,
        ;
        assert(spec_nibble(p[0]) == nibv);
        assert(nibble_opcode(nibv) is Some);
        if i == 1 {
            assert(spec_decode(p) is Incomplete);
        } else {
            assert(e[1] == byte1_of(m));
            assert(byte1_of(m) == mbit | l7v);
            assert(((mbit | l7v) & 0x7F) == l7v) by (bit_vector)
                requires
                    mbit == 0 || mbit == 0x80,
                    l7v <= 127,
            ;
            assert((((mbit | l7v) & 0x80) == 0x80) == (mbit == 0x80)) by (bit_vector)
                requires
                    mbit == 0 || mbit == 0x80,
                    l7v <= 127,
            ;
            assert(spec_len7(p[1]) == l7v);
            assert(spec_masked(p[1]) == m.masked);
            assert(spec_fin(p[0]) == m.fin);
            assert(is_control(m.opcode) ==> l7v <= 125 && m.fin);
            assert(ext_count(l7v) == extl);
            if i < 2 + extl {
                assert(spec_decode(p) is Incomplete);
            } else {
                assert forall|j: int| 0 <= j < extl implies p[2 + j] == ext[j] by {
                    assert(e[2 + j] == ext[j]);
                }
                if l7v == 126 {
                    lemma_be16_round_trip(n);
                    assert(spec_payload_len(p) == n);
                } else if l7v == 127 {
                    assert(n / 0x100000000000000 < 0x80) by (nonlinear_arith)
                        requires
                            n < 0x8000000000000000,
                    ;
                    lemma_be64_round_trip(n);
                    assert(p.subrange(2, 10) =~= be64_bytes(n));
                    assert(p[2] == ext[0]);
                    assert(p[2] < 0x80);
                    assert(spec_payload_len(p) == n);
                } else {
                    assert(spec_payload_len(p) == n);
                }
                assert(mask_count(p[1]) == keyl);
                assert(spec_total_len(p) == el);
                assert(p.len() < spec_total_len(p));
                assert(spec_decode(p) is Incomplete);
            }
        }
    }
}

/// A control frame that announces more than 125 payload bytes is
/// malformed: the decoder rejects it with a protocol error.
pub proof fn lemma_control_too_long(b: Seq<u8>)
    requires
        b.len() >= 2,
        nibble_opcode(spec_nibble(b[0])) is Some,
        is_control(nibble_opcode(spec_nibble(b[0])).unwrap()),
        spec_len7(b[1]) > 125,
    ensures
        spec_decode(b) is Malformed,
{
}

/// Applies the 4-byte XOR mask to `data`.
pub fn apply_mask(data: &[u8], key: &[u8; 4]) -> (r: Vec<u8>)
    ensures
        r@ == mask_seq(data@, key@),
{
    let mut out: Vec<u8> = Vec::new();
    let mut i: usize = 0;
    while i < data.len()
        invariant
            0 <= i <= data@.len(),
            key@.len() == 4,
            out@.len() == i,
            forall|j: int| 0 <= j < i ==> out@[j] == (data@[j] ^ key@[j % 4]),
        decreases data@.len() - i,
    {
        let b = data[i] ^ key[i % 4];
        out.push(b);
        i = i + 1;
    }
    proof {
        assert(out@ =~= mask_seq(data@, key@));
    }
    out
}

/// Maps a wire nibble to its opcode.
pub fn opcode_from_nibble(n: u8) -> (r: Option<OpCode>)
    ensures
        r == nibble_opcode(n),
{
    if n == 0 {
        Some(OpCode::Continuation)
    } else if n == 1 {
        Some(OpCode::Text)
    } else if n == 2 {
        Some(OpCode::Binary)
    } else if n == 8 {
        Some(OpCode::Close)
    } else if n == 9 {
        Some(OpCode::Ping)
    } else if n == 10 {
        Some(OpCode::Pong)
    } else {
        None
    }
}

/// Maps an opcode to its wire nibble.
pub fn opcode_to_nibble(op: OpCode) -> (r: u8)
    ensures
        r == opcode_nibble(op),
{
    match op {
        OpCode::Continuation => 0,
        OpCode::Text => 1,
        OpCode::Binary => 2,
        OpCode::Close => 8,
        OpCode::Ping => 9,
        OpCode::Pong => 10,
    }
}

/// Says whether an opcode names a control frame.
pub fn opcode_is_control(op: OpCode) -> (r: bool)
    ensures
        r == is_control(op),
{
    match op {
        OpCode::Close => true,
        OpCode::Ping => true,
        OpCode::Pong => true,
        _ => false,
    }
}

/// Decodes the frame at the front of `buffer`, if the bytes for a whole
/// one are there.  `Ok(Some((f, n)))` says the first `n` bytes — and no
/// more — formed the frame `f`; the caller drops exactly `n` bytes.
/// `Ok(None)` asks for more bytes; `Err` reports a malformed frame.
pub fn decode(buffer: &Vec<u8>) -> (r: Result<Option<(Frame, usize)>, FrameError>)
    ensures
        ({
            let d = spec_decode(buffer@);
            match r {
                Ok(None) => d is Incomplete,
                Err(e) => d is Malformed && e == FrameError::ProtocolError,
                Ok(Some((f, n))) => d == DecodeModel::Complete(f@, n as nat) && n <= buffer@.len()
                    && frame_wf(f@),
            }
        }),
{
    let blen = buffer.len();
    if blen < 1 {
        return Ok(None);
    }
    let b0 = buffer[0];
    let opcode = match opcode_from_nibble(b0 & 0x0F) {
        Some(op) => op,
        None => {
            return Err(FrameError::ProtocolError);
        },
    };
    if blen < 2 {
        return Ok(None);
    }
    let b1 = buffer[1];
    let fin = (b0 & 0x80) == 0x80;
    let masked = (b1 & 0x80) == 0x80;
    let l7 = b1 & 0x7F;
    if opcode_is_control(opcode) && (l7 > 125 || !fin) {
        return Err(FrameError::ProtocolError);
    }
    let extc: usize = if l7 == 126 {
        2
    } else if l7 == 127 {
        8
    } else {
        0
    };
    if blen < 2 + extc {
        return Ok(None);
    }
    if l7 == 127 && buffer[2] >= 0x80 {
        return Err(FrameError::ProtocolError);
    }
    let plen: u64 = if l7 == 126 {
        read_be16(buffer[2], buffer[3]) as u64
    } else if l7 == 127 {
        let n = read_be64(buffer.as_slice(), 2);
        proof {
            assert(buffer@.subrange(2, 10)[0] == buffer@[2]);
            lemma_be64_top_bit(buffer@.subrange(2, 10));
        }
        n
    } else {
        l7 as u64
    };
    let maskc: usize = if masked {
        4
    } else {
        0
    };
    let hdr: usize = 2 + extc + maskc;
    assert(plen < 0x8000000000000000);
    if (blen as u64) < (hdr as u64) + plen {
        return Ok(None);
    }
    let total: usize = ((hdr as u64) + plen) as usize;
    assert(total as nat == spec_total_len(buffer@));
    let mask_key: Option<[u8; 4]> = if masked {
        Some([buffer[2 + extc], buffer[3 + extc], buffer[4 + extc], buffer[5 + extc]])
    } else {
        None
    };
    let raw = vec_range(buffer, hdr, total);
    let payload = match &mask_key {
        Some(k) => {
            proof {
                assert(k@ =~= spec_mask_key(buffer@).unwrap());
            }
            apply_mask(raw.as_slice(), k)
        },
        None => raw,
    };
    let f = Frame { fin, opcode, masked, mask_key, payload };
    proof {
        assert(f@ =~= extract_frame(buffer@));
        assert(spec_decode(buffer@) =~= DecodeModel::Complete(f@, total as nat));
    }
    Ok(Some((f, total)))
}

/// Decodes as `decode`, and rejects — as a server must — a complete
/// client frame whose mask bit is clear.
pub fn decode_client(buffer: &Vec<u8>) -> (r: Result<Option<(Frame, usize)>, FrameError>)
    ensures
        ({
            let d = spec_decode_client(buffer@);
            match r {
                Ok(None) => d is Incomplete,
                Err(e) => d is Malformed && e == FrameError::ProtocolError,
                Ok(Some((f, n))) => d == DecodeModel::Complete(f@, n as nat) && n <= buffer@.len()
                    && frame_wf(f@) && f.masked,
            }
        }),
{
    match decode(buffer) {
        Ok(Some((f, n))) => {
            if f.masked {
                Ok(Some((f, n)))
            } else {
                Err(FrameError::ProtocolError)
            }
        },
        Ok(None) => Ok(None),
        Err(e) => Err(e),
    }
}

/// Encodes a frame as its wire bytes.
pub fn encode(f: &Frame) -> (r: Vec<u8>)
    requires
        frame_wf(f@),
    ensures
        r@ == frame_bytes(f@),
{
    let mut out: Vec<u8> = Vec::new();
    let nib = opcode_to_nibble(f.opcode);
    let b0: u8 = if f.fin {
        0x80 | nib
    } else {
        nib
    };
    out.push(b0);
    let plen: usize = f.payload.len();
    let l7: u8 = if plen <= 125 {
        plen as u8
    } else if plen <= 0xFFFF {
        126
    } else {
        127
    };
    let b1: u8 = if f.masked {
        0x80 | l7
    } else {
        l7
    };
    out.push(b1);
    if plen > 125 && plen <= 0xFFFF {
        let (e0, e1) = write_be16(plen as u16);
        out.push(e0);
        out.push(e1);
    } else if plen > 0xFFFF {
        push_be64(&mut out, plen as u64);
    }
    proof {
        assert((0u8 | nib) == nib) by (bit_vector);
        assert((0u8 | l7) == l7) by (bit_vector);
        assert(b0 == byte0_of(f@));
        assert(b1 == byte1_of(f@));
        assert(out@ =~= seq![byte0_of(f@), byte1_of(f@)] + ext_bytes_of(f@.payload.len()));
    }
    match &f.mask_key {
        Some(k) => {
            out.push(k[0]);
            out.push(k[1]);
            out.push(k[2]);
            out.push(k[3]);
            let mut masked_payload = apply_mask(f.payload.as_slice(), k);
            out.append(&mut masked_payload);
            proof {
                assert(seq![k@[0], k@[1], k@[2], k@[3]] =~= k@);
                assert(out@ =~= frame_bytes(f@));
            }
        },
        None => {
            let mut tail = vec_range(&f.payload, 0, plen);
            out.append(&mut tail);
            proof {
                assert(f.payload@.subrange(0, plen as int) =~= f.payload@);
                assert(out@ =~= frame_bytes(f@));
            }
        },
    }
    out
}

} // verus!
