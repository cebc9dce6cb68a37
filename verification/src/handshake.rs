//! Accumulation of HTTP header fields during the opening handshake.
//!
//! The incremental HTTP tokenizer is an outside collaborator: it walks
//! the raw request bytes and reports each header field and value.  The
//! handler here is the receiving end of those callbacks: it keeps the
//! header map — last write wins per key, case as received — until the
//! upgrade is detected and the accept key must be derived.

use vstd::prelude::*;

use crate::codec::FrameError;

verus! {

/// Last-write-wins lookup of a key in a run of header pairs.
pub open spec fn header_lookup(h: Seq<(Seq<u8>, Seq<u8>)>, k: Seq<u8>) -> Option<Seq<u8>>
    decreases h.len(),
{
    if h.len() == 0 {
        None
    } else if h.last().0 == k {
        Some(h.last().1)
    } else {
        header_lookup(h.drop_last(), k)
    }
}

/// The header pairs a handler has accumulated, as byte sequences.
pub open spec fn headers_view(h: Seq<(Vec<u8>, Vec<u8>)>) -> Seq<(Seq<u8>, Seq<u8>)> {
    Seq::new(h.len(), |i: int| (h[i].0@, h[i].1@))
}

/// Receives the tokenizer's header callbacks and accumulates the
/// header map of one handshake.
pub struct HandshakeHandler {
    /// The field name last announced, awaiting its value.
    pub current_key: Option<Vec<u8>>,
    /// The header pairs seen so far, in arrival order.
    pub headers: Vec<(Vec<u8>, Vec<u8>)>,
}

/// The headers of a handler, as byte sequences.
pub open spec fn handler_headers(h: HandshakeHandler) -> Seq<(Seq<u8>, Seq<u8>)> {
    headers_view(h.headers@)
}

/// Copies a byte slice into a fresh vector.
pub fn slice_copy(s: &[u8]) -> (r: Vec<u8>)
    ensures
        r@ == s@,
{
    let mut out: Vec<u8> = Vec::new();
    let mut i: usize = 0;
    while i < s.len()
        invariant
            0 <= i <= s@.len(),
            out@ == s@.subrange(0, i as int),
        decreases s@.len() - i,
    {
        out.push(s[i]);
        i = i + 1;
        proof {
            assert(out@ =~= s@.subrange(0, i as int));
        }
    }
    proof {
        assert(s@.subrange(0, s@.len() as int) =~= s@);
    }
    out
}

/// Says whether a vector and a slice hold the same bytes.
pub fn bytes_eq(a: &Vec<u8>, b: &[u8]) -> (r: bool)
    ensures
        r == (a@ == b@),
{
    if a.len() != b.len() {
        proof {
            assert(a@ != b@);
        }
        return false;
    }
    let mut i: usize = 0;
    while i < a.len()
        invariant
            0 <= i <= a@.len(),
            a@.len() == b@.len(),
            forall|j: int| 0 <= j < i ==> a@[j] == b@[j],
        decreases a@.len() - i,
    {
        if a[i] != b[i] {
            proof {
                assert(a@ != b@);
            }
            return false;
        }
        i = i + 1;
    }
    proof {
        assert(a@ =~= b@);
    }
    true
}

impl HandshakeHandler {
    /// A fresh handler: no field pending, no headers seen.
    pub fn new() -> (r: HandshakeHandler)
        ensures
            r.current_key is None,
            handler_headers(r) == Seq::<(Seq<u8>, Seq<u8>)>::empty(),
    {
        let r = HandshakeHandler { current_key: None, headers: Vec::new() };
        proof {
            assert(handler_headers(r) =~= Seq::<(Seq<u8>, Seq<u8>)>::empty());
        }
        r
    }

    /// A field name arrived: remember it as the current key, awaiting
    /// its value.  Always asks the tokenizer to continue.
    pub fn on_header_field(&mut self, s: &[u8]) -> (r: bool)
        ensures
            r == true,
            final(self).current_key matches Some(k) && k@ == s@,
            final(self).headers == old(self).headers,
    {
        self.current_key = Some(slice_copy(s));
        true
    }

    /// A value arrived: it belongs to the current key.  A value with no
    /// field before it breaks the tokenizer's contract and is a
    /// protocol error; otherwise the pair joins the header map and the
    /// tokenizer is asked to continue.
    pub fn on_header_value(&mut self, s: &[u8]) -> (r: Result<bool, FrameError>)
        ensures
            old(self).current_key is None ==> r == Err::<bool, FrameError>(
                FrameError::ProtocolError,
            ) && *final(self) == *old(self),
            old(self).current_key matches Some(k) ==> r == Ok::<bool, FrameError>(true)
                && handler_headers(*final(self)) == handler_headers(*old(self)).push((k@, s@))
                && final(self).current_key == old(self).current_key,
    {
        match &self.current_key {
            None => Err(FrameError::ProtocolError),
            Some(k) => {
                let key_copy = crate::bytes::vec_copy(k);
                let value = slice_copy(s);
                self.headers.push((key_copy, value));
                proof {
                    assert(handler_headers(*self) =~= handler_headers(*old(self)).push(
                        (old(self).current_key.unwrap()@, s@),
                    ));
                }
                Ok(true)
            },
        }
    }

    /// All headers arrived: the handler never needs the body, so it
    /// always declines to continue past them.
    pub fn on_headers_complete(&mut self) -> (r: bool)
        ensures
            r == false,
            *final(self) == *old(self),
    {
        false
    }

    /// Looks a header up by exact name, last write wins.
    pub fn get_header(&self, name: &[u8]) -> (r: Option<Vec<u8>>)
        ensures
            match r {
                Some(v) => header_lookup(handler_headers(*self), name@) == Some(v@),
                None => header_lookup(handler_headers(*self), name@) is None,
            },
    {
        let hv = Ghost(handler_headers(*self));
        let mut i: usize = self.headers.len();
        proof {
            assert(hv@.subrange(0, i as int) =~= hv@);
        }
        while i > 0
            invariant
                0 <= i <= self.headers@.len(),
                hv@ == handler_headers(*self),
                hv@.len() == self.headers@.len(),
                header_lookup(hv@, name@) == header_lookup(hv@.subrange(0, i as int), name@),
            decreases i,
        {
            i = i - 1;
            let pair = &self.headers[i];
            proof {
                assert(hv@.subrange(0, i + 1).last() == (pair.0@, pair.1@));
                assert(hv@.subrange(0, i + 1).drop_last() =~= hv@.subrange(0, i as int));
            }
            if bytes_eq(&pair.0, name) {
                let v = crate::bytes::vec_copy(&pair.1);
                return Some(v);
            }
        }
        proof {
            assert(hv@.subrange(0, 0) =~= Seq::<(Seq<u8>, Seq<u8>)>::empty());
        }
        None
    }
}

} // verus!
