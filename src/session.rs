//! One connection's side of the protocol: the bytes received so far, the
//! protocol state, and the dispatch cycles that consume them.
//!
//! The transport (reading the socket, waiting for cancellation) lies outside;
//! it hands each chunk of received bytes to the session (`Session::receive`,
//! or `Session::push` then `Session::next_request`) and acts on the result.
//! A connection ends on its first framing or handler error: after one, the
//! position in the stream can no longer be trusted.

use vstd::prelude::*;

use crate::codec::{Error, Reader};
use crate::grunt::protocol::{
    frames, request_encoded, request_extent, state_after, GruntHandler, GruntProtocol, GruntRequest,
};

verus! {

/// The state of one connection.
pub struct Session {
    pending: Vec<u8>,
    protocol: GruntProtocol,
    open: bool,
}

impl Session {
    /// Bytes received that do not yet form a complete message.
    pub closed spec fn spec_pending(&self) -> Seq<u8> {
        self.pending@
    }

    /// The protocol state, negotiated version included.
    pub closed spec fn spec_protocol(&self) -> GruntProtocol {
        self.protocol
    }

    /// Whether the connection still runs dispatch cycles.
    pub closed spec fn spec_open(&self) -> bool {
        self.open
    }

    pub fn new(protocol: GruntProtocol) -> (s: Session)
        ensures
            s.spec_pending() == Seq::<u8>::empty(),
            s.spec_protocol() == protocol,
            s.spec_open(),
    {
        Session { pending: Vec::new(), protocol, open: true }
    }

    pub fn protocol(&self) -> (p: GruntProtocol)
        ensures
            p == self.spec_protocol(),
    {
        self.protocol
    }

    pub fn is_open(&self) -> (b: bool)
        ensures
            b == self.spec_open(),
    {
        self.open
    }

    /// The number of bytes waiting for the rest of their message.
    pub fn pending_len(&self) -> (n: usize)
        ensures
            n == self.spec_pending().len(),
    {
        self.pending.len()
    }

    /// Ends the connection (it was cancelled, or the transport failed).
    pub fn close(&mut self)
        ensures
            !final(self).spec_open(),
            final(self).spec_pending() == old(self).spec_pending(),
            final(self).spec_protocol() == old(self).spec_protocol(),
    {
        self.open = false;
    }

    /// The peer closed its side. Bytes of an unfinished message are lost,
    /// which is reported as `Error::EOF`.
    pub fn end_of_stream(&mut self) -> (r: Result<(), Error>)
        ensures
            !final(self).spec_open(),
            r is Ok <==> old(self).spec_pending().len() == 0,
            r is Err ==> r == Err::<(), Error>(Error::EOF),
    {
        self.open = false;
        if self.pending.len() == 0 {
            Ok(())
        } else {
            Err(Error::EOF)
        }
    }

    /// Appends received bytes.
    pub fn push(&mut self, bytes: &[u8])
        requires
            old(self).spec_pending().len() + bytes@.len() <= usize::MAX,
        ensures
            final(self).spec_pending() == old(self).spec_pending() + bytes@,
            final(self).spec_protocol() == old(self).spec_protocol(),
            final(self).spec_open() == old(self).spec_open(),
    {
        let mut i: usize = 0;
        while i < bytes.len()
            invariant
                i <= bytes@.len(),
                self.pending@ == old(self).pending@ + bytes@.take(i as int),
                self.protocol == old(self).protocol,
                self.open == old(self).open,
            decreases bytes@.len() - i,
        {
            self.pending.push(bytes[i]);
            assert(bytes@.take(i + 1) =~= bytes@.take(i as int).push(bytes@[i as int]));
            i = i + 1;
        }
        assert(bytes@.take(i as int) =~= bytes@);
    }

    /// Decodes the next complete message from the received bytes, if there
    /// is one (`None` while it is incomplete). A framing error closes the
    /// session.
    pub fn next_request(&mut self) -> (r: Result<Option<GruntRequest>, Error>)
        requires
            old(self).spec_open(),
        ensures
            match request_extent(old(self).spec_pending(), old(self).spec_protocol()) {
                Ok(n) => r matches Ok(Some(m)) && 0 < n <= old(self).spec_pending().len()
                    && request_encoded(m, final(self).spec_protocol())
                        == Ok::<Seq<u8>, Error>(old(self).spec_pending().take(n))
                    && final(self).spec_pending() == old(self).spec_pending().skip(n)
                    && final(self).spec_protocol() == state_after(old(self).spec_pending(), old(self).spec_protocol())
                    && final(self).spec_open(),
                Err(e) => if e == Error::EOF {
                    r == Ok::<Option<GruntRequest>, Error>(None) && final(self).spec_pending() == old(self).spec_pending()
                        && final(self).spec_protocol() == old(self).spec_protocol() && final(self).spec_open()
                } else {
                    r == Err::<Option<GruntRequest>, Error>(e) && !final(self).spec_open()
                        && final(self).spec_pending() == old(self).spec_pending()
                        && final(self).spec_protocol() == old(self).spec_protocol()
                },
            },
    {
        let mut reader = Reader::new(self.pending.as_slice());
        match self.protocol.decode_incoming(&mut reader) {
            Ok(m) => {
                let n = reader.remaining();
                let rest = match reader.read_slice(n) {
                    Ok(v) => v,
                    Err(_) => Vec::new(),
                };
                self.pending = rest;
                Ok(Some(m))
            },
            Err(e) => {
                if e == Error::EOF {
                    Ok(None)
                } else {
                    self.open = false;
                    Err(e)
                }
            },
        }
    }

    /// Acts on what a handler returned: an error ends the session and is
    /// passed on; success leaves the session as it is.
    pub fn finish_cycle(&mut self, handled: Result<(), Error>) -> (r: Result<(), Error>)
        ensures
            r == handled,
            final(self).spec_pending() == old(self).spec_pending(),
            final(self).spec_protocol() == old(self).spec_protocol(),
            final(self).spec_open() == (old(self).spec_open() && handled is Ok),
    {
        if handled.is_err() {
            self.open = false;
        }
        handled
    }

    /// Takes received bytes and runs dispatch cycles while a complete message
    /// is available, strictly in order: each handler returns before the next
    /// message is decoded. Returns how many messages were handled; the bytes
    /// of an unfinished message are kept for the next call. On the first
    /// framing error, or the first error a handler returns (see
    /// `finish_cycle`), the session closes and returns it.
    pub fn receive<H: GruntHandler>(&mut self, bytes: &[u8], handler: &mut H, dest: &mut Vec<u8>) -> (r: Result<usize, Error>)
        requires
            old(self).spec_open(),
            old(self).spec_pending().len() + bytes@.len() <= usize::MAX,
        ensures
            ({
                let f = frames(old(self).spec_pending() + bytes@, old(self).spec_protocol());
                &&& r matches Ok(c) ==> c == f.0 && f.3 is None && final(self).spec_pending() == f.1
                    && final(self).spec_protocol() == f.2 && final(self).spec_open()
                &&& f.3 is Some ==> r is Err
                &&& f.0 == 0 && f.3 is None ==> r == Ok::<usize, Error>(0)
                &&& f.0 == 0 && f.3 is Some ==> r == Err::<usize, Error>(f.3->Some_0)
                &&& (r is Err && f.3 != Some(r->Err_0)) ==> f.0 >= 1
                &&& r is Err <==> !final(self).spec_open()
            }),
    {
        let ghost s = self.pending@ + bytes@;
        let ghost p0 = self.protocol;
        self.push(bytes);
        let mut count: usize = 0;
        loop
            invariant
                self.open,
                s == old(self).spec_pending() + bytes@,
                p0 == old(self).spec_protocol(),
                s.len() <= usize::MAX,
                count + self.pending@.len() <= s.len(),
                ({
                    let f = frames(s, p0);
                    let g = frames(self.pending@, self.protocol);
                    f.0 == count + g.0 && f.1 == g.1 && f.2 == g.2 && f.3 == g.3
                }),
            ensures
                self.open,
                ({
                    let f = frames(s, p0);
                    f.0 == count && f.1 == self.pending@ && f.2 == self.protocol && f.3 is None
                }),
            decreases self.pending@.len(),
        {
            let ghost before = self.pending@;
            let ghost p = self.protocol;
            match self.next_request() {
                Ok(Some(m)) => {
                    proof {
                        let n = request_extent(before, p)->Ok_0;
                        let next = frames(before.skip(n), state_after(before, p));
                        assert(frames(before, p).0 == next.0 + 1);
                        assert(frames(before, p).1 == next.1);
                        assert(frames(s, p0).0 >= 1);
                    }
                    count = count + 1;
                    let handled = match m {
                        GruntRequest::LogonChallenge(x) => handler.handle_logon_challenge_request(x, &self.protocol, dest),
                        GruntRequest::LogonProof(x) => handler.handle_logon_proof_request(x, &self.protocol, dest),
                    };
                    if let Err(e) = self.finish_cycle(handled) {
                        return Err(e);
                    }
                },
                Ok(None) => {
                    break;
                },
                Err(e) => {
                    assert(frames(before, p).3 == Some(e));
                    return Err(e);
                },
            }
        }
        Ok(count)
    }
}

} // verus!
