//! Per-connection protocol state, the identifier that tags each message, and
//! the dispatch table from identifiers to handlers.

use vstd::prelude::*;

use crate::codec::{write_slice, write_u8, Error, Reader};
use crate::grunt::logon_challenge::{
    challenge_request_encoded, challenge_request_extent, challenge_response_encoded, challenge_response_extent,
    challenge_response_valid, LogonChallengeRequest, LogonChallengeResponse,
};
use crate::grunt::logon_proof::{proof_request_encoded, proof_request_extent, LogonProofRequest};

verus! {

/// The versions whose login result codes are defined.
pub open spec fn supported_version(v: u8) -> bool {
    (2 <= v && v <= 3) || (5 <= v && v <= 8)
}

/// Whether the login result codes of version `v` are defined.
pub fn is_supported_version(v: u8) -> (b: bool)
    ensures
        b == supported_version(v),
{
    (2 <= v && v <= 3) || (5 <= v && v <= 8)
}

/// What a version changes in the wire format. It is worked out once from the
/// negotiated version, so that each version-dependent rule is stated in one
/// place and the codecs branch on named rules rather than on numbers.
#[derive(Debug, Clone, Copy, PartialEq, Eq, Structural)]
pub struct WireFormat {
    /// Login result codes are defined.
    pub login_results: bool,
    /// The login result code 0x10 (`LockedEnforced`) exists.
    pub locked_enforced: bool,
    /// Challenge responses and proof requests end with a security block.
    pub security_blocks: bool,
}

pub open spec fn wire_format_of(v: u8) -> WireFormat {
    WireFormat { login_results: supported_version(v), locked_enforced: v == 8, security_blocks: v != 2 }
}

impl WireFormat {
    pub fn for_version(v: u8) -> (f: WireFormat)
        ensures
            f == wire_format_of(v),
    {
        WireFormat { login_results: is_supported_version(v), locked_enforced: v == 8, security_blocks: v != 2 }
    }
}

/// Mutable per-connection state. The version is negotiated by the first
/// challenge request and does not change afterwards.
#[derive(Debug, Clone, Copy, PartialEq, Eq, Structural)]
pub struct GruntProtocol {
    pub version: Option<u8>,
}

impl GruntProtocol {
    /// State of a peer that already knows the version it speaks.
    pub fn new(version: u8) -> (p: GruntProtocol)
        ensures
            p.version == Some(version),
    {
        GruntProtocol { version: Some(version) }
    }

    /// The wire format of the negotiated version.
    pub fn wire_format(&self) -> (r: Result<WireFormat, Error>)
        ensures
            match self.version {
                None => r == Err::<WireFormat, Error>(Error::Unversioned),
                Some(v) => r == Ok::<WireFormat, Error>(wire_format_of(v)),
            },
    {
        match self.version {
            None => Err(Error::Unversioned),
            Some(v) => Ok(WireFormat::for_version(v)),
        }
    }

    /// State of a server-side connection before the handshake.
    pub fn unversioned() -> (p: GruntProtocol)
        ensures
            p.version is None,
    {
        GruntProtocol { version: None }
    }
}

/// The one-byte command code that precedes every message.
#[derive(Debug, Clone, Copy, PartialEq, Eq, Structural)]
pub struct GruntIdentifier(pub u8);

impl GruntIdentifier {
    /// Reads the command code of the next message.
    pub fn recv(source: &mut Reader) -> (r: Result<GruntIdentifier, Error>)
        ensures
            match r {
                Ok(id) => old(source)@.len() >= 1 && id.0 == old(source)@[0]
                    && final(source)@ == old(source)@.skip(1),
                Err(e) => e == Error::EOF && old(source)@.len() < 1,
            },
    {
        let b = source.read_u8()?;
        Ok(GruntIdentifier(b))
    }

    pub fn send(&self, dest: &mut Vec<u8>)
        ensures
            final(dest)@ == old(dest)@ + seq![self.0],
    {
        write_u8(dest, self.0);
    }
}

/// A message body bound to one command code.
pub trait Payload {
    /// The bytes of this payload under `p`, or why it cannot be written.
    spec fn wire(&self, p: GruntProtocol) -> Result<Seq<u8>, Error>;

    /// The command code this payload travels under.
    spec fn tag(&self) -> u8;

    fn identifier(&self) -> (id: GruntIdentifier)
        ensures
            id.0 == self.tag();

    /// Writes the payload (without its command code). Nothing is written on
    /// error.
    fn send(&self, dest: &mut Vec<u8>, protocol: &GruntProtocol) -> (r: Result<(), Error>)
        ensures
            match self.wire(*protocol) {
                Ok(bytes) => r is Ok && final(dest)@ == old(dest)@ + bytes,
                Err(e) => r == Err::<(), Error>(e) && final(dest)@ == old(dest)@,
            };
}

/// The handlers that a server binds to incoming messages.
pub enum Handler {
    LogonChallenge,
    LogonProof,
}

/// The dispatch table: which handler, if any, each command code selects.
pub open spec fn handler_of(id: u8) -> Option<Handler> {
    if id == 0x00 {
        Some(Handler::LogonChallenge)
    } else if id == 0x01 {
        Some(Handler::LogonProof)
    } else {
        None
    }
}

/// Looks a command code up in the dispatch table.
pub fn handler_for(id: GruntIdentifier) -> (h: Option<Handler>)
    ensures
        h == handler_of(id.0),
{
    match id.0 {
        0x00 => Some(Handler::LogonChallenge),
        0x01 => Some(Handler::LogonProof),
        _ => None,
    }
}

/// A decoded incoming message.
#[derive(Debug, Clone, PartialEq, Eq)]
pub enum GruntRequest {
    LogonChallenge(LogonChallengeRequest),
    LogonProof(LogonProofRequest),
}

/// The bytes of a message with its command code, under `p`.
pub open spec fn request_encoded(m: GruntRequest, p: GruntProtocol) -> Result<Seq<u8>, Error> {
    match m {
        GruntRequest::LogonChallenge(x) => match challenge_request_encoded(x, p) {
            Ok(b) => Ok(seq![0x00u8] + b),
            Err(e) => Err(e),
        },
        GruntRequest::LogonProof(x) => match proof_request_encoded(x, p) {
            Ok(b) => Ok(seq![0x01u8] + b),
            Err(e) => Err(e),
        },
    }
}

/// How many bytes the message at the front of `s` takes under `p`, or why
/// there is none. `Error::EOF` means that the message is not complete yet.
pub open spec fn request_extent(s: Seq<u8>, p: GruntProtocol) -> Result<int, Error> {
    if s.len() < 1 {
        Err(Error::EOF)
    } else {
        match handler_of(s[0]) {
            None => Err(Error::UnknownIdentifier(s[0])),
            Some(Handler::LogonChallenge) => match challenge_request_extent(s.skip(1), p) {
                Ok(n) => Ok(1 + n),
                Err(e) => Err(e),
            },
            Some(Handler::LogonProof) => match proof_request_extent(s.skip(1), p) {
                Ok(n) => Ok(1 + n),
                Err(e) => Err(e),
            },
        }
    }
}

/// The protocol state after the message at the front of `s` was decoded: a
/// challenge request fixes the version it carries.
pub open spec fn state_after(s: Seq<u8>, p: GruntProtocol) -> GruntProtocol {
    if s[0] == 0x00 {
        GruntProtocol { version: Some(s[1]) }
    } else {
        p
    }
}

/// The messages at the front of `s`, decoded one after the other under a
/// state that starts at `p`: how many there are, the bytes that are left,
/// the final state, and the framing error that stopped decoding, if any. An
/// incomplete message at the end is no error; it is left over.
pub open spec fn frames(s: Seq<u8>, p: GruntProtocol) -> (nat, Seq<u8>, GruntProtocol, Option<Error>)
    decreases s.len(),
{
    match request_extent(s, p) {
        Err(e) => if e == Error::EOF {
            (0, s, p, None)
        } else {
            (0, s, p, Some(e))
        },
        Ok(n) => if 0 < n <= s.len() {
            let next = frames(s.skip(n), state_after(s, p));
            (next.0 + 1, next.1, next.2, next.3)
        } else {
            (0, s, p, None)
        },
    }
}

/// The first challenge request moves an unversioned state to the version it
/// carries, and a versioned state is final: no message decoded under it
/// changes it, however many follow.
pub proof fn lemma_version_is_final(s: Seq<u8>, p: GruntProtocol)
    ensures
        request_extent(s, p) is Ok && p.version is None && s[0] == 0x00 ==> state_after(s, p).version == Some(s[1]),
        request_extent(s, p) is Ok && p.version is Some ==> state_after(s, p) == p,
        p.version is Some ==> frames(s, p).2 == p,
    decreases s.len(),
{
    if request_extent(s, p) is Ok && p.version is Some && s[0] == 0x00 {
        assert(s.skip(1)[0] == s[1]);
    }
    if p.version is Some {
        if let Ok(n) = request_extent(s, p) {
            if 0 < n <= s.len() {
                lemma_version_is_final(s.skip(n), state_after(s, p));
            }
        }
    }
}

/// What a server does with each decoded message. The handlers may write a
/// response to `dest`; they see the protocol state but cannot change it.
pub trait GruntHandler {
    fn handle_logon_challenge_request(&mut self, msg: LogonChallengeRequest, protocol: &GruntProtocol, dest: &mut Vec<u8>) -> Result<(), Error>;

    fn handle_logon_proof_request(&mut self, msg: LogonProofRequest, protocol: &GruntProtocol, dest: &mut Vec<u8>) -> Result<(), Error>;
}

impl GruntProtocol {
    /// Decodes one message: its command code, then, if the dispatch table
    /// knows the code, the payload it selects.
    pub fn decode_incoming(&mut self, source: &mut Reader) -> (r: Result<GruntRequest, Error>)
        ensures
            match request_extent(old(source)@, *old(self)) {
                Ok(n) => r matches Ok(m) && *final(self) == state_after(old(source)@, *old(self))
                    && request_encoded(m, *final(self)) == Ok::<Seq<u8>, Error>(old(source)@.take(n))
                    && final(source)@ == old(source)@.skip(n) && 0 < n <= old(source)@.len(),
                Err(e) => r == Err::<GruntRequest, Error>(e) && *final(self) == *old(self),
            },
            old(source)@.len() >= 1 && handler_of(old(source)@[0]) is None ==> final(source)@ == old(source)@.skip(1),
    {
        let ghost s = source@;
        let id = GruntIdentifier::recv(source)?;
        let ghost s1 = source@;
        match handler_for(id) {
            None => Err(Error::UnknownIdentifier(id.0)),
            Some(Handler::LogonChallenge) => {
                let x = LogonChallengeRequest::recv(source, self)?;
                proof {
                    let n = challenge_request_extent(s1, *old(self))->Ok_0;
                    assert(s.take(1 + n) =~= seq![0x00u8] + s1.take(n));
                    assert(source@ =~= s.skip(1 + n));
                    assert(s1[0] == s[1]);
                }
                Ok(GruntRequest::LogonChallenge(x))
            },
            Some(Handler::LogonProof) => {
                let x = LogonProofRequest::recv(source, self)?;
                proof {
                    let n = proof_request_extent(s1, *old(self))->Ok_0;
                    assert(s.take(1 + n) =~= seq![0x01u8] + s1.take(n));
                    assert(source@ =~= s.skip(1 + n));
                }
                Ok(GruntRequest::LogonProof(x))
            },
        }
    }

    /// One dispatch cycle: decodes one message and hands it to its handler.
    /// A framing error is returned without calling any handler; otherwise
    /// the result is the handler's.
    pub fn process_incoming<H: GruntHandler>(&mut self, source: &mut Reader, handler: &mut H, dest: &mut Vec<u8>) -> (r: Result<(), Error>)
        ensures
            match request_extent(old(source)@, *old(self)) {
                Ok(n) => *final(self) == state_after(old(source)@, *old(self))
                    && final(source)@ == old(source)@.skip(n) && 0 < n <= old(source)@.len(),
                Err(e) => r == Err::<(), Error>(e) && *final(self) == *old(self),
            },
            old(source)@.len() >= 1 && handler_of(old(source)@[0]) is None ==> final(source)@ == old(source)@.skip(1),
    {
        let m = self.decode_incoming(source)?;
        match m {
            GruntRequest::LogonChallenge(x) => handler.handle_logon_challenge_request(x, self, dest),
            GruntRequest::LogonProof(x) => handler.handle_logon_proof_request(x, self, dest),
        }
    }
}


/// The bytes of an answer to a challenge request with its command code.
pub open spec fn response_encoded(m: LogonChallengeResponse, p: GruntProtocol) -> Result<Seq<u8>, Error> {
    match challenge_response_encoded(m, p) {
        Ok(b) => Ok(seq![0x00u8] + b),
        Err(e) => Err(e),
    }
}

impl GruntProtocol {
    /// Writes a payload after its command code. Nothing is written on error.
    pub fn send<P: Payload>(&self, dest: &mut Vec<u8>, payload: &P) -> (r: Result<(), Error>)
        ensures
            match payload.wire(*self) {
                Ok(bytes) => r is Ok && final(dest)@ == old(dest)@ + seq![payload.tag()] + bytes,
                Err(e) => r == Err::<(), Error>(e) && final(dest)@ == old(dest)@,
            },
    {
        let mut body: Vec<u8> = Vec::new();
        payload.send(&mut body, self)?;
        payload.identifier().send(dest);
        write_slice(dest, body.as_slice());
        assert(body@ =~= payload.wire(*self)->Ok_0);
        Ok(())
    }

    /// Writes a request with its command code. Nothing is written on error.
    pub fn send_request(&self, dest: &mut Vec<u8>, m: &GruntRequest) -> (r: Result<(), Error>)
        ensures
            match request_encoded(*m, *self) {
                Ok(bytes) => r is Ok && final(dest)@ == old(dest)@ + bytes,
                Err(e) => r == Err::<(), Error>(e) && final(dest)@ == old(dest)@,
            },
    {
        let r = match m {
            GruntRequest::LogonChallenge(x) => self.send(dest, x),
            GruntRequest::LogonProof(x) => self.send(dest, x),
        };
        assert(r is Ok ==> dest@ =~= old(dest)@ + request_encoded(*m, *self)->Ok_0);
        r
    }

    /// Writes an answer to a challenge request with its command code.
    /// Nothing is written on error.
    pub fn send_response(&self, dest: &mut Vec<u8>, m: &LogonChallengeResponse) -> (r: Result<(), Error>)
        ensures
            match response_encoded(*m, *self) {
                Ok(bytes) => r is Ok && final(dest)@ == old(dest)@ + bytes,
                Err(e) => r == Err::<(), Error>(e) && final(dest)@ == old(dest)@,
            },
    {
        let r = self.send(dest, m);
        assert(r is Ok ==> dest@ =~= old(dest)@ + response_encoded(*m, *self)->Ok_0);
        r
    }

    /// Reads an answer to a challenge request, command code included. A
    /// client expects exactly this message, so any other code is an error.
    pub fn recv_response(&self, source: &mut Reader) -> (r: Result<LogonChallengeResponse, Error>)
        ensures
            old(source)@.len() < 1 ==> r == Err::<LogonChallengeResponse, Error>(Error::EOF),
            old(source)@.len() >= 1 && old(source)@[0] != 0x00 ==> r == Err::<LogonChallengeResponse, Error>(
                Error::UnknownIdentifier(old(source)@[0])),
            old(source)@.len() >= 1 && old(source)@[0] == 0x00 ==> match challenge_response_extent(old(source)@.skip(1), *self) {
                Ok(n) => r matches Ok(x) && challenge_response_valid(x, *self)
                    && challenge_response_encoded(x, *self) == Ok::<Seq<u8>, Error>(seq![0u8] + old(source)@.subrange(2, n + 1))
                    && final(source)@ == old(source)@.skip(n + 1),
                Err(e) => r == Err::<LogonChallengeResponse, Error>(e),
            },
    {
        let ghost s = source@;
        let id = GruntIdentifier::recv(source)?;
        if id.0 != 0x00 {
            return Err(Error::UnknownIdentifier(id.0));
        }
        let ghost s1 = source@;
        let x = LogonChallengeResponse::recv(source, self)?;
        proof {
            let n = challenge_response_extent(s1, *self)->Ok_0;
            assert(s1.subrange(1, n) =~= s.subrange(2, n + 1));
            assert(source@ =~= s.skip(n + 1));
        }
        Ok(x)
    }
}

} // verus!
