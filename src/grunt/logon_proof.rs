//! The client's proof of the password, the second message of the handshake.

use vstd::prelude::*;

use crate::codec::{
    le16, le32, lemma_le16, lemma_le32, write_slice, write_u16_le, write_u32_le, write_u8, Error, Reader,
};
use crate::grunt::protocol::{GruntIdentifier, GruntProtocol, Payload};
use crate::grunt::security::{
    lemma_security_proof_round_trip, same_security_proof, security_proof_encoded, security_proof_extent,
    security_proof_valid, SecurityProof,
};

verus! {

/// A record of client telemetry sent along with the proof.
#[derive(Debug, Clone, Copy, PartialEq, Eq)]
pub struct TelemetryKey {
    pub unk1: u16,
    pub unk2: u32,
    pub unk3: [u8; 4],
    pub proof: [u8; 20],
}

/// The client's proof request.
#[derive(Debug, Clone, PartialEq, Eq)]
pub struct LogonProofRequest {
    pub public_key: [u8; 32],
    pub proof: [u8; 20],
    pub crc: [u8; 20],
    pub telemetry_keys: Vec<TelemetryKey>,
    pub security: SecurityProof,
}

/// The server's answer to a proof request; it carries no fields yet.
#[derive(Debug, Clone, Copy, PartialEq, Eq)]
pub struct LogonProofResponse {}

/// The 30 bytes of a telemetry key.
pub open spec fn telemetry_key_bytes(k: TelemetryKey) -> Seq<u8> {
    le16(k.unk1) + le32(k.unk2) + k.unk3@ + k.proof@
}

/// The bytes of a list of telemetry keys, one after the other.
pub open spec fn telemetry_keys_bytes(keys: Seq<TelemetryKey>) -> Seq<u8>
    decreases keys.len(),
{
    if keys.len() == 0 {
        Seq::empty()
    } else {
        telemetry_keys_bytes(keys.drop_last()) + telemetry_key_bytes(keys.last())
    }
}

pub proof fn lemma_telemetry_key_bytes(k: TelemetryKey)
    ensures
        telemetry_key_bytes(k).len() == 30,
{
    lemma_le16(k.unk1);
    lemma_le32(k.unk2);
}

/// Telemetry keys with the same bytes are the same key.
pub proof fn lemma_telemetry_key_injective(a: TelemetryKey, b: TelemetryKey)
    requires
        telemetry_key_bytes(a) == telemetry_key_bytes(b),
    ensures
        a == b,
{
    let w = telemetry_key_bytes(a);
    lemma_le16(a.unk1);
    lemma_le32(a.unk2);
    lemma_le16(b.unk1);
    lemma_le32(b.unk2);
    assert(le16(a.unk1) =~= w.subrange(0, 2));
    assert(le16(b.unk1) =~= w.subrange(0, 2));
    assert(le32(a.unk2) =~= w.subrange(2, 6));
    assert(le32(b.unk2) =~= w.subrange(2, 6));
    assert(a.unk3@ =~= w.subrange(6, 10));
    assert(b.unk3@ =~= w.subrange(6, 10));
    assert(a.proof@ =~= w.subrange(10, 30));
    assert(b.proof@ =~= w.subrange(10, 30));
    assert(a.unk3 =~= b.unk3);
    assert(a.proof =~= b.proof);
}

/// Each key takes 30 bytes, the `i`-th at offset `30 * i`.
pub proof fn lemma_telemetry_keys_bytes(keys: Seq<TelemetryKey>)
    ensures
        telemetry_keys_bytes(keys).len() == 30 * keys.len(),
        forall|i: int| 0 <= i < keys.len() ==>
            #[trigger] telemetry_keys_bytes(keys).subrange(30 * i, 30 * i + 30) == telemetry_key_bytes(keys[i]),
    decreases keys.len(),
{
    if keys.len() > 0 {
        let init = keys.drop_last();
        lemma_telemetry_keys_bytes(init);
        lemma_telemetry_key_bytes(keys.last());
        let b = telemetry_keys_bytes(keys);
        assert forall|i: int| 0 <= i < keys.len() implies
            #[trigger] b.subrange(30 * i, 30 * i + 30) == telemetry_key_bytes(keys[i]) by {
            if i < keys.len() - 1 {
                assert(b.subrange(30 * i, 30 * i + 30) =~= telemetry_keys_bytes(init).subrange(30 * i, 30 * i + 30));
                assert(init[i] == keys[i]);
            } else {
                assert(b.subrange(30 * i, 30 * i + 30) =~= telemetry_key_bytes(keys.last()));
            }
        }
    }
}

/// Lists of keys with the same bytes are the same list.
pub proof fn lemma_telemetry_keys_injective(a: Seq<TelemetryKey>, b: Seq<TelemetryKey>)
    requires
        telemetry_keys_bytes(a) == telemetry_keys_bytes(b),
    ensures
        a == b,
{
    lemma_telemetry_keys_bytes(a);
    lemma_telemetry_keys_bytes(b);
    assert forall|i: int| 0 <= i < a.len() implies a[i] == b[i] by {
        assert(telemetry_keys_bytes(a).subrange(30 * i, 30 * i + 30) == telemetry_key_bytes(a[i]));
        assert(telemetry_keys_bytes(b).subrange(30 * i, 30 * i + 30) == telemetry_key_bytes(b[i]));
        lemma_telemetry_key_injective(a[i], b[i]);
    }
    assert(a =~= b);
}

impl TelemetryKey {
    pub fn recv(source: &mut Reader) -> (r: Result<TelemetryKey, Error>)
        ensures
            match r {
                Ok(k) => old(source)@.len() >= 30 && telemetry_key_bytes(k) == old(source)@.take(30)
                    && final(source)@ == old(source)@.skip(30),
                Err(e) => e == Error::EOF && old(source)@.len() < 30,
            },
    {
        let ghost s = source@;
        if source.remaining() < 30 {
            return Err(Error::EOF);
        }
        let unk1 = source.read_u16_le()?;
        let unk2 = source.read_u32_le()?;
        let unk3 = source.read_exact_slice::<4>()?;
        let proof = source.read_exact_slice::<20>()?;
        let k = TelemetryKey { unk1, unk2, unk3, proof };
        proof {
            lemma_le16(unk1);
            lemma_le32(unk2);
            assert(telemetry_key_bytes(k) =~= s.take(30));
            assert(source@ =~= s.skip(30));
        }
        Ok(k)
    }

    pub fn send(&self, dest: &mut Vec<u8>)
        ensures
            final(dest)@ == old(dest)@ + telemetry_key_bytes(*self),
    {
        write_u16_le(dest, self.unk1);
        write_u32_le(dest, self.unk2);
        write_slice(dest, &self.unk3);
        write_slice(dest, &self.proof);
        assert(dest@ =~= old(dest)@ + telemetry_key_bytes(*self));
    }
}

/// The bytes of a proof request before its security block.
pub open spec fn proof_request_head(r: LogonProofRequest) -> Seq<u8> {
    (r.public_key@ + r.proof@ + r.crc@) + (seq![r.telemetry_keys@.len() as u8] + telemetry_keys_bytes(r.telemetry_keys@))
}

/// What encoding `r` under `p` gives.
pub open spec fn proof_request_encoded(r: LogonProofRequest, p: GruntProtocol) -> Result<Seq<u8>, Error> {
    if p.version is None {
        Err(Error::Unversioned)
    } else if r.telemetry_keys@.len() > 255 {
        Err(Error::TooLong)
    } else {
        match security_proof_encoded(r.security, p) {
            Err(e) => Err(e),
            Ok(sb) => Ok(proof_request_head(r) + sb),
        }
    }
}

/// How many bytes a proof request at the front of `s` takes under `p`, or
/// why there is none.
pub open spec fn proof_request_extent(s: Seq<u8>, p: GruntProtocol) -> Result<int, Error> {
    if s.len() < 73 {
        Err(Error::EOF)
    } else if s.len() < 73 + 30 * s[72] {
        Err(Error::EOF)
    } else {
        match security_proof_extent(s.skip(73 + 30 * s[72]), p) {
            Err(e) => Err(e),
            Ok(k) => Ok(73 + 30 * s[72] + k),
        }
    }
}

/// Equal requests, comparing strings by their characters.
pub open spec fn same_proof_request(a: LogonProofRequest, b: LogonProofRequest) -> bool {
    &&& a.public_key == b.public_key
    &&& a.proof == b.proof
    &&& a.crc == b.crc
    &&& a.telemetry_keys@ == b.telemetry_keys@
    &&& same_security_proof(a.security, b.security)
}

/// A proof request decodes back to the request that was encoded: the
/// message at the front of its bytes is exactly as long as the encoding, and
/// any request that decoding can yield with the same encoding holds the same
/// fields.
pub proof fn lemma_proof_request_round_trip(r: LogonProofRequest, r2: LogonProofRequest, p: GruntProtocol, rest: Seq<u8>)
    requires
        proof_request_encoded(r, p) is Ok,
        security_proof_valid(r2.security, p),
        proof_request_encoded(r2, p) == proof_request_encoded(r, p),
    ensures
        proof_request_extent(proof_request_encoded(r, p)->Ok_0 + rest, p)
            == Ok::<int, Error>(proof_request_encoded(r, p)->Ok_0.len() as int),
        same_proof_request(r2, r),
{
    let w = proof_request_encoded(r, p)->Ok_0;
    let s = w + rest;
    let n: int = r.telemetry_keys@.len() as int;
    let n2: int = r2.telemetry_keys@.len() as int;
    lemma_telemetry_keys_bytes(r.telemetry_keys@);
    lemma_telemetry_keys_bytes(r2.telemetry_keys@);
    let sb = security_proof_encoded(r.security, p)->Ok_0;
    let sb2 = security_proof_encoded(r2.security, p)->Ok_0;
    assert(w[72] == n);
    assert(w[72] == n2);
    assert(s[72] == n);
    assert(s.skip(73 + 30 * n) =~= sb + rest);
    lemma_security_proof_round_trip(r.security, r.security, p, rest);
    assert(sb =~= w.skip(73 + 30 * n));
    assert(sb2 =~= w.skip(73 + 30 * n));
    lemma_security_proof_round_trip(r.security, r2.security, p, rest);
    assert(r.public_key@ =~= w.subrange(0, 32));
    assert(r2.public_key@ =~= w.subrange(0, 32));
    assert(r.proof@ =~= w.subrange(32, 52));
    assert(r2.proof@ =~= w.subrange(32, 52));
    assert(r.crc@ =~= w.subrange(52, 72));
    assert(r2.crc@ =~= w.subrange(52, 72));
    assert(r.public_key =~= r2.public_key);
    assert(r.proof =~= r2.proof);
    assert(r.crc =~= r2.crc);
    assert(telemetry_keys_bytes(r.telemetry_keys@) =~= w.subrange(73, 73 + 30 * n));
    assert(telemetry_keys_bytes(r2.telemetry_keys@) =~= w.subrange(73, 73 + 30 * n));
    lemma_telemetry_keys_injective(r.telemetry_keys@, r2.telemetry_keys@);
}

impl LogonProofRequest {

    #[verifier::rlimit(60)]
    pub fn recv(source: &mut Reader, protocol: &GruntProtocol) -> (r: Result<LogonProofRequest, Error>)
        ensures
            match proof_request_extent(old(source)@, *protocol) {
                Ok(n) => r matches Ok(x) && security_proof_valid(x.security, *protocol)
                    && proof_request_encoded(x, *protocol) == Ok::<Seq<u8>, Error>(old(source)@.take(n))
                    && final(source)@ == old(source)@.skip(n),
                Err(e) => r == Err::<LogonProofRequest, Error>(e),
            },
    {
        let ghost s = source@;
        if source.remaining() < 73 {
            return Err(Error::EOF);
        }
        let public_key = source.read_exact_slice::<32>()?;
        let proof = source.read_exact_slice::<20>()?;
        let crc = source.read_exact_slice::<20>()?;
        let count = source.read_u8()?;
        proof {
            assert(s[72] == count);
        }
        if source.remaining() < 30 * (count as usize) {
            return Err(Error::EOF);
        }
        let ghost t = source@;
        let mut telemetry_keys: Vec<TelemetryKey> = Vec::new();
        let mut i: u8 = 0;
        while i < count
            invariant
                i <= count,
                t.len() >= 30 * count,
                telemetry_keys@.len() == i,
                source@ == t.skip(30 * i),
                telemetry_keys_bytes(telemetry_keys@) == t.take(30 * i),
            decreases count - i,
        {
            let ghost before = source@;
            let ghost keys0 = telemetry_keys@;
            let k = TelemetryKey::recv(source)?;
            telemetry_keys.push(k);
            proof {
                assert(telemetry_keys@.drop_last() =~= keys0);
                assert(t.take(30 * (i + 1)) =~= t.take(30 * i) + before.take(30));
                assert(source@ =~= t.skip(30 * (i + 1)));
            }
            i = i + 1;
        }
        let ghost before = source@;
        assert(before =~= s.skip(73 + 30 * count));
        let security = SecurityProof::recv(source, protocol)?;
        let x = LogonProofRequest { public_key, proof, crc, telemetry_keys, security };
        proof {
            let k = security_proof_extent(before, *protocol)->Ok_0;
            let n = 73 + 30 * count;
            assert(before =~= s.skip(n));
            assert(proof_request_head(x) =~= s.take(n));
            assert(s.take(n + k) =~= s.take(n) + before.take(k));
            assert(source@ =~= s.skip(n + k));
        }
        Ok(x)
    }

}

impl Payload for LogonProofRequest {
    open spec fn wire(&self, p: GruntProtocol) -> Result<Seq<u8>, Error> {
        proof_request_encoded(*self, p)
    }

    open spec fn tag(&self) -> u8 {
        0x01
    }

    /// Proof requests travel under command code 0x01.
    fn identifier(&self) -> (id: GruntIdentifier) {
        GruntIdentifier(0x01)
    }

    fn send(&self, dest: &mut Vec<u8>, protocol: &GruntProtocol) -> (r: Result<(), Error>) {
        if protocol.version.is_none() {
            return Err(Error::Unversioned);
        }
        if self.telemetry_keys.len() > 255 {
            return Err(Error::TooLong);
        }
        let mut security: Vec<u8> = Vec::new();
        self.security.send(&mut security, protocol)?;
        assert(security@ =~= security_proof_encoded(self.security, *protocol)->Ok_0);
        write_slice(dest, &self.public_key);
        write_slice(dest, &self.proof);
        write_slice(dest, &self.crc);
        write_u8(dest, self.telemetry_keys.len() as u8);
        let ghost head = dest@;
        let mut i: usize = 0;
        while i < self.telemetry_keys.len()
            invariant
                i <= self.telemetry_keys@.len(),
                dest@ == head + telemetry_keys_bytes(self.telemetry_keys@.take(i as int)),
            decreases self.telemetry_keys@.len() - i,
        {
            self.telemetry_keys[i].send(dest);
            proof {
                assert(self.telemetry_keys@.take(i + 1).drop_last() =~= self.telemetry_keys@.take(i as int));
            }
            i = i + 1;
        }
        assert(self.telemetry_keys@.take(i as int) =~= self.telemetry_keys@);
        write_slice(dest, security.as_slice());
        assert(dest@ =~= old(dest)@ + (proof_request_head(*self) + security@));
        Ok(())
    }
}

} // verus!
