//! The optional security block that ends a challenge response (the
//! challenge) and a proof request (the proof).

use vstd::prelude::*;

use crate::codec::{
    le32, le64, lemma_le32, lemma_le64, lemma_utf8_injective, utf8_of, write_slice, write_string,
    write_u32_le, write_u64_le, write_u8, Error, Reader,
};
use crate::grunt::protocol::GruntProtocol;
use vstd::utf8::{encode_utf8_valid_utf8, valid_utf8};

verus! {

/// An extra check that the server asks the client to pass.
#[derive(Debug, Clone, Copy, PartialEq, Eq)]
pub enum SecurityChallenge {
    Disabled,
    Pin { seed: u32, salt: [u8; 16] },
    Matrix { width: u8, height: u8, digits: u8, challenges: u8, seed: u64 },
    Authenticator(u8),
}

/// The client's answer to a `SecurityChallenge`.
#[derive(Debug, Clone, PartialEq, Eq)]
pub enum SecurityProof {
    Disabled,
    Pin { salt: [u8; 16], hash: [u8; 16] },
    Matrix { proof: [u8; 20] },
    Authenticator(String),
}

/// Under version 2 the block is absent from the wire.
pub open spec fn has_security_block(p: GruntProtocol) -> bool {
    p.version != Some(2u8)
}

/// The bytes of a challenge block under a version that carries one.
pub open spec fn security_challenge_bytes(c: SecurityChallenge) -> Seq<u8> {
    match c {
        SecurityChallenge::Disabled => seq![0u8],
        SecurityChallenge::Pin { seed, salt } => seq![1u8] + le32(seed) + salt@,
        SecurityChallenge::Matrix { width, height, digits, challenges, seed } =>
            seq![2u8, width, height, digits, challenges] + le64(seed),
        SecurityChallenge::Authenticator(code) => seq![3u8, code],
    }
}

/// What encoding `c` under `p` gives: nothing under version 2, whatever `c`
/// holds.
pub open spec fn security_challenge_encoded(c: SecurityChallenge, p: GruntProtocol) -> Result<Seq<u8>, Error> {
    match p.version {
        None => Err(Error::Unversioned),
        Some(v) => if v == 2 {
            Ok(Seq::empty())
        } else {
            Ok(security_challenge_bytes(c))
        },
    }
}

/// How many bytes a challenge block at the front of `s` takes under `p`, or
/// why there is none.
pub open spec fn security_challenge_extent(s: Seq<u8>, p: GruntProtocol) -> Result<int, Error> {
    match p.version {
        None => Err(Error::Unversioned),
        Some(v) => if v == 2 {
            Ok(0)
        } else if s.len() < 1 {
            Err(Error::EOF)
        } else {
            let n: int = if s[0] == 0 { 1 } else if s[0] == 1 { 21 } else if s[0] == 2 { 13 } else { 2 };
            if s[0] > 3 {
                Err(Error::UnknownSecurityKind(s[0]))
            } else if s.len() < n {
                Err(Error::EOF)
            } else {
                Ok(n)
            }
        },
    }
}

/// A challenge that decoding yields under `p`: under version 2 only `None`.
pub open spec fn security_challenge_valid(c: SecurityChallenge, p: GruntProtocol) -> bool {
    p.version is Some && (has_security_block(p) || c == SecurityChallenge::Disabled)
}

/// The bytes of a proof block under a version that carries one.
pub open spec fn security_proof_bytes(c: SecurityProof) -> Seq<u8> {
    match c {
        SecurityProof::Disabled => seq![0u8],
        SecurityProof::Pin { salt, hash } => seq![1u8] + salt@ + hash@,
        SecurityProof::Matrix { proof } => seq![2u8] + proof@,
        SecurityProof::Authenticator(s) => seq![3u8, utf8_of(s@).len() as u8] + utf8_of(s@),
    }
}

/// What encoding `c` under `p` gives. Under version 2 only `None` can be
/// written, as nothing.
pub open spec fn security_proof_encoded(c: SecurityProof, p: GruntProtocol) -> Result<Seq<u8>, Error> {
    match p.version {
        None => Err(Error::Unversioned),
        Some(v) => if v == 2 {
            if c is Disabled {
                Ok(Seq::empty())
            } else {
                Err(Error::NotEncodable)
            }
        } else {
            match c {
                SecurityProof::Authenticator(s) => if utf8_of(s@).len() > 255 {
                    Err(Error::TooLong)
                } else {
                    Ok(security_proof_bytes(c))
                },
                _ => Ok(security_proof_bytes(c)),
            }
        },
    }
}

/// How many bytes a proof block at the front of `s` takes under `p`, or why
/// there is none.
pub open spec fn security_proof_extent(s: Seq<u8>, p: GruntProtocol) -> Result<int, Error> {
    match p.version {
        None => Err(Error::Unversioned),
        Some(v) => if v == 2 {
            Ok(0)
        } else if s.len() < 1 {
            Err(Error::EOF)
        } else if s[0] == 0 {
            Ok(1)
        } else if s[0] == 1 {
            if s.len() < 33 { Err(Error::EOF) } else { Ok(33) }
        } else if s[0] == 2 {
            if s.len() < 21 { Err(Error::EOF) } else { Ok(21) }
        } else if s[0] == 3 {
            if s.len() < 2 {
                Err(Error::EOF)
            } else if s.len() < 2 + s[1] {
                Err(Error::EOF)
            } else if !valid_utf8(s.subrange(2, 2 + s[1])) {
                Err(Error::InvalidUtf8)
            } else {
                Ok(2 + s[1])
            }
        } else {
            Err(Error::UnknownSecurityKind(s[0]))
        },
    }
}

/// Equal proofs, comparing strings by their characters.
pub open spec fn same_security_proof(a: SecurityProof, b: SecurityProof) -> bool {
    match (a, b) {
        (SecurityProof::Authenticator(x), SecurityProof::Authenticator(y)) => x@ == y@,
        _ => a == b,
    }
}

/// A challenge block decodes back to the challenge that was encoded: the
/// block at the front of its bytes is exactly as long as the encoding, and no
/// other challenge that decoding can yield has that encoding. (Under version 2
/// every challenge encodes as nothing, and only `Disabled` comes back.)
pub proof fn lemma_security_challenge_round_trip(c: SecurityChallenge, c2: SecurityChallenge, p: GruntProtocol, rest: Seq<u8>)
    requires
        security_challenge_valid(c, p),
        security_challenge_valid(c2, p),
        security_challenge_encoded(c2, p) == security_challenge_encoded(c, p),
    ensures
        security_challenge_extent(security_challenge_encoded(c, p)->Ok_0 + rest, p)
            == Ok::<int, Error>(security_challenge_encoded(c, p)->Ok_0.len() as int),
        c2 == c,
{
    let w = security_challenge_encoded(c, p)->Ok_0;
    let s = w + rest;
    if has_security_block(p) {
        assert(s[0] == w[0]);
        match c {
            SecurityChallenge::Pin { seed, salt } => {
                lemma_le32(seed);
                assert(s.subrange(0, 21) =~= w);
                if let SecurityChallenge::Pin { seed: seed2, salt: salt2 } = c2 {
                    lemma_le32(seed2);
                    assert(le32(seed) =~= w.subrange(1, 5));
                    assert(le32(seed2) =~= w.subrange(1, 5));
                    assert(salt@ =~= w.subrange(5, 21));
                    assert(salt2@ =~= w.subrange(5, 21));
                    assert(salt =~= salt2);
                }
            },
            SecurityChallenge::Matrix { width, height, digits, challenges, seed } => {
                lemma_le64(seed);
                if let SecurityChallenge::Matrix { seed: seed2, .. } = c2 {
                    lemma_le64(seed2);
                    assert(le64(seed) =~= w.subrange(5, 13));
                    assert(le64(seed2) =~= w.subrange(5, 13));
                    assert(w[1] == width && w[2] == height && w[3] == digits && w[4] == challenges);
                }
            },
            SecurityChallenge::Authenticator(_) => {
                assert(w[1] == s[1]);
            },
            SecurityChallenge::Disabled => {},
        }
    }
}

/// Under version 2 neither block is on the wire: decoding takes no bytes,
/// whatever follows, and yields `Disabled`; a challenge of any kind encodes
/// as nothing, and so does a `Disabled` proof.
pub proof fn lemma_security_absent_under_version_2(s: Seq<u8>, c: SecurityChallenge, p: GruntProtocol)
    requires
        p.version == Some(2u8),
    ensures
        security_challenge_extent(s, p) == Ok::<int, Error>(0),
        security_proof_extent(s, p) == Ok::<int, Error>(0),
        security_challenge_encoded(c, p) == Ok::<Seq<u8>, Error>(Seq::empty()),
        security_proof_encoded(SecurityProof::Disabled, p) == Ok::<Seq<u8>, Error>(Seq::empty()),
        security_challenge_valid(c, p) <==> c == SecurityChallenge::Disabled,
{
}

impl SecurityChallenge {
    pub fn recv(source: &mut Reader, protocol: &GruntProtocol) -> (r: Result<SecurityChallenge, Error>)
        ensures
            match security_challenge_extent(old(source)@, *protocol) {
                Ok(n) => r matches Ok(c) && security_challenge_valid(c, *protocol)
                    && security_challenge_encoded(c, *protocol) == Ok::<Seq<u8>, Error>(old(source)@.take(n))
                    && final(source)@ == old(source)@.skip(n),
                Err(e) => r == Err::<SecurityChallenge, Error>(e),
            },
    {
        let ghost s = source@;
        if !protocol.wire_format()?.security_blocks {
            assert(s.take(0) =~= Seq::<u8>::empty());
            assert(s.skip(0) =~= s);
            return Ok(SecurityChallenge::Disabled);
        }
        let kind = source.read_u8()?;
        let ghost s1 = source@;
        if kind == 0 {
            assert(s.take(1) =~= seq![0u8]);
            Ok(SecurityChallenge::Disabled)
        } else if kind == 1 {
            if source.remaining() < 20 {
                return Err(Error::EOF);
            }
            let seed = source.read_u32_le()?;
            let salt = source.read_exact_slice::<16>()?;
            assert(s.take(21) =~= seq![1u8] + le32(seed) + salt@);
            assert(source@ =~= s.skip(21));
            Ok(SecurityChallenge::Pin { seed, salt })
        } else if kind == 2 {
            if source.remaining() < 12 {
                return Err(Error::EOF);
            }
            let width = source.read_u8()?;
            let height = source.read_u8()?;
            let digits = source.read_u8()?;
            let challenges = source.read_u8()?;
            let seed = source.read_u64_le()?;
            assert(s.take(13) =~= seq![2u8, width, height, digits, challenges] + le64(seed));
            assert(source@ =~= s.skip(13));
            Ok(SecurityChallenge::Matrix { width, height, digits, challenges, seed })
        } else if kind == 3 {
            let code = source.read_u8()?;
            assert(s.take(2) =~= seq![3u8, code]);
            assert(source@ =~= s.skip(2));
            Ok(SecurityChallenge::Authenticator(code))
        } else {
            Err(Error::UnknownSecurityKind(kind))
        }
    }

    pub fn send(&self, dest: &mut Vec<u8>, protocol: &GruntProtocol) -> (r: Result<(), Error>)
        ensures
            match security_challenge_encoded(*self, *protocol) {
                Ok(bytes) => r is Ok && final(dest)@ == old(dest)@ + bytes,
                Err(e) => r == Err::<(), Error>(e) && final(dest)@ == old(dest)@,
            },
    {
        if !protocol.wire_format()?.security_blocks {
            assert(dest@ =~= old(dest)@ + Seq::<u8>::empty());
            return Ok(());
        }
        match self {
            SecurityChallenge::Disabled => {
                write_u8(dest, 0);
            },
            SecurityChallenge::Pin { seed, salt } => {
                write_u8(dest, 1);
                write_u32_le(dest, *seed);
                write_slice(dest, salt);
                assert(dest@ =~= old(dest)@ + (seq![1u8] + le32(*seed) + salt@));
            },
            SecurityChallenge::Matrix { width, height, digits, challenges, seed } => {
                write_u8(dest, 2);
                write_u8(dest, *width);
                write_u8(dest, *height);
                write_u8(dest, *digits);
                write_u8(dest, *challenges);
                write_u64_le(dest, *seed);
                assert(dest@ =~= old(dest)@ + (seq![2u8, *width, *height, *digits, *challenges] + le64(*seed)));
            },
            SecurityChallenge::Authenticator(code) => {
                write_u8(dest, 3);
                write_u8(dest, *code);
                assert(dest@ =~= old(dest)@ + seq![3u8, *code]);
            },
        }
        Ok(())
    }
}

/// A proof that decoding yields under `p`: under version 2 only `Disabled`.
pub open spec fn security_proof_valid(c: SecurityProof, p: GruntProtocol) -> bool {
    p.version is Some && (has_security_block(p) || c is Disabled)
}

/// A proof block decodes back to the proof that was encoded: the block at the
/// front of its bytes is exactly as long as the encoding, and no other proof
/// that decoding can yield has that encoding.
pub proof fn lemma_security_proof_round_trip(c: SecurityProof, c2: SecurityProof, p: GruntProtocol, rest: Seq<u8>)
    requires
        security_proof_encoded(c, p) is Ok,
        security_proof_valid(c2, p),
        security_proof_encoded(c2, p) == security_proof_encoded(c, p),
    ensures
        security_proof_extent(security_proof_encoded(c, p)->Ok_0 + rest, p)
            == Ok::<int, Error>(security_proof_encoded(c, p)->Ok_0.len() as int),
        same_security_proof(c2, c),
{
    let w = security_proof_encoded(c, p)->Ok_0;
    let s = w + rest;
    if has_security_block(p) {
        assert(s[0] == w[0]);
        match c {
            SecurityProof::Pin { salt, hash } => {
                if let SecurityProof::Pin { salt: salt2, hash: hash2 } = c2 {
                    assert(salt@ =~= w.subrange(1, 17));
                    assert(salt2@ =~= w.subrange(1, 17));
                    assert(hash@ =~= w.subrange(17, 33));
                    assert(hash2@ =~= w.subrange(17, 33));
                    assert(salt =~= salt2);
                    assert(hash =~= hash2);
                }
            },
            SecurityProof::Matrix { proof } => {
                if let SecurityProof::Matrix { proof: proof2 } = c2 {
                    assert(proof@ =~= w.subrange(1, 21));
                    assert(proof2@ =~= w.subrange(1, 21));
                    assert(proof =~= proof2);
                }
            },
            SecurityProof::Authenticator(text) => {
                let b = utf8_of(text@);
                assert(s[1] == b.len());
                assert(s.subrange(2, 2 + b.len() as int) =~= b);
                encode_utf8_valid_utf8(text@);
                if let SecurityProof::Authenticator(text2) = c2 {
                    let b2 = utf8_of(text2@);
                    assert(w[1] == b2.len());
                    assert(b2 =~= w.subrange(2, 2 + b2.len() as int));
                    assert(b =~= w.subrange(2, 2 + b.len() as int));
                    lemma_utf8_injective(text@, text2@);
                }
            },
            SecurityProof::Disabled => {},
        }
    }
}

impl SecurityProof {
    pub fn recv(source: &mut Reader, protocol: &GruntProtocol) -> (r: Result<SecurityProof, Error>)
        ensures
            match security_proof_extent(old(source)@, *protocol) {
                Ok(n) => r matches Ok(c) && security_proof_valid(c, *protocol)
                    && security_proof_encoded(c, *protocol) == Ok::<Seq<u8>, Error>(old(source)@.take(n))
                    && final(source)@ == old(source)@.skip(n),
                Err(e) => r == Err::<SecurityProof, Error>(e),
            },
    {
        let ghost s = source@;
        if !protocol.wire_format()?.security_blocks {
            assert(s.take(0) =~= Seq::<u8>::empty());
            assert(s.skip(0) =~= s);
            return Ok(SecurityProof::Disabled);
        }
        let kind = source.read_u8()?;
        if kind == 0 {
            assert(s.take(1) =~= seq![0u8]);
            Ok(SecurityProof::Disabled)
        } else if kind == 1 {
            if source.remaining() < 32 {
                return Err(Error::EOF);
            }
            let salt = source.read_exact_slice::<16>()?;
            let hash = source.read_exact_slice::<16>()?;
            assert(s.take(33) =~= seq![1u8] + salt@ + hash@);
            assert(source@ =~= s.skip(33));
            Ok(SecurityProof::Pin { salt, hash })
        } else if kind == 2 {
            let proof = source.read_exact_slice::<20>()?;
            assert(s.take(21) =~= seq![2u8] + proof@);
            assert(source@ =~= s.skip(21));
            Ok(SecurityProof::Matrix { proof })
        } else if kind == 3 {
            let len = source.read_u8()?;
            let ghost s2 = source@;
            proof {
                if s2.len() >= len {
                    assert(s2.take(len as int) =~= s.subrange(2, 2 + len));
                }
            }
            let text = source.read_string(len as usize)?;
            proof {
                encode_utf8_valid_utf8(text@);
                assert(s2.take(len as int) =~= s.subrange(2, 2 + len));
                assert(utf8_of(text@).len() == len);
                assert(s.take(2 + len) =~= seq![3u8, utf8_of(text@).len() as u8] + utf8_of(text@));
                assert(source@ =~= s.skip(2 + len));
            }
            Ok(SecurityProof::Authenticator(text))
        } else {
            Err(Error::UnknownSecurityKind(kind))
        }
    }

    pub fn send(&self, dest: &mut Vec<u8>, protocol: &GruntProtocol) -> (r: Result<(), Error>)
        ensures
            match security_proof_encoded(*self, *protocol) {
                Ok(bytes) => r is Ok && final(dest)@ == old(dest)@ + bytes,
                Err(e) => r == Err::<(), Error>(e) && final(dest)@ == old(dest)@,
            },
    {
        if !protocol.wire_format()?.security_blocks {
            if let SecurityProof::Disabled = self {
                assert(dest@ =~= old(dest)@ + Seq::<u8>::empty());
                return Ok(());
            } else {
                return Err(Error::NotEncodable);
            }
        }
        match self {
            SecurityProof::Disabled => {
                write_u8(dest, 0);
            },
            SecurityProof::Pin { salt, hash } => {
                write_u8(dest, 1);
                write_slice(dest, salt);
                write_slice(dest, hash);
                assert(dest@ =~= old(dest)@ + (seq![1u8] + salt@ + hash@));
            },
            SecurityProof::Matrix { proof } => {
                write_u8(dest, 2);
                write_slice(dest, proof);
                assert(dest@ =~= old(dest)@ + (seq![2u8] + proof@));
            },
            SecurityProof::Authenticator(text) => {
                let len = text.as_str().as_bytes().len();
                if len > 255 {
                    return Err(Error::TooLong);
                }
                write_u8(dest, 3);
                write_u8(dest, len as u8);
                write_string(dest, text.as_str());
                assert(dest@ =~= old(dest)@ + (seq![3u8, len as u8] + utf8_of(text@)));
            },
        }
        Ok(())
    }
}

} // verus!
