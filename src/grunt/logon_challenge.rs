//! The first message of the handshake (the challenge request, which fixes the
//! protocol version) and the server's answer to it.

use vstd::prelude::*;

use crate::codec::{
    le16, le32, le32_signed, lemma_le16, lemma_le32, lemma_le32_signed, lemma_utf8_injective,
    utf8_of, write_i32_le, write_slice, write_string, write_u16_le, write_u32_le, write_u8, Error, Reader,
};
use crate::grunt::login_result::{
    lemma_login_result_of_valid, lemma_login_result_round_trip, login_result_encoded, login_result_code, login_result_decoded, login_result_valid, LoginResult,
};
use crate::grunt::protocol::{supported_version, GruntIdentifier, GruntProtocol, Payload};
use crate::grunt::version::Version;
use crate::grunt::security::{
    lemma_security_challenge_round_trip, security_challenge_encoded, security_challenge_extent,
    security_challenge_valid, SecurityChallenge,
};
use vstd::bytes::{spec_u16_from_le_bytes, spec_u32_from_le_bytes};
use vstd::utf8::{encode_utf8_valid_utf8, valid_utf8};

verus! {

/// The client's opening message. The address is an IPv4 address as its four
/// octets, most significant first.
#[derive(Debug, Clone, PartialEq, Eq)]
pub struct LogonChallengeRequest {
    pub game: u32,
    pub version: Version,
    pub platform: u32,
    pub os: u32,
    pub locale: u32,
    pub timezone: i32,
    pub address: [u8; 4],
    pub account_name: String,
}

/// Bytes of a challenge request that precede the account name's length.
pub open spec fn challenge_request_fixed_len() -> int {
    29
}

/// The longest account name, in bytes, that fits the one-byte size field.
pub open spec fn max_account_name_len() -> int {
    255 - 30
}

/// The body of a challenge request: everything after its size byte.
pub open spec fn challenge_request_body(r: LogonChallengeRequest) -> Seq<u8> {
    (le32(r.game) + seq![r.version.major, r.version.minor, r.version.patch] + le16(r.version.build))
        + ((le32(r.platform) + le32(r.os)) + (le32(r.locale) + le32_signed(r.timezone)))
        + (r.address@ + seq![utf8_of(r.account_name@).len() as u8] + utf8_of(r.account_name@))
}

/// What encoding `r` under `p` gives: the version, the body's size, the body.
pub open spec fn challenge_request_encoded(r: LogonChallengeRequest, p: GruntProtocol) -> Result<Seq<u8>, Error> {
    match p.version {
        None => Err(Error::Unversioned),
        Some(v) => if utf8_of(r.account_name@).len() > max_account_name_len() {
            Err(Error::TooLong)
        } else {
            Ok(seq![v, challenge_request_body(r).len() as u8] + challenge_request_body(r))
        },
    }
}

/// How many bytes a challenge request at the front of `s` takes, or why there
/// is none. A peer that already has a version accepts only that version.
pub open spec fn challenge_request_extent(s: Seq<u8>, p: GruntProtocol) -> Result<int, Error> {
    if s.len() < 2 {
        Err(Error::EOF)
    } else if p.version matches Some(v) && v != s[0] {
        Err(Error::Renegotiation)
    } else if s.len() < 2 + s[1] {
        Err(Error::EOF)
    } else if s[1] < challenge_request_fixed_len() + 1 || s[1] != challenge_request_fixed_len() + 1 + s[31] {
        Err(Error::SizeMismatch)
    } else if !valid_utf8(s.subrange(32, 2 + s[1])) {
        Err(Error::InvalidUtf8)
    } else {
        Ok(2 + s[1])
    }
}

/// Equal requests, comparing account names by their characters.
pub open spec fn same_challenge_request(a: LogonChallengeRequest, b: LogonChallengeRequest) -> bool {
    &&& a.game == b.game
    &&& a.version == b.version
    &&& a.platform == b.platform
    &&& a.os == b.os
    &&& a.locale == b.locale
    &&& a.timezone == b.timezone
    &&& a.address == b.address
    &&& a.account_name@ == b.account_name@
}

/// The size byte of an encoded challenge request counts exactly the bytes
/// that follow it.
pub proof fn lemma_challenge_request_size_byte(r: LogonChallengeRequest, p: GruntProtocol)
    requires
        challenge_request_encoded(r, p) is Ok,
    ensures
        challenge_request_encoded(r, p)->Ok_0[1] == challenge_request_encoded(r, p)->Ok_0.len() - 2,
        challenge_request_body(r).len() == 30 + utf8_of(r.account_name@).len(),
{
    lemma_le16(r.version.build);
    lemma_le32(r.game);
    lemma_le32(r.platform);
    lemma_le32(r.os);
    lemma_le32(r.locale);
    lemma_le32_signed(r.timezone);
}

/// A challenge request decodes back to the request that was encoded: the
/// message at the front of its bytes is exactly as long as the encoding, and
/// any request with the same encoding holds the same fields.
pub proof fn lemma_challenge_request_round_trip(
    r: LogonChallengeRequest,
    r2: LogonChallengeRequest,
    p: GruntProtocol,
    rest: Seq<u8>,
)
    requires
        challenge_request_encoded(r, p) is Ok,
        challenge_request_encoded(r2, p) == challenge_request_encoded(r, p),
    ensures
        challenge_request_extent(challenge_request_encoded(r, p)->Ok_0 + rest, p)
            == Ok::<int, Error>(challenge_request_encoded(r, p)->Ok_0.len() as int),
        same_challenge_request(r2, r),
{
    lemma_challenge_request_size_byte(r, p);
    lemma_challenge_request_size_byte(r2, p);
    let w = challenge_request_encoded(r, p)->Ok_0;
    let s = w + rest;
    let name = utf8_of(r.account_name@);
    let name2 = utf8_of(r2.account_name@);
    assert(s[0] == w[0] && s[1] == w[1]);
    assert(w[31] == name.len());
    assert(s[31] == w[31]);
    assert(s.subrange(32, 2 + s[1]) =~= name);
    encode_utf8_valid_utf8(r.account_name@);
    assert(name =~= w.subrange(32, w.len() as int));
    assert(name2 =~= w.subrange(32, w.len() as int));
    lemma_utf8_injective(r.account_name@, r2.account_name@);
    lemma_le32(r.game);
    lemma_le32(r.platform);
    lemma_le32(r.os);
    lemma_le32(r.locale);
    lemma_le32_signed(r.timezone);
    lemma_le16(r.version.build);
    lemma_le32(r2.game);
    lemma_le32(r2.platform);
    lemma_le32(r2.os);
    lemma_le32(r2.locale);
    lemma_le32_signed(r2.timezone);
    lemma_le16(r2.version.build);
    assert(le32(r.game) =~= w.subrange(2, 6));
    assert(le32(r2.game) =~= w.subrange(2, 6));
    assert(w[6] == r.version.major && w[7] == r.version.minor && w[8] == r.version.patch);
    assert(w[6] == r2.version.major && w[7] == r2.version.minor && w[8] == r2.version.patch);
    assert(le16(r.version.build) =~= w.subrange(9, 11));
    assert(le16(r2.version.build) =~= w.subrange(9, 11));
    assert(le32(r.platform) =~= w.subrange(11, 15));
    assert(le32(r2.platform) =~= w.subrange(11, 15));
    assert(le32(r.os) =~= w.subrange(15, 19));
    assert(le32(r2.os) =~= w.subrange(15, 19));
    assert(le32(r.locale) =~= w.subrange(19, 23));
    assert(le32(r2.locale) =~= w.subrange(19, 23));
    assert(le32_signed(r.timezone) =~= w.subrange(23, 27));
    assert(le32_signed(r2.timezone) =~= w.subrange(23, 27));
    assert(r.address@ =~= w.subrange(27, 31));
    assert(r2.address@ =~= w.subrange(27, 31));
    assert(r.address =~= r2.address);
}

impl LogonChallengeRequest {

    /// Decodes a challenge request and records its version as the
    /// negotiated one; on error neither the source nor the state moves. The
    /// body is read through an adapter bounded by the size byte, so that it
    /// cannot reach into the next message.
    #[verifier::rlimit(60)]
    pub fn recv(source: &mut Reader, protocol: &mut GruntProtocol) -> (r: Result<LogonChallengeRequest, Error>)
        ensures
            match challenge_request_extent(old(source)@, *old(protocol)) {
                Ok(n) => r matches Ok(x) && final(protocol).version == Some(old(source)@[0])
                    && challenge_request_encoded(x, *final(protocol)) == Ok::<Seq<u8>, Error>(old(source)@.take(n))
                    && final(source)@ == old(source)@.skip(n),
                Err(e) => r == Err::<LogonChallengeRequest, Error>(e) && *final(protocol) == *old(protocol)
                    && *final(source) == *old(source),
            },
    {
        let ghost s = source@;
        let saved = *source;
        if source.remaining() < 2 {
            return Err(Error::EOF);
        }
        let version = source.read_u8()?;
        if let Some(v) = protocol.version {
            if v != version {
                *source = saved;
                return Err(Error::Renegotiation);
            }
        }
        let size = source.read_u8()?;
        if source.remaining() < size as usize {
            *source = saved;
            return Err(Error::EOF);
        }
        if size < 30 {
            *source = saved;
            return Err(Error::SizeMismatch);
        }
        let ghost b0 = source@;
        let mut body = source.take(size as usize);
        let game = body.read_u32_le()?;
        let numbers = body.read_exact_slice::<3>()?;
        let build = body.read_u16_le()?;
        let platform = body.read_u32_le()?;
        let os = body.read_u32_le()?;
        let locale = body.read_u32_le()?;
        let timezone = body.read_i32_le()?;
        let address = body.read_exact_slice::<4>()?;
        let ghost b1 = body@;
        let name_len = body.read_u8()?;
        proof {
            assert(b0[29] == s[31]);
            assert(b1 =~= b0.skip(29));
        }
        if size as usize != 30 + name_len as usize {
            *source = saved;
            return Err(Error::SizeMismatch);
        }
        let ghost b2 = body@;
        proof {
            assert(b2.take(name_len as int) =~= s.subrange(32, 2 + size));
        }
        let account_name = match body.read_string(name_len as usize) {
            Ok(name) => name,
            Err(e) => {
                *source = saved;
                return Err(e);
            },
        };
        proof {
            assert(b0 =~= s.skip(2));
            assert(b2 =~= b0.skip(30));
            assert(body@ =~= b0.skip(size as int));
        }
        *source = body.into_inner();
        protocol.version = Some(version);
        let x = LogonChallengeRequest {
            game,
            version: Version { major: numbers[0], minor: numbers[1], patch: numbers[2], build },
            platform,
            os,
            locale,
            timezone,
            address,
            account_name,
        };
        proof {
            lemma_le32(game);
            lemma_le32(platform);
            lemma_le32(os);
            lemma_le32(locale);
            lemma_le32_signed(timezone);
            lemma_le16(build);
            encode_utf8_valid_utf8(x.account_name@);
            assert(utf8_of(x.account_name@).len() == name_len);
            assert(challenge_request_body(x) =~= b0.take(size as int));
            assert(s.take(2 + size) =~= seq![version, size] + b0.take(size as int));
            assert(source@ =~= s.skip(2 + size));
        }
        Ok(x)
    }

}

impl Payload for LogonChallengeRequest {
    open spec fn wire(&self, p: GruntProtocol) -> Result<Seq<u8>, Error> {
        challenge_request_encoded(*self, p)
    }

    open spec fn tag(&self) -> u8 {
        0x00
    }

    /// Challenge requests travel under command code 0x00.
    fn identifier(&self) -> (id: GruntIdentifier) {
        GruntIdentifier(0x00)
    }

    #[verifier::rlimit(60)]
    fn send(&self, dest: &mut Vec<u8>, protocol: &GruntProtocol) -> (r: Result<(), Error>) {
        let version = match protocol.version {
            None => return Err(Error::Unversioned),
            Some(v) => v,
        };
        let name = self.account_name.as_str().as_bytes();
        if name.len() > 225 {
            return Err(Error::TooLong);
        }
        proof {
            lemma_challenge_request_size_byte(*self, *protocol);
        }
        let size = 30 + name.len();
        write_u8(dest, version);
        write_u8(dest, size as u8);
        write_u32_le(dest, self.game);
        write_u8(dest, self.version.major);
        write_u8(dest, self.version.minor);
        write_u8(dest, self.version.patch);
        write_u16_le(dest, self.version.build);
        write_u32_le(dest, self.platform);
        write_u32_le(dest, self.os);
        write_u32_le(dest, self.locale);
        write_i32_le(dest, self.timezone);
        write_slice(dest, &self.address);
        write_u8(dest, name.len() as u8);
        write_string(dest, self.account_name.as_str());
        assert(dest@ =~= old(dest)@ + (seq![version, size as u8] + challenge_request_body(*self)));
        Ok(())
    }
}

/// The server's answer to a challenge request.
#[derive(Debug, Clone, PartialEq, Eq)]
pub enum LogonChallengeResponse {
    /// The account may proceed to the proof; carries the parameters of the
    /// key exchange.
    Accepted {
        public_key: [u8; 32],
        generator: Vec<u8>,
        large_safe_prime: Vec<u8>,
        salt: [u8; 32],
        crc: [u8; 16],
        security: SecurityChallenge,
    },
    /// The login is refused for the given reason (never `Success`).
    Rejected(LoginResult),
}

/// The bytes of an accepted answer after its two leading bytes.
pub open spec fn accepted_fields(
    public_key: [u8; 32],
    generator: Seq<u8>,
    large_safe_prime: Seq<u8>,
    salt: [u8; 32],
    crc: [u8; 16],
) -> Seq<u8> {
    (public_key@ + seq![generator.len() as u8] + generator + seq![large_safe_prime.len() as u8] + large_safe_prime)
        + (salt@ + crc@)
}

/// What encoding `r` under `p` gives: a zero byte, the login result, and on
/// acceptance the key-exchange fields and the security block.
pub open spec fn challenge_response_encoded(r: LogonChallengeResponse, p: GruntProtocol) -> Result<Seq<u8>, Error> {
    match p.version {
        None => Err(Error::Unversioned),
        Some(v) => match r {
            LogonChallengeResponse::Accepted { public_key, generator, large_safe_prime, salt, crc, security } =>
                if generator@.len() > 255 || large_safe_prime@.len() > 255 {
                    Err(Error::TooLong)
                } else {
                    Ok(seq![0u8, 0u8] + accepted_fields(public_key, generator@, large_safe_prime@, salt, crc)
                        + security_challenge_encoded(security, p)->Ok_0)
                },
            LogonChallengeResponse::Rejected(lr) => if lr is Success {
                Err(Error::NotEncodable)
            } else {
                match login_result_encoded(lr, p) {
                    Ok(b) => Ok(seq![0u8] + b),
                    Err(e) => Err(e),
                }
            },
        },
    }
}

/// How many bytes an answer at the front of `s` takes under `p`, or why
/// there is none.
pub open spec fn challenge_response_extent(s: Seq<u8>, p: GruntProtocol) -> Result<int, Error> {
    if s.len() < 1 {
        Err(Error::EOF)
    } else {
        match login_result_decoded(s.skip(1), p) {
            Err(e) => Err(e),
            Ok((lr, _)) => if !(lr is Success) {
                Ok(2)
            } else {
                let t = s.skip(2);
                if t.len() < 33 {
                    Err(Error::EOF)
                } else if t.len() < 34 + t[32] {
                    Err(Error::EOF)
                } else if t.len() < 82 + t[32] + t[33 + t[32]] {
                    Err(Error::EOF)
                } else {
                    let f = 82 + t[32] + t[33 + t[32]];
                    match security_challenge_extent(t.skip(f), p) {
                        Err(e) => Err(e),
                        Ok(k) => Ok(2 + f + k),
                    }
                }
            },
        }
    }
}

/// An answer that decoding can yield under `p`: the version defines login
/// results, a refusal holds a result that the version defines (never
/// `Success`), and an acceptance holds a security challenge that the version
/// carries (`Disabled` under version 2).
pub open spec fn challenge_response_valid(r: LogonChallengeResponse, p: GruntProtocol) -> bool {
    &&& p.version matches Some(v) && supported_version(v)
    &&& match r {
        LogonChallengeResponse::Accepted { security, .. } => security_challenge_valid(security, p),
        LogonChallengeResponse::Rejected(lr) => !(lr is Success) && login_result_valid(lr, p.version->Some_0),
    }
}

/// Equal answers, comparing byte strings by their contents.
pub open spec fn same_challenge_response(a: LogonChallengeResponse, b: LogonChallengeResponse) -> bool {
    match (a, b) {
        (
            LogonChallengeResponse::Accepted { public_key: k1, generator: g1, large_safe_prime: n1, salt: s1, crc: c1, security: x1 },
            LogonChallengeResponse::Accepted { public_key: k2, generator: g2, large_safe_prime: n2, salt: s2, crc: c2, security: x2 },
        ) => k1 == k2 && g1@ == g2@ && n1@ == n2@ && s1 == s2 && c1 == c2 && x1 == x2,
        (LogonChallengeResponse::Rejected(l1), LogonChallengeResponse::Rejected(l2)) => l1 == l2,
        _ => false,
    }
}

/// An answer decodes back to the answer that was encoded: the message at the
/// front of its bytes is exactly as long as the encoding, and any answer that
/// decoding can yield with the same encoding holds the same fields.
pub proof fn lemma_challenge_response_round_trip(
    r: LogonChallengeResponse,
    r2: LogonChallengeResponse,
    p: GruntProtocol,
    rest: Seq<u8>,
)
    requires
        challenge_response_encoded(r, p) is Ok,
        challenge_response_valid(r, p),
        challenge_response_valid(r2, p),
        challenge_response_encoded(r2, p) == challenge_response_encoded(r, p),
    ensures
        challenge_response_extent(challenge_response_encoded(r, p)->Ok_0 + rest, p)
            == Ok::<int, Error>(challenge_response_encoded(r, p)->Ok_0.len() as int),
        same_challenge_response(r2, r),
{
    let w = challenge_response_encoded(r, p)->Ok_0;
    let s = w + rest;
    let s1 = s.skip(1);
    assert(s1[0] == w[1]);
    match r {
        LogonChallengeResponse::Rejected(lr) => {
            lemma_login_result_round_trip(lr, p, s1.skip(1));
            assert(s1 =~= login_result_encoded(lr, p)->Ok_0 + s1.skip(1));
            if let LogonChallengeResponse::Rejected(lr2) = r2 {
                lemma_login_result_round_trip(lr2, p, s1.skip(1));
                assert(s1 =~= login_result_encoded(lr2, p)->Ok_0 + s1.skip(1));
            }
        },
        LogonChallengeResponse::Accepted { public_key, generator, large_safe_prime, salt, crc, security } => {
            lemma_login_result_round_trip(LoginResult::Success, p, s1.skip(1));
            assert(s1 =~= login_result_encoded(LoginResult::Success, p)->Ok_0 + s1.skip(1));
            let g: int = generator@.len() as int;
            let q: int = large_safe_prime@.len() as int;
            let f: int = 82 + g + q;
            let fields = accepted_fields(public_key, generator@, large_safe_prime@, salt, crc);
            let sb = security_challenge_encoded(security, p)->Ok_0;
            let t = s.skip(2);
            assert(t =~= fields + (sb + rest));
            assert(t[32] == g);
            assert(t[33 + g] == q);
            assert(t.skip(f) =~= sb + rest);
            lemma_security_challenge_round_trip(security, security, p, rest);
            if let LogonChallengeResponse::Accepted {
                public_key: k2, generator: g2, large_safe_prime: n2, salt: s2, crc: c2, security: x2,
            } = r2 {
                let fields2 = accepted_fields(k2, g2@, n2@, s2, c2);
                let sb2 = security_challenge_encoded(x2, p)->Ok_0;
                assert(w =~= seq![0u8, 0u8] + fields2 + sb2);
                assert(w[34] == g2@.len() && w[34] == g);
                assert(w[35 + g] == n2@.len() && w[35 + g] == q);
                assert(public_key@ =~= w.subrange(2, 34));
                assert(k2@ =~= w.subrange(2, 34));
                assert(public_key =~= k2);
                assert(generator@ =~= w.subrange(35, 35 + g));
                assert(g2@ =~= w.subrange(35, 35 + g));
                assert(large_safe_prime@ =~= w.subrange(36 + g, 36 + g + q));
                assert(n2@ =~= w.subrange(36 + g, 36 + g + q));
                assert(salt@ =~= w.subrange(36 + g + q, 68 + g + q));
                assert(s2@ =~= w.subrange(36 + g + q, 68 + g + q));
                assert(salt =~= s2);
                assert(crc@ =~= w.subrange(68 + g + q, 84 + g + q));
                assert(c2@ =~= w.subrange(68 + g + q, 84 + g + q));
                assert(crc =~= c2);
                assert(sb =~= w.skip(2 + f));
                assert(sb2 =~= w.skip(2 + f));
                lemma_security_challenge_round_trip(security, x2, p, rest);
            } else if let LogonChallengeResponse::Rejected(lr2) = r2 {
                assert(w[1] == login_result_code(lr2));
            }
        },
    }
}

impl LogonChallengeResponse {

    /// Decodes an answer. Its leading byte is not checked.
    #[verifier::rlimit(60)]
    pub fn recv(source: &mut Reader, protocol: &GruntProtocol) -> (r: Result<LogonChallengeResponse, Error>)
        ensures
            match challenge_response_extent(old(source)@, *protocol) {
                Ok(n) => r matches Ok(x) && challenge_response_valid(x, *protocol)
                    && challenge_response_encoded(x, *protocol)
                        == Ok::<Seq<u8>, Error>(seq![0u8] + old(source)@.subrange(1, n))
                    && final(source)@ == old(source)@.skip(n),
                Err(e) => r == Err::<LogonChallengeResponse, Error>(e),
            },
    {
        let ghost s = source@;
        let _ = source.read_u8()?;
        let ghost s1 = source@;
        assert(s1 =~= s.skip(1));
        let result = LoginResult::recv(source, protocol)?;
        let v = protocol.version.unwrap();
        proof {
            lemma_login_result_of_valid(s1[0], v);
        }
        if !matches!(result, LoginResult::Success) {
            assert(seq![0u8] + s.subrange(1, 2) =~= seq![0u8] + seq![login_result_code(result)]);
            assert(source@ =~= s.skip(2));
            return Ok(LogonChallengeResponse::Rejected(result));
        }
        let ghost t = source@;
        assert(t =~= s.skip(2));
        let public_key = source.read_exact_slice::<32>()?;
        let g = source.read_u8()?;
        let generator = source.read_slice(g as usize)?;
        let q = source.read_u8()?;
        proof {
            assert(t[32] == g);
            assert(t[33 + g] == q);
        }
        let large_safe_prime = source.read_slice(q as usize)?;
        let salt = source.read_exact_slice::<32>()?;
        let crc = source.read_exact_slice::<16>()?;
        let ghost f = 82 + g + q;
        proof {
            assert(source@ =~= t.skip(f));
        }
        let ghost before = source@;
        let security = SecurityChallenge::recv(source, protocol)?;
        let x = LogonChallengeResponse::Accepted { public_key, generator, large_safe_prime, salt, crc, security };
        proof {
            let k = security_challenge_extent(before, *protocol)->Ok_0;
            assert(accepted_fields(public_key, generator@, large_safe_prime@, salt, crc) =~= t.take(f));
            assert(seq![0u8] + s.subrange(1, 2 + f + k)
                =~= seq![0u8, 0u8] + t.take(f) + before.take(k));
            assert(source@ =~= s.skip(2 + f + k));
        }
        Ok(x)
    }

}

impl Payload for LogonChallengeResponse {
    open spec fn wire(&self, p: GruntProtocol) -> Result<Seq<u8>, Error> {
        challenge_response_encoded(*self, p)
    }

    open spec fn tag(&self) -> u8 {
        0x00
    }

    /// Answers travel under command code 0x00.
    fn identifier(&self) -> (id: GruntIdentifier) {
        GruntIdentifier(0x00)
    }

    fn send(&self, dest: &mut Vec<u8>, protocol: &GruntProtocol) -> (r: Result<(), Error>) {
        protocol.wire_format()?;
        match self {
            LogonChallengeResponse::Accepted { public_key, generator, large_safe_prime, salt, crc, security } => {
                if generator.len() > 255 || large_safe_prime.len() > 255 {
                    return Err(Error::TooLong);
                }
                write_u8(dest, 0);
                write_u8(dest, 0);
                write_slice(dest, public_key);
                write_u8(dest, generator.len() as u8);
                write_slice(dest, generator.as_slice());
                write_u8(dest, large_safe_prime.len() as u8);
                write_slice(dest, large_safe_prime.as_slice());
                write_slice(dest, salt);
                write_slice(dest, crc);
                let _ = security.send(dest, protocol);
                assert(dest@ =~= old(dest)@ + (seq![0u8, 0u8]
                    + accepted_fields(*public_key, generator@, large_safe_prime@, *salt, *crc)
                    + security_challenge_encoded(*security, *protocol)->Ok_0));
            },
            LogonChallengeResponse::Rejected(result) => {
                if let LoginResult::Success = result {
                    return Err(Error::NotEncodable);
                }
                let mut code: Vec<u8> = Vec::new();
                result.send(&mut code, protocol)?;
                write_u8(dest, 0);
                write_slice(dest, code.as_slice());
                assert(dest@ =~= old(dest)@ + (seq![0u8] + code@));
            },
        }
        Ok(())
    }
}

} // verus!
