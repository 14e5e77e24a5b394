use pow::codec::{Error, Reader};
use pow::grunt::login_result::LoginResult;
use pow::grunt::logon_challenge::{LogonChallengeRequest, LogonChallengeResponse};
use pow::grunt::version::Version;
use pow::grunt::logon_proof::{LogonProofRequest, TelemetryKey};
use pow::grunt::protocol::{GruntProtocol, Payload, WireFormat};
use pow::grunt::security::{SecurityChallenge, SecurityProof};

fn sample_request(name: &str) -> LogonChallengeRequest {
    LogonChallengeRequest {
        game: 0x00576F57,
        version: Version::parse("4.3.4.15595"),
        platform: 0x00783836,
        os: 0x004F5358,
        locale: 0x656E5553,
        timezone: 0x3C,
        address: [127, 0, 0, 1],
        account_name: name.to_string(),
    }
}

#[test]
fn challenge_request_scenario_bytes() {
    let req = sample_request("pow");
    let mut out = Vec::new();
    req.send(&mut out, &GruntProtocol::new(8)).unwrap();
    let expected: Vec<u8> = vec![
        8, 33, 0x57, 0x6F, 0x57, 0x00, 4, 3, 4, 0xEB, 0x3C, 0x36, 0x38, 0x78, 0x00, 0x58, 0x53, 0x4F, 0x00, 0x53,
        0x55, 0x6E, 0x65, 0x3C, 0x00, 0x00, 0x00, 127, 0, 0, 1, 3, b'p', b'o', b'w',
    ];
    assert_eq!(out, expected);
    assert_eq!(out[1] as usize, out.len() - 2);

    let mut server = GruntProtocol::unversioned();
    let mut r = Reader::new(&out);
    let back = LogonChallengeRequest::recv(&mut r, &mut server).unwrap();
    assert_eq!(back, req);
    assert_eq!(back.version, Version { major: 4, minor: 3, patch: 4, build: 15595 });
    assert_eq!(server.version, Some(8));
    assert_eq!(r.remaining(), 0);
}

#[test]
fn challenge_request_rejects_wrong_size_byte() {
    let req = sample_request("pow");
    let mut out = Vec::new();
    req.send(&mut out, &GruntProtocol::new(8)).unwrap();
    out[1] = 34;
    out.push(0);
    let mut r = Reader::new(&out);
    assert_eq!(LogonChallengeRequest::recv(&mut r, &mut GruntProtocol::unversioned()), Err(Error::SizeMismatch));

    let mut short = out.clone();
    short[1] = 20;
    let mut r = Reader::new(&short);
    assert_eq!(LogonChallengeRequest::recv(&mut r, &mut GruntProtocol::unversioned()), Err(Error::SizeMismatch));
}

#[test]
fn challenge_request_incomplete_is_eof() {
    let req = sample_request("pow");
    let mut out = Vec::new();
    req.send(&mut out, &GruntProtocol::new(3)).unwrap();
    out.pop();
    let mut proto = GruntProtocol::unversioned();
    let mut r = Reader::new(&out);
    assert_eq!(LogonChallengeRequest::recv(&mut r, &mut proto), Err(Error::EOF));
    assert_eq!(proto.version, None);
}

#[test]
fn challenge_request_keeps_negotiated_version() {
    let req = sample_request("pow");
    let mut out = Vec::new();
    req.send(&mut out, &GruntProtocol::new(3)).unwrap();
    let mut proto = GruntProtocol::new(8);
    let mut r = Reader::new(&out);
    assert_eq!(LogonChallengeRequest::recv(&mut r, &mut proto), Err(Error::Renegotiation));
    assert_eq!(proto.version, Some(8));
}

#[test]
fn challenge_request_name_too_long() {
    let req = sample_request(&"a".repeat(226));
    let mut out = Vec::new();
    assert_eq!(req.send(&mut out, &GruntProtocol::new(8)), Err(Error::TooLong));
    assert!(out.is_empty());
    let req = sample_request(&"a".repeat(225));
    req.send(&mut out, &GruntProtocol::new(8)).unwrap();
    assert_eq!(out[1], 255);
}

#[test]
fn version_parse_fields() {
    assert_eq!(Version::try_parse("4.3.4.15595"), Some(Version { major: 4, minor: 3, patch: 4, build: 15595 }));
    assert_eq!(Version::try_parse("+1.02.3.65535"), Some(Version { major: 1, minor: 2, patch: 3, build: 65535 }));
    assert_eq!(Version::try_parse("256.0.0.0"), None);
    assert_eq!(Version::try_parse("1.2.3.65536"), None);
    assert_eq!(Version::try_parse("1.2.3"), None);
    assert_eq!(Version::try_parse("1.2.3.4.5"), None);
    assert_eq!(Version::try_parse("1..3.4"), None);
    assert_eq!(Version::try_parse("1.2.x.4"), None);
    assert_eq!(Version::try_parse(""), None);
}

#[test]
fn login_result_codes() {
    let v8 = GruntProtocol::new(8);
    for (code, expected) in [
        (0x00u8, LoginResult::Success),
        (0x01, LoginResult::UnknownFailure(1)),
        (0x02, LoginResult::UnknownFailure(2)),
        (0x03, LoginResult::Banned),
        (0x09, LoginResult::InvalidVersion),
        (0x0A, LoginResult::DownloadFile),
        (0x0B, LoginResult::InvalidServer),
        (0x0F, LoginResult::ParentalControl),
        (0x10, LoginResult::LockedEnforced),
    ] {
        let data = [code];
        let mut r = Reader::new(&data);
        assert_eq!(LoginResult::recv(&mut r, &v8), Ok(expected));
        let mut out = Vec::new();
        expected.send(&mut out, &v8).unwrap();
        assert_eq!(out, vec![code]);
    }
    let data = [0x11u8];
    assert_eq!(LoginResult::recv(&mut Reader::new(&data), &v8), Err(Error::UnknownLoginResult(0x11)));
}

#[test]
fn locked_enforced_only_under_version_8() {
    for version in [2u8, 3, 5, 6, 7] {
        let p = GruntProtocol::new(version);
        let data = [0x10u8];
        assert_eq!(LoginResult::recv(&mut Reader::new(&data), &p), Err(Error::UnknownLoginResult(0x10)));
        let mut out = Vec::new();
        assert_eq!(LoginResult::LockedEnforced.send(&mut out, &p), Err(Error::NotEncodable));
        assert!(out.is_empty());
    }
    let data = [0x00u8];
    assert_eq!(LoginResult::recv(&mut Reader::new(&data), &GruntProtocol::new(4)), Err(Error::UnsupportedVersion(4)));
    assert_eq!(LoginResult::recv(&mut Reader::new(&data), &GruntProtocol::unversioned()), Err(Error::Unversioned));
}

#[test]
fn security_blocks_absent_under_version_2() {
    let p = GruntProtocol::new(2);
    let data = [3u8, 9, 9];
    let mut r = Reader::new(&data);
    assert_eq!(SecurityChallenge::recv(&mut r, &p), Ok(SecurityChallenge::Disabled));
    assert_eq!(r.position(), 0);
    assert_eq!(SecurityProof::recv(&mut r, &p), Ok(SecurityProof::Disabled));
    assert_eq!(r.position(), 0);
    let mut out = Vec::new();
    SecurityChallenge::Pin { seed: 5, salt: [1; 16] }.send(&mut out, &p).unwrap();
    SecurityChallenge::Authenticator(4).send(&mut out, &p).unwrap();
    SecurityProof::Disabled.send(&mut out, &p).unwrap();
    assert!(out.is_empty());
    assert_eq!(SecurityProof::Matrix { proof: [0; 20] }.send(&mut out, &p), Err(Error::NotEncodable));
}

#[test]
fn security_challenge_round_trips() {
    let p = GruntProtocol::new(8);
    for c in [
        SecurityChallenge::Disabled,
        SecurityChallenge::Pin { seed: 0x01020304, salt: [7; 16] },
        SecurityChallenge::Matrix { width: 8, height: 10, digits: 2, challenges: 3, seed: 0x1122334455667788 },
        SecurityChallenge::Authenticator(1),
    ] {
        let mut out = Vec::new();
        c.send(&mut out, &p).unwrap();
        out.push(0xAA);
        let mut r = Reader::new(&out);
        assert_eq!(SecurityChallenge::recv(&mut r, &p), Ok(c));
        assert_eq!(r.remaining(), 1);
    }
    let mut out = Vec::new();
    SecurityChallenge::Pin { seed: 0x01020304, salt: [7; 16] }.send(&mut out, &p).unwrap();
    assert_eq!(&out[..5], &[1, 4, 3, 2, 1]);
    let data = [4u8];
    assert_eq!(SecurityChallenge::recv(&mut Reader::new(&data), &p), Err(Error::UnknownSecurityKind(4)));
}

#[test]
fn security_proof_round_trips() {
    let p = GruntProtocol::new(3);
    for c in [
        SecurityProof::Disabled,
        SecurityProof::Pin { salt: [1; 16], hash: [2; 16] },
        SecurityProof::Matrix { proof: [3; 20] },
        SecurityProof::Authenticator("123456".to_string()),
    ] {
        let mut out = Vec::new();
        c.send(&mut out, &p).unwrap();
        let mut r = Reader::new(&out);
        assert_eq!(SecurityProof::recv(&mut r, &p), Ok(c));
        assert_eq!(r.remaining(), 0);
    }
    let long = SecurityProof::Authenticator("x".repeat(256));
    assert_eq!(long.send(&mut Vec::new(), &p), Err(Error::TooLong));
}

#[test]
fn challenge_response_round_trips() {
    let p = GruntProtocol::new(8);
    let accepted = LogonChallengeResponse::Accepted {
        public_key: [5; 32],
        generator: vec![7],
        large_safe_prime: vec![0xB7; 32],
        salt: [6; 32],
        crc: [9; 16],
        security: SecurityChallenge::Authenticator(1),
    };
    let mut out = Vec::new();
    accepted.send(&mut out, &p).unwrap();
    assert_eq!(out.len(), 2 + 32 + 1 + 1 + 1 + 32 + 32 + 16 + 2);
    let mut r = Reader::new(&out);
    assert_eq!(LogonChallengeResponse::recv(&mut r, &p), Ok(accepted));

    let rejected = LogonChallengeResponse::Rejected(LoginResult::Banned);
    let mut out = Vec::new();
    rejected.send(&mut out, &p).unwrap();
    assert_eq!(out, vec![0, 3]);
    assert_eq!(LogonChallengeResponse::recv(&mut Reader::new(&out), &p), Ok(rejected));

    let bad = LogonChallengeResponse::Rejected(LoginResult::Success);
    assert_eq!(bad.send(&mut Vec::new(), &p), Err(Error::NotEncodable));
}

#[test]
fn proof_request_round_trips() {
    let p = GruntProtocol::new(8);
    let req = LogonProofRequest {
        public_key: [1; 32],
        proof: [2; 20],
        crc: [3; 20],
        telemetry_keys: vec![
            TelemetryKey { unk1: 0xFE, unk2: 0x0001_0002, unk3: [1, 2, 3, 4], proof: [9; 20] },
            TelemetryKey { unk1: 1, unk2: 2, unk3: [5, 6, 7, 8], proof: [8; 20] },
        ],
        security: SecurityProof::Pin { salt: [4; 16], hash: [5; 16] },
    };
    let mut out = Vec::new();
    req.send(&mut out, &p).unwrap();
    assert_eq!(out.len(), 72 + 1 + 60 + 33);
    assert_eq!(out[72], 2);
    let mut r = Reader::new(&out);
    assert_eq!(LogonProofRequest::recv(&mut r, &p), Ok(req));
    assert_eq!(r.remaining(), 0);
}

#[test]
fn wire_format_per_version() {
    assert_eq!(
        WireFormat::for_version(2),
        WireFormat { login_results: true, locked_enforced: false, security_blocks: false }
    );
    assert_eq!(
        WireFormat::for_version(3),
        WireFormat { login_results: true, locked_enforced: false, security_blocks: true }
    );
    assert_eq!(
        WireFormat::for_version(4),
        WireFormat { login_results: false, locked_enforced: false, security_blocks: true }
    );
    assert_eq!(
        WireFormat::for_version(8),
        WireFormat { login_results: true, locked_enforced: true, security_blocks: true }
    );
    assert_eq!(GruntProtocol::unversioned().wire_format(), Err(Error::Unversioned));
    assert_eq!(GruntProtocol::new(8).wire_format(), Ok(WireFormat::for_version(8)));
}

#[test]
fn version_text_round_trips() {
    let v = Version { major: 4, minor: 3, patch: 4, build: 15595 };
    assert_eq!(v.to_text(), "4.3.4.15595");
    assert_eq!(Version::try_parse(&v.to_text()), Some(v));
    let zero = Version { major: 0, minor: 10, patch: 255, build: 65535 };
    assert_eq!(zero.to_text(), "0.10.255.65535");
    assert_eq!(Version::try_parse(&zero.to_text()), Some(zero));
}

#[test]
fn generic_failure_writes_its_raw_byte() {
    let p = GruntProtocol::new(8);
    let mut out = Vec::new();
    LoginResult::UnknownFailure(5).send(&mut out, &p).unwrap();
    assert_eq!(out, vec![5]);
    let mut out = Vec::new();
    LogonChallengeResponse::Rejected(LoginResult::UnknownFailure(5)).send(&mut out, &p).unwrap();
    assert_eq!(out, vec![0x00, 0x05]);
    let mut out = Vec::new();
    LoginResult::Banned.send(&mut out, &GruntProtocol::new(4)).unwrap();
    assert_eq!(out, vec![0x03]);
    assert_eq!(LoginResult::Banned.send(&mut Vec::new(), &GruntProtocol::unversioned()), Err(Error::Unversioned));
}

#[test]
fn challenge_request_error_leaves_source() {
    let req = sample_request("pow");
    let mut out = Vec::new();
    req.send(&mut out, &GruntProtocol::new(8)).unwrap();
    out[31] = 4;
    out.push(b'x');
    let mut r = Reader::new(&out);
    assert_eq!(LogonChallengeRequest::recv(&mut r, &mut GruntProtocol::unversioned()), Err(Error::SizeMismatch));
    assert_eq!(r.position(), 0);
    let mut bad = Vec::new();
    sample_request("pow").send(&mut bad, &GruntProtocol::new(8)).unwrap();
    bad[32] = 0xFF;
    let mut r = Reader::new(&bad);
    assert_eq!(LogonChallengeRequest::recv(&mut r, &mut GruntProtocol::unversioned()), Err(Error::InvalidUtf8));
    assert_eq!(r.position(), 0);
}
