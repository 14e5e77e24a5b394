use std::sync::{Arc, Mutex};

use tokio::io::{AsyncReadExt, AsyncWriteExt};

use pow::codec::{Error, Reader};
use pow::grunt::logon_challenge::{LogonChallengeRequest, LogonChallengeResponse};
use pow::grunt::version::Version;
use pow::grunt::logon_proof::LogonProofRequest;
use pow::grunt::protocol::{handler_for, GruntHandler, GruntIdentifier, GruntProtocol, GruntRequest, Handler};
use pow::grunt::security::{SecurityChallenge, SecurityProof};
use pow::grunt::login_result::LoginResult;
use pow::session::Session;

fn request(name: &str) -> LogonChallengeRequest {
    LogonChallengeRequest {
        game: 0x00576F57,
        version: Version { major: 4, minor: 3, patch: 4, build: 15595 },
        platform: 0x00783836,
        os: 0x004F5358,
        locale: 0x656E5553,
        timezone: 0x3C,
        address: [127, 0, 0, 1],
        account_name: name.to_string(),
    }
}

fn encoded(m: &GruntRequest, version: u8) -> Vec<u8> {
    let mut out = Vec::new();
    GruntProtocol::new(version).send_request(&mut out, m).unwrap();
    out
}

#[derive(Default)]
struct Recorder {
    names: Vec<String>,
    proofs: usize,
    fail_on_proof: bool,
}

impl GruntHandler for Recorder {
    fn handle_logon_challenge_request(&mut self, msg: LogonChallengeRequest, protocol: &GruntProtocol, dest: &mut Vec<u8>) -> Result<(), Error> {
        self.names.push(msg.account_name);
        let answer = LogonChallengeResponse::Rejected(LoginResult::UnknownAccount);
        protocol.send_response(dest, &answer)
    }

    fn handle_logon_proof_request(&mut self, _: LogonProofRequest, _: &GruntProtocol, _: &mut Vec<u8>) -> Result<(), Error> {
        self.proofs += 1;
        if self.fail_on_proof {
            Err(Error::NotEncodable)
        } else {
            Ok(())
        }
    }
}

#[test]
fn dispatch_table() {
    assert!(matches!(handler_for(GruntIdentifier(0x00)), Some(Handler::LogonChallenge)));
    assert!(matches!(handler_for(GruntIdentifier(0x01)), Some(Handler::LogonProof)));
    assert!(handler_for(GruntIdentifier(0x02)).is_none());
}

#[test]
fn unknown_identifier_is_an_error() {
    let data = [0x05u8, 1, 2, 3];
    let mut p = GruntProtocol::unversioned();
    let mut r = Reader::new(&data);
    assert_eq!(p.decode_incoming(&mut r), Err(Error::UnknownIdentifier(5)));
    assert_eq!(r.position(), 1);
    let mut rec = Recorder::default();
    let mut r = Reader::new(&data);
    assert_eq!(p.process_incoming(&mut r, &mut rec, &mut Vec::new()), Err(Error::UnknownIdentifier(5)));
    assert_eq!(r.position(), 1);
    assert!(rec.names.is_empty());
}

#[test]
fn process_incoming_calls_handler_and_sets_version() {
    let bytes = encoded(&GruntRequest::LogonChallenge(request("pow")), 8);
    let mut p = GruntProtocol::unversioned();
    let mut rec = Recorder::default();
    let mut out = Vec::new();
    let mut r = Reader::new(&bytes);
    p.process_incoming(&mut r, &mut rec, &mut out).unwrap();
    assert_eq!(p.version, Some(8));
    assert_eq!(rec.names, vec!["pow".to_string()]);
    assert_eq!(out, vec![0x00, 0x00, 0x04]);
    let answer = p.recv_response(&mut Reader::new(&out)).unwrap();
    assert_eq!(answer, LogonChallengeResponse::Rejected(LoginResult::UnknownAccount));
}

#[test]
fn session_handles_messages_split_across_chunks() {
    let mut bytes = encoded(&GruntRequest::LogonChallenge(request("alice")), 8);
    bytes.extend(encoded(&GruntRequest::LogonChallenge(request("bob")), 8));
    let proof = LogonProofRequest {
        public_key: [1; 32],
        proof: [2; 20],
        crc: [3; 20],
        telemetry_keys: vec![],
        security: SecurityProof::Disabled,
    };
    bytes.extend(encoded(&GruntRequest::LogonProof(proof), 8));

    let mut session = Session::new(GruntProtocol::unversioned());
    let mut rec = Recorder::default();
    let mut out = Vec::new();
    let mut handled = 0;
    for chunk in bytes.chunks(7) {
        handled += session.receive(chunk, &mut rec, &mut out).unwrap();
    }
    assert_eq!(handled, 3);
    assert_eq!(rec.names, vec!["alice".to_string(), "bob".to_string()]);
    assert_eq!(rec.proofs, 1);
    assert_eq!(session.pending_len(), 0);
    assert_eq!(session.protocol().version, Some(8));
    assert!(session.is_open());
    assert_eq!(session.end_of_stream(), Ok(()));
    assert!(!session.is_open());
}

#[test]
fn session_keeps_incomplete_message() {
    let bytes = encoded(&GruntRequest::LogonChallenge(request("pow")), 8);
    let mut session = Session::new(GruntProtocol::unversioned());
    let mut rec = Recorder::default();
    let n = session.receive(&bytes[..10], &mut rec, &mut Vec::new()).unwrap();
    assert_eq!(n, 0);
    assert_eq!(session.pending_len(), 10);
    assert_eq!(session.protocol().version, None);
    assert_eq!(session.end_of_stream(), Err(Error::EOF));
}

#[test]
fn session_closes_on_framing_error() {
    let mut bytes = encoded(&GruntRequest::LogonChallenge(request("pow")), 8);
    bytes.push(0x42);
    let mut session = Session::new(GruntProtocol::unversioned());
    let mut rec = Recorder::default();
    assert_eq!(session.receive(&bytes, &mut rec, &mut Vec::new()), Err(Error::UnknownIdentifier(0x42)));
    assert_eq!(rec.names.len(), 1);
    assert!(!session.is_open());
}

#[test]
fn session_closes_on_handler_error() {
    let proof = LogonProofRequest {
        public_key: [0; 32],
        proof: [0; 20],
        crc: [0; 20],
        telemetry_keys: vec![],
        security: SecurityProof::Disabled,
    };
    let bytes = encoded(&GruntRequest::LogonProof(proof), 8);
    let mut session = Session::new(GruntProtocol::new(8));
    let mut rec = Recorder { fail_on_proof: true, ..Recorder::default() };
    assert_eq!(session.receive(&bytes, &mut rec, &mut Vec::new()), Err(Error::NotEncodable));
    assert!(!session.is_open());
}

#[test]
fn session_close_is_final() {
    let mut session = Session::new(GruntProtocol::new(8));
    session.close();
    assert!(!session.is_open());
    let _ = SecurityChallenge::Disabled;
}

struct Counter {
    names: Arc<Mutex<Vec<String>>>,
}

impl GruntHandler for Counter {
    fn handle_logon_challenge_request(&mut self, msg: LogonChallengeRequest, _: &GruntProtocol, _: &mut Vec<u8>) -> Result<(), Error> {
        assert_eq!(msg.game, 0x00576F57);
        assert_eq!(msg.version, Version { major: 4, minor: 3, patch: 4, build: 15595 });
        self.names.lock().unwrap().push(msg.account_name);
        Ok(())
    }

    fn handle_logon_proof_request(&mut self, _: LogonProofRequest, _: &GruntProtocol, _: &mut Vec<u8>) -> Result<(), Error> {
        Err(Error::UnknownIdentifier(0x01))
    }
}

/// Ten connections run at once, each on its own in-memory duplex stream.
#[test]
fn ten_concurrent_connections_each_dispatch_once() {
    let runtime = tokio::runtime::Builder::new_multi_thread().enable_all().build().unwrap();
    let names = Arc::new(Mutex::new(Vec::new()));
    let seen = names.clone();
    runtime.block_on(async move {
        let mut workers = Vec::new();
        let mut clients = Vec::new();
        for i in 0..10 {
            let (mut client, mut server) = tokio::io::duplex(16);
            let mut handler = Counter { names: seen.clone() };
            workers.push(tokio::spawn(async move {
                let mut buf = [0u8; 7];
                let mut session = Session::new(GruntProtocol::unversioned());
                let mut handled = 0;
                loop {
                    let n = server.read(&mut buf).await.unwrap();
                    if n == 0 {
                        break;
                    }
                    handled += session.receive(&buf[..n], &mut handler, &mut Vec::new()).unwrap();
                }
                assert_eq!(session.end_of_stream(), Ok(()));
                handled
            }));
            clients.push(tokio::spawn(async move {
                let bytes = encoded(&GruntRequest::LogonChallenge(request(&format!("client{}", i))), 8);
                for piece in bytes.chunks(5) {
                    client.write_all(piece).await.unwrap();
                }
                client.shutdown().await.unwrap();
            }));
        }
        for c in clients {
            c.await.unwrap();
        }
        let mut handled = 0;
        for w in workers {
            handled += w.await.unwrap();
        }
        assert_eq!(handled, 10);
    });
    let mut all = names.lock().unwrap().clone();
    all.sort();
    let mut expected: Vec<String> = (0..10).map(|i| format!("client{}", i)).collect();
    expected.sort();
    assert_eq!(all, expected);
}

#[test]
fn next_request_one_at_a_time() {
    let mut bytes = encoded(&GruntRequest::LogonChallenge(request("one")), 5);
    bytes.extend(encoded(&GruntRequest::LogonChallenge(request("two")), 5));
    let mut session = Session::new(GruntProtocol::unversioned());
    session.push(&bytes[..3]);
    assert_eq!(session.next_request(), Ok(None));
    assert_eq!(session.pending_len(), 3);
    session.push(&bytes[3..]);
    match session.next_request() {
        Ok(Some(GruntRequest::LogonChallenge(x))) => assert_eq!(x.account_name, "one"),
        other => panic!("unexpected {:?}", other),
    }
    assert_eq!(session.protocol().version, Some(5));
    match session.next_request() {
        Ok(Some(GruntRequest::LogonChallenge(x))) => assert_eq!(x.account_name, "two"),
        other => panic!("unexpected {:?}", other),
    }
    assert_eq!(session.next_request(), Ok(None));
    assert_eq!(session.pending_len(), 0);
    session.push(&[0x09]);
    assert_eq!(session.next_request(), Err(Error::UnknownIdentifier(9)));
    assert!(!session.is_open());
}

#[test]
fn finish_cycle_closes_on_handler_error() {
    let mut session = Session::new(GruntProtocol::new(8));
    assert_eq!(session.finish_cycle(Ok(())), Ok(()));
    assert!(session.is_open());
    assert_eq!(session.finish_cycle(Err(Error::NotEncodable)), Err(Error::NotEncodable));
    assert!(!session.is_open());
}

#[test]
fn session_framing_error_before_any_handler() {
    let mut session = Session::new(GruntProtocol::unversioned());
    let mut rec = Recorder::default();
    assert_eq!(session.receive(&[0x07, 1, 2], &mut rec, &mut Vec::new()), Err(Error::UnknownIdentifier(7)));
    assert!(rec.names.is_empty());
    assert!(!session.is_open());
    let mut session = Session::new(GruntProtocol::unversioned());
    assert_eq!(session.receive(&[0x00, 8], &mut rec, &mut Vec::new()), Ok(0));
    assert_eq!(session.pending_len(), 2);
}
