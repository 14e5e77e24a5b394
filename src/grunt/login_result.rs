//! Login result codes.

use vstd::prelude::*;

use crate::codec::{write_u8, Error, Reader};
use crate::grunt::protocol::{supported_version, GruntProtocol, WireFormat};

verus! {

/// The outcome of a login attempt as the server reports it.
#[derive(Debug, Clone, Copy, PartialEq, Eq, Structural)]
pub enum LoginResult {
    Success,
    /// A generic failure; holds the raw code (1 or 2).
    UnknownFailure(u8),
    Banned,
    UnknownAccount,
    IncorrectPassword,
    AlreadyOnline,
    NoGameTime,
    DatabaseBusy,
    InvalidServer,
    DownloadFile,
    InvalidVersion,
    Suspended,
    NoAccess,
    SuccessSurvey,
    ParentalControl,
    LockedEnforced,
}

/// The byte that stands for `r` on the wire.
pub open spec fn login_result_code(r: LoginResult) -> u8 {
    match r {
        LoginResult::Success => 0x00,
        LoginResult::UnknownFailure(b) => b,
        LoginResult::Banned => 0x03,
        LoginResult::UnknownAccount => 0x04,
        LoginResult::IncorrectPassword => 0x05,
        LoginResult::AlreadyOnline => 0x06,
        LoginResult::NoGameTime => 0x07,
        LoginResult::DatabaseBusy => 0x08,
        LoginResult::InvalidVersion => 0x09,
        LoginResult::DownloadFile => 0x0A,
        LoginResult::InvalidServer => 0x0B,
        LoginResult::Suspended => 0x0C,
        LoginResult::NoAccess => 0x0D,
        LoginResult::SuccessSurvey => 0x0E,
        LoginResult::ParentalControl => 0x0F,
        LoginResult::LockedEnforced => 0x10,
    }
}

/// The result that byte `b` stands for under `version`, if any.
pub open spec fn login_result_of(b: u8, version: u8) -> Option<LoginResult> {
    if b == 0x00 {
        Some(LoginResult::Success)
    } else if b == 0x01 || b == 0x02 {
        Some(LoginResult::UnknownFailure(b))
    } else if b == 0x03 {
        Some(LoginResult::Banned)
    } else if b == 0x04 {
        Some(LoginResult::UnknownAccount)
    } else if b == 0x05 {
        Some(LoginResult::IncorrectPassword)
    } else if b == 0x06 {
        Some(LoginResult::AlreadyOnline)
    } else if b == 0x07 {
        Some(LoginResult::NoGameTime)
    } else if b == 0x08 {
        Some(LoginResult::DatabaseBusy)
    } else if b == 0x09 {
        Some(LoginResult::InvalidVersion)
    } else if b == 0x0A {
        Some(LoginResult::DownloadFile)
    } else if b == 0x0B {
        Some(LoginResult::InvalidServer)
    } else if b == 0x0C {
        Some(LoginResult::Suspended)
    } else if b == 0x0D {
        Some(LoginResult::NoAccess)
    } else if b == 0x0E {
        Some(LoginResult::SuccessSurvey)
    } else if b == 0x0F {
        Some(LoginResult::ParentalControl)
    } else if b == 0x10 && version == 8 {
        Some(LoginResult::LockedEnforced)
    } else {
        None
    }
}

/// `r` is what decoding its own code yields under `version`: the version
/// defines login results, a generic failure carries 1 or 2, and
/// `LockedEnforced` needs version 8.
pub open spec fn login_result_valid(r: LoginResult, version: u8) -> bool {
    supported_version(version) && match r {
        LoginResult::UnknownFailure(b) => b == 0x01 || b == 0x02,
        LoginResult::LockedEnforced => version == 8,
        _ => true,
    }
}

/// What decoding a login result from `s` under `p` gives, and how many bytes
/// it takes.
pub open spec fn login_result_decoded(s: Seq<u8>, p: GruntProtocol) -> Result<(LoginResult, int), Error> {
    match p.version {
        None => Err(Error::Unversioned),
        Some(v) => if !supported_version(v) {
            Err(Error::UnsupportedVersion(v))
        } else if s.len() < 1 {
            Err(Error::EOF)
        } else {
            match login_result_of(s[0], v) {
                Some(r) => Ok((r, 1)),
                None => Err(Error::UnknownLoginResult(s[0])),
            }
        },
    }
}

/// What encoding `r` under `p` gives: its code, which for a generic failure
/// is the raw byte it carries. `LockedEnforced` exists under version 8 only.
pub open spec fn login_result_encoded(r: LoginResult, p: GruntProtocol) -> Result<Seq<u8>, Error> {
    match p.version {
        None => Err(Error::Unversioned),
        Some(v) => if r is LockedEnforced && v != 8 {
            Err(Error::NotEncodable)
        } else {
            Ok(seq![login_result_code(r)])
        },
    }
}

/// A result that is valid under a version decodes, once written, to itself
/// under that version, from one byte.
pub proof fn lemma_login_result_round_trip(r: LoginResult, p: GruntProtocol, rest: Seq<u8>)
    requires
        p.version matches Some(v) && login_result_valid(r, v),
    ensures
        login_result_decoded(login_result_encoded(r, p)->Ok_0 + rest, p) == Ok::<(LoginResult, int), Error>((r, 1)),
{
    let s = login_result_encoded(r, p)->Ok_0 + rest;
    assert(s[0] == login_result_code(r));
}

/// The code 0x10 (`LockedEnforced`) exists under version 8 alone: under any
/// other version it neither decodes nor encodes.
pub proof fn lemma_locked_enforced_only_version_8(p: GruntProtocol, rest: Seq<u8>)
    ensures
        login_result_decoded(seq![0x10u8] + rest, p) is Ok <==> p.version == Some(8u8),
        login_result_encoded(LoginResult::LockedEnforced, p) is Ok <==> p.version == Some(8u8),
{
    let s = seq![0x10u8] + rest;
    assert(s[0] == 0x10);
}

/// A byte that decodes does so to a result that can be written back as that
/// same byte.
pub proof fn lemma_login_result_of_valid(b: u8, version: u8)
    requires
        supported_version(version),
        login_result_of(b, version) is Some,
    ensures
        login_result_valid(login_result_of(b, version)->Some_0, version),
        login_result_code(login_result_of(b, version)->Some_0) == b,
{
}

impl LoginResult {
    /// The result that byte `b` stands for under `version`.
    pub fn from_code(b: u8, version: u8) -> (r: Option<LoginResult>)
        ensures
            r == login_result_of(b, version),
    {
        match b {
            0x00 => Some(LoginResult::Success),
            0x01 | 0x02 => Some(LoginResult::UnknownFailure(b)),
            0x03 => Some(LoginResult::Banned),
            0x04 => Some(LoginResult::UnknownAccount),
            0x05 => Some(LoginResult::IncorrectPassword),
            0x06 => Some(LoginResult::AlreadyOnline),
            0x07 => Some(LoginResult::NoGameTime),
            0x08 => Some(LoginResult::DatabaseBusy),
            0x09 => Some(LoginResult::InvalidVersion),
            0x0A => Some(LoginResult::DownloadFile),
            0x0B => Some(LoginResult::InvalidServer),
            0x0C => Some(LoginResult::Suspended),
            0x0D => Some(LoginResult::NoAccess),
            0x0E => Some(LoginResult::SuccessSurvey),
            0x0F => Some(LoginResult::ParentalControl),
            0x10 if version == 8 => Some(LoginResult::LockedEnforced),
            _ => None,
        }
    }

    /// The byte that stands for this result.
    pub fn code(&self) -> (b: u8)
        ensures
            b == login_result_code(*self),
    {
        match self {
            LoginResult::Success => 0x00,
            LoginResult::UnknownFailure(b) => *b,
            LoginResult::Banned => 0x03,
            LoginResult::UnknownAccount => 0x04,
            LoginResult::IncorrectPassword => 0x05,
            LoginResult::AlreadyOnline => 0x06,
            LoginResult::NoGameTime => 0x07,
            LoginResult::DatabaseBusy => 0x08,
            LoginResult::InvalidVersion => 0x09,
            LoginResult::DownloadFile => 0x0A,
            LoginResult::InvalidServer => 0x0B,
            LoginResult::Suspended => 0x0C,
            LoginResult::NoAccess => 0x0D,
            LoginResult::SuccessSurvey => 0x0E,
            LoginResult::ParentalControl => 0x0F,
            LoginResult::LockedEnforced => 0x10,
        }
    }

    /// Whether decoding this result's code under `version` gives it back.
    pub fn is_valid(&self, version: u8) -> (b: bool)
        ensures
            b == login_result_valid(*self, version),
    {
        let format = WireFormat::for_version(version);
        format.login_results && match self {
            LoginResult::UnknownFailure(b) => *b == 0x01 || *b == 0x02,
            LoginResult::LockedEnforced => format.locked_enforced,
            _ => true,
        }
    }

    pub fn recv(source: &mut Reader, protocol: &GruntProtocol) -> (r: Result<LoginResult, Error>)
        ensures
            match login_result_decoded(old(source)@, *protocol) {
                Ok((x, n)) => r == Ok::<LoginResult, Error>(x) && final(source)@ == old(source)@.skip(n),
                Err(e) => r == Err::<LoginResult, Error>(e),
            },
    {
        let format = protocol.wire_format()?;
        let v = protocol.version.unwrap();
        if !format.login_results {
            return Err(Error::UnsupportedVersion(v));
        }
        let b = source.read_u8()?;
        match LoginResult::from_code(b, v) {
            Some(x) => Ok(x),
            None => Err(Error::UnknownLoginResult(b)),
        }
    }

    pub fn send(&self, dest: &mut Vec<u8>, protocol: &GruntProtocol) -> (r: Result<(), Error>)
        ensures
            match login_result_encoded(*self, *protocol) {
                Ok(bytes) => r is Ok && final(dest)@ == old(dest)@ + bytes,
                Err(e) => r == Err::<(), Error>(e) && final(dest)@ == old(dest)@,
            },
    {
        let format = protocol.wire_format()?;
        if let LoginResult::LockedEnforced = self {
            if !format.locked_enforced {
                return Err(Error::NotEncodable);
            }
        }
        write_u8(dest, self.code());
        Ok(())
    }
}

} // verus!
