//! The proxy's configuration: a list of pipes, each joining a protocol that
//! clients speak to the protocol of the server behind the proxy.

use vstd::prelude::*;

verus! {

/// The configuration of a proxy instance.
#[derive(Debug, Clone)]
pub struct Configuration {
    /// The pipes the proxy opens.
    pub pipes: Vec<PipeConfig>,
}

/// One end of a pipe.
#[derive(Debug, Clone)]
pub enum ProtocolKind {
    Grunt { host: String },
    BattleNET { host: String, port: u16 },
}

/// A pipe: where the proxy listens, and which server it stands in for.
#[derive(Debug, Clone)]
pub struct PipeConfig {
    /// The endpoint the proxy listens on.
    pub source: ProtocolKind,
    /// The server the proxy impersonates.
    pub destination: ProtocolKind,
}

/// Why a pipe cannot start.
#[derive(Debug, Clone, Copy, PartialEq, Eq, Structural)]
pub enum PipeError {
    /// Both ends speak the same protocol: there is nothing to translate.
    NothingToTranslate,
    /// No listener exists yet for the source protocol.
    UnsupportedSource,
}

/// What starting a pipe means: the address a login listener binds, or why
/// the pipe cannot start.
pub open spec fn pipe_listener(pipe: PipeConfig) -> Result<Seq<char>, PipeError> {
    match (pipe.source, pipe.destination) {
        (ProtocolKind::Grunt { host }, ProtocolKind::BattleNET { .. }) => Ok(host@),
        (ProtocolKind::BattleNET { .. }, ProtocolKind::Grunt { .. }) => Err(PipeError::UnsupportedSource),
        _ => Err(PipeError::NothingToTranslate),
    }
}

impl PipeConfig {
    /// The address on which this pipe's listener binds.
    pub fn listener_address(&self) -> (r: Result<String, PipeError>)
        ensures
            match pipe_listener(*self) {
                Ok(host) => r matches Ok(a) && a@ == host,
                Err(e) => r == Err::<String, PipeError>(e),
            },
    {
        match (&self.source, &self.destination) {
            (ProtocolKind::Grunt { host }, ProtocolKind::BattleNET { .. }) => Ok(host.clone()),
            (ProtocolKind::BattleNET { .. }, ProtocolKind::Grunt { .. }) => Err(PipeError::UnsupportedSource),
            _ => Err(PipeError::NothingToTranslate),
        }
    }
}

} // verus!
