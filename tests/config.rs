use pow::config::{Configuration, PipeConfig, PipeError, ProtocolKind};
use pow::dependency::DependencyInfo;

#[test]
fn grunt_to_battlenet_pipe_listens_on_source_host() {
    let pipe = PipeConfig {
        source: ProtocolKind::Grunt { host: "0.0.0.0:3724".to_string() },
        destination: ProtocolKind::BattleNET { host: "eu.example".to_string(), port: 1119 },
    };
    assert_eq!(pipe.listener_address(), Ok("0.0.0.0:3724".to_string()));
    let config = Configuration { pipes: vec![pipe] };
    assert_eq!(config.pipes.len(), 1);
}

#[test]
fn pipes_that_cannot_start() {
    let same = PipeConfig {
        source: ProtocolKind::Grunt { host: "a".to_string() },
        destination: ProtocolKind::Grunt { host: "b".to_string() },
    };
    assert_eq!(same.listener_address(), Err(PipeError::NothingToTranslate));
    let reverse = PipeConfig {
        source: ProtocolKind::BattleNET { host: "a".to_string(), port: 1 },
        destination: ProtocolKind::Grunt { host: "b".to_string() },
    };
    assert_eq!(reverse.listener_address(), Err(PipeError::UnsupportedSource));
}

#[test]
fn dependency_from_dotted_path() {
    let d = DependencyInfo::from_path("bgs.protocol.Header");
    assert_eq!(d.base, "crate");
    assert_eq!(d.path, "Header");
    assert_eq!(d.typename, "bgs.protocol");
}

#[test]
fn dependency_rebase() {
    let d = DependencyInfo::from_path("pkg.Type");
    let r = d.clone().rebase("super".to_string());
    assert_eq!(r.base, "super");
    assert_eq!(r.path, d.path);
    assert_eq!(d.clone().try_rebase(None), d);
    assert_eq!(d.clone().try_rebase(Some("other".to_string())).base, "other");
}
