use hujingzhi::config::{HealthCheckSpec, ProcessSpec};
use hujingzhi::health::{
    bind_port, health_check, health_verdict, port_of, HealthPlan, ProbeReply,
};

fn spec(health: Option<HealthCheckSpec>) -> ProcessSpec {
    ProcessSpec {
        name: "p".to_string(),
        command: vec!["/bin/true".to_string()],
        cwd: None,
        uid: None,
        gid: None,
        env: vec![],
        receives: vec!["s".to_string()],
        health,
    }
}

fn check(service: &str, path: &str) -> Option<HealthCheckSpec> {
    Some(HealthCheckSpec { service: service.to_string(), path: path.to_string() })
}

#[test]
fn no_health_check_means_healthy() {
    let ports = vec![("s".to_string(), 20000)];
    assert_eq!(health_check(&spec(None), &ports), HealthPlan::Healthy);
}

#[test]
fn path_with_slash_is_probed_as_it_is() {
    let ports = vec![("s".to_string(), 20000)];
    assert_eq!(
        health_check(&spec(check("s", "/h")), &ports),
        HealthPlan::Probe { url: "http://127.0.0.1:20000/h".to_string() }
    );
}

#[test]
fn path_without_slash_gets_one() {
    let ports = vec![("t".to_string(), 1), ("s".to_string(), 20001)];
    assert_eq!(
        health_check(&spec(check("s", "healthz?x=1")), &ports),
        HealthPlan::Probe { url: "http://127.0.0.1:20001/healthz?x=1".to_string() }
    );
    assert_eq!(
        health_check(&spec(check("s", "")), &ports),
        HealthPlan::Probe { url: "http://127.0.0.1:20001/".to_string() }
    );
}

#[test]
fn health_service_without_port_is_reported() {
    let ports = vec![("t".to_string(), 20000)];
    assert_eq!(
        health_check(&spec(check("s", "/h")), &ports),
        HealthPlan::MissingPort { service: "s".to_string() }
    );
}

#[test]
fn only_the_2xx_class_is_healthy() {
    assert_eq!(health_verdict(ProbeReply::Status { code: 200 }), Ok(true));
    assert_eq!(health_verdict(ProbeReply::Status { code: 204 }), Ok(true));
    assert_eq!(health_verdict(ProbeReply::Status { code: 299 }), Ok(true));
    assert_eq!(health_verdict(ProbeReply::Status { code: 199 }), Ok(false));
    assert_eq!(health_verdict(ProbeReply::Status { code: 300 }), Ok(false));
    assert_eq!(health_verdict(ProbeReply::Status { code: 500 }), Ok(false));
}

#[test]
fn refused_connection_is_unhealthy_other_failures_are_errors() {
    assert_eq!(health_verdict(ProbeReply::ConnectionFailed), Ok(false));
    assert_eq!(
        health_verdict(ProbeReply::Failed { message: "timed out".to_string() }),
        Err("timed out".to_string())
    );
}

#[test]
fn binding_a_service_again_replaces_its_port() {
    let mut ports = Vec::new();
    bind_port(&mut ports, "a".to_string(), 1);
    bind_port(&mut ports, "b".to_string(), 2);
    bind_port(&mut ports, "a".to_string(), 3);
    assert_eq!(ports, vec![("a".to_string(), 3), ("b".to_string(), 2)]);
    assert_eq!(port_of(&ports, &"a".to_string()), Some(3));
    assert_eq!(port_of(&ports, &"c".to_string()), None);
}
