use hujingzhi::config::ProcessSpec;
use hujingzhi::launch::{environment, port_variable, port_variable_for};

#[test]
fn port_variable_is_upper_case() {
    assert_eq!(port_variable("web"), "SERVICE_PORT_WEB");
    assert_eq!(port_variable("my-api_2"), "SERVICE_PORT_MY-API_2");
    assert_eq!(port_variable("straße"), "SERVICE_PORT_STRASSE");
}

#[test]
fn environment_is_spec_variables_then_port_variables() {
    let spec = ProcessSpec {
        name: "p".to_string(),
        command: vec!["/bin/true".to_string()],
        cwd: None,
        uid: None,
        gid: None,
        env: vec![("A".to_string(), "1".to_string()), ("B".to_string(), "2".to_string())],
        receives: vec!["web".to_string(), "api".to_string()],
        health: None,
    };
    let ports = vec![("web".to_string(), 20000), ("api".to_string(), 20001)];
    assert_eq!(
        environment(&spec, &ports),
        vec![
            ("A".to_string(), "1".to_string()),
            ("B".to_string(), "2".to_string()),
            ("SERVICE_PORT_WEB".to_string(), "20000".to_string()),
            ("SERVICE_PORT_API".to_string(), "20001".to_string()),
        ]
    );
}

#[test]
fn port_variable_is_prefixed() {
    assert_eq!(port_variable_for("WEB"), "SERVICE_PORT_WEB");
    assert_eq!(port_variable_for(""), "SERVICE_PORT_");
}
