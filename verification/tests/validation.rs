use hujingzhi::config::{HujingzhiTarget, ProcessSpec, ServiceSpec};
use hujingzhi::ipvs::{parse_host_and_port, AddressError};
use hujingzhi::validation::{invalid_ip_message, validate_target, NameField, TargetError};
use hujingzhi::GlobalState;

fn service(name: &str, on: &str) -> ServiceSpec {
    ServiceSpec { name: name.to_string(), on: on.to_string() }
}

fn process(name: &str) -> ProcessSpec {
    ProcessSpec {
        name: name.to_string(),
        command: vec!["/bin/true".to_string()],
        cwd: None,
        uid: None,
        gid: None,
        env: vec![],
        receives: vec![],
        health: None,
    }
}

#[test]
fn valid_target_is_accepted() {
    let target = HujingzhiTarget {
        processes: vec![process("p"), process("q")],
        services: vec![service("s", "127.0.0.5:80"), service("t", "127.0.0.6:443")],
    };
    assert_eq!(validate_target(&target), Ok(()));
    assert_eq!(GlobalState::validate_target(&target), Ok(()));
}

#[test]
fn empty_target_is_accepted() {
    assert_eq!(validate_target(&HujingzhiTarget::default()), Ok(()));
    assert_eq!(HujingzhiTarget::default(), HujingzhiTarget { processes: vec![], services: vec![] });
}

#[test]
fn duplicate_service_name_is_rejected() {
    let target = HujingzhiTarget {
        processes: vec![],
        services: vec![service("s", "127.0.0.5:80"), service("s", "127.0.0.6:80")],
    };
    let error = validate_target(&target).unwrap_err();
    assert_eq!(
        error,
        TargetError::DuplicateName { name: "s".to_string(), field: NameField::Services }
    );
    assert_eq!(error.message(), "Duplicate name s in services");
}

#[test]
fn duplicate_process_name_is_rejected_first() {
    let target = HujingzhiTarget {
        processes: vec![process("a"), process("b"), process("b"), process("a")],
        services: vec![service("s", "127.0.0.5:80"), service("s", "127.0.0.6:80")],
    };
    let error = validate_target(&target).unwrap_err();
    assert_eq!(
        error,
        TargetError::DuplicateName { name: "b".to_string(), field: NameField::Processes }
    );
    assert_eq!(error.message(), "Duplicate name b in processes");
}

#[test]
fn service_outside_the_block_is_rejected() {
    let target = HujingzhiTarget {
        processes: vec![],
        services: vec![service("ok", "127.0.0.5:80"), service("web", "10.0.0.1:80")],
    };
    let error = validate_target(&target).unwrap_err();
    assert_eq!(
        error,
        TargetError::InvalidIp { service: "web".to_string(), host: "10.0.0.1".to_string() }
    );
    assert_eq!(
        error.message(),
        "Service web has invalid IP \"10.0.0.1\" -- must start with \"127.0.0.\""
    );
}

#[test]
fn service_without_port_is_rejected() {
    let target = HujingzhiTarget { processes: vec![], services: vec![service("s", "127.0.0.5")] };
    let error = validate_target(&target).unwrap_err();
    assert_eq!(
        error,
        TargetError::Address { service: "s".to_string(), error: AddressError::MissingPort }
    );
    assert_eq!(error.message(), "Missing port in address");
}

#[test]
fn addresses_split_at_the_first_colon() {
    assert_eq!(parse_host_and_port("127.0.0.5:80"), Ok(("127.0.0.5".to_string(), 80)));
    assert_eq!(parse_host_and_port("h:0"), Ok(("h".to_string(), 0)));
    assert_eq!(parse_host_and_port(":65535"), Ok(("".to_string(), 65535)));
    assert_eq!(parse_host_and_port("h:00080"), Ok(("h".to_string(), 80)));
}

#[test]
fn bad_addresses_are_told_apart() {
    assert_eq!(parse_host_and_port("127.0.0.5"), Err(AddressError::MissingPort));
    assert_eq!(parse_host_and_port(""), Err(AddressError::MissingPort));
    assert_eq!(parse_host_and_port("h:"), Err(AddressError::InvalidPort));
    assert_eq!(parse_host_and_port("h:65536"), Err(AddressError::InvalidPort));
    assert_eq!(parse_host_and_port("h:99999999999999999999"), Err(AddressError::InvalidPort));
    assert_eq!(parse_host_and_port("h:8a"), Err(AddressError::InvalidPort));
    assert_eq!(parse_host_and_port("h:+80"), Err(AddressError::InvalidPort));
    assert_eq!(parse_host_and_port("a:b:80"), Err(AddressError::InvalidPort));
    assert_eq!(AddressError::InvalidPort.message(), "Invalid port in address");
}

#[test]
fn process_specs_compare_by_every_field() {
    let a = process("p");
    let mut b = process("p");
    assert!(a.same_as(&b));
    assert_eq!(a.clone(), a);
    b.env.push(("K".to_string(), "V".to_string()));
    assert!(!a.same_as(&b));
    let mut c = process("p");
    c.receives.push("s".to_string());
    assert!(!a.same_as(&c));
}

#[test]
fn targets_compare_by_every_process_and_service() {
    let a = HujingzhiTarget { processes: vec![process("p")], services: vec![service("s", "127.0.0.5:80")] };
    let b = a.clone();
    assert!(a.same_as(&b));
    let c = HujingzhiTarget { processes: vec![process("p")], services: vec![service("s", "127.0.0.5:81")] };
    assert!(!a.same_as(&c));
    assert_eq!(a.find_process(&"p".to_string()), Some(0));
    assert_eq!(a.find_process(&"q".to_string()), None);
    assert_eq!(a.find_service(&"s".to_string()), Some(0));
}

#[test]
fn invalid_ip_message_joins_its_parts() {
    assert_eq!(
        invalid_ip_message("web", "\"10.0.0.1\"", "\"127.0.0.\""),
        "Service web has invalid IP \"10.0.0.1\" -- must start with \"127.0.0.\""
    );
}

#[test]
fn host_is_quoted_with_escapes() {
    let target = HujingzhiTarget {
        processes: vec![],
        services: vec![service("s", "a\"b:80")],
    };
    assert_eq!(
        validate_target(&target).unwrap_err().message(),
        "Service s has invalid IP \"a\\\"b\" -- must start with \"127.0.0.\""
    );
}
