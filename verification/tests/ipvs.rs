use hujingzhi::ipvs::{
    is_loopback, is_service_ip, lookup, IpvsServer, IpvsService, IpvsState, LoopbackInfo,
};

fn server(address: &str, port: u16, active_conn: i32, weight: i32) -> IpvsServer {
    IpvsServer { address: address.to_string(), port, active_conn, weight }
}

fn service(address: &str, port: u16, servers: Vec<IpvsServer>) -> IpvsService {
    IpvsService {
        local_address: address.to_string(),
        local_port: port,
        scheduler: "rr".to_string(),
        servers,
    }
}

#[test]
fn loopback_server_is_found_by_port() {
    let state = IpvsState {
        services: vec![
            service("127.0.0.5", 80, vec![server("127.0.0.1", 20000, 3, 1)]),
            service("127.0.0.6", 80, vec![server("127.0.0.1", 20001, 0, 0)]),
        ],
    };
    assert_eq!(state.info(20000), Some(LoopbackInfo { connections: 3, weight: 1 }));
    assert_eq!(state.info(20001), Some(LoopbackInfo { connections: 0, weight: 0 }));
    assert_eq!(state.info(20002), None);
    assert_eq!(lookup(&Some(state.clone()), 20000), Some(LoopbackInfo { connections: 3, weight: 1 }));
    assert_eq!(lookup(&None, 20000), None);
    assert_eq!(state.clone(), state);
}

#[test]
fn services_outside_the_block_are_not_looked_at() {
    let state = IpvsState {
        services: vec![
            service("10.0.0.1", 80, vec![server("127.0.0.1", 20000, 9, 9)]),
            service("127.0.1.1", 80, vec![server("127.0.0.1", 20001, 9, 9)]),
        ],
    };
    assert_eq!(state.info(20000), None);
    assert_eq!(state.info(20001), None);
}

#[test]
fn servers_off_loopback_are_not_looked_at() {
    let state = IpvsState {
        services: vec![service(
            "127.0.0.5",
            80,
            vec![server("10.1.1.1", 20000, 9, 9), server("127.0.0.1", 20000, 2, 1)],
        )],
    };
    assert_eq!(state.info(20000), Some(LoopbackInfo { connections: 2, weight: 1 }));
}

#[test]
fn first_server_on_a_port_wins() {
    let state = IpvsState {
        services: vec![
            service("127.0.0.5", 80, vec![server("127.0.0.1", 20000, 1, 1)]),
            service("127.0.0.6", 80, vec![server("127.0.0.1", 20000, 7, 0)]),
        ],
    };
    assert_eq!(state.info(20000), Some(LoopbackInfo { connections: 1, weight: 1 }));
}

#[test]
fn address_classes() {
    assert!(is_service_ip("127.0.0.1"));
    assert!(is_service_ip("127.0.0.200"));
    assert!(!is_service_ip("127.0.1.1"));
    assert!(is_loopback("127.0.0.1"));
    assert!(!is_loopback("127.0.0.10"));
    assert!(!is_loopback("127.0.0."));
}
