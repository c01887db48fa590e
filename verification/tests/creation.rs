use pods::creation::{chosen_pod, offered_image, CreationEvent, CreationFlow};
use pods::creation::{
    bind_mount, command_parts, container_command, health_test, create_enabled, exposed_port, finish_plan, health_config, memory_limit,
    memory_limit_binary, port_mapping_request, suggested_name, ExposedPort, FinishPlan, PortProtocol,
};
use pods::parse::parse_i32;

#[test]
fn bind_mounts() {
    let mount = bind_mount("/data", "/home/user/data", true, "z");
    assert_eq!(mount.destination.as_deref(), Some("/data"));
    assert_eq!(mount.source.as_deref(), Some("/home/user/data"));
    assert_eq!(mount._type.as_deref(), Some("bind"));
    assert_eq!(mount.options, Some(vec!["rw".to_string(), "z".to_string()]));
    let read_only = bind_mount("/etc/app", "/srv/app", false, "");
    assert_eq!(read_only.options, Some(vec!["ro".to_string()]));
}

#[test]
fn integer_parsing() {
    assert_eq!(parse_i32("8080"), Some(8080));
    assert_eq!(parse_i32("+7"), Some(7));
    assert_eq!(parse_i32("-2147483648"), Some(i32::MIN));
    assert_eq!(parse_i32("2147483647"), Some(i32::MAX));
    assert_eq!(parse_i32("2147483648"), None);
    assert_eq!(parse_i32("99999999999999999999"), None);
    assert_eq!(parse_i32(""), None);
    assert_eq!(parse_i32("-"), None);
    assert_eq!(parse_i32("12a"), None);
    assert_eq!(parse_i32(" 1"), None);
    assert_eq!(parse_i32("007"), Some(7));
    for text in ["0", "-0", "+0", "65535", "-17", "1e3", "++1", "4294967296"] {
        assert_eq!(parse_i32(text), text.parse::<i32>().ok(), "{text}");
    }
}

#[test]
fn exposed_ports() {
    assert_eq!(exposed_port("8080/tcp"), ExposedPort { port: Some(8080), protocol: Some(PortProtocol::Tcp) });
    assert_eq!(exposed_port("53/udp"), ExposedPort { port: Some(53), protocol: Some(PortProtocol::Udp) });
    assert_eq!(exposed_port("80"), ExposedPort { port: Some(80), protocol: None });
    assert_eq!(exposed_port("80/"), ExposedPort { port: Some(80), protocol: None });
    assert_eq!(exposed_port("80/sctp"), ExposedPort { port: Some(80), protocol: None });
    assert_eq!(exposed_port("http/tcp"), ExposedPort { port: None, protocol: Some(PortProtocol::Tcp) });
    assert_eq!(exposed_port("80/udp/x"), ExposedPort { port: Some(80), protocol: Some(PortProtocol::Udp) });
    assert_eq!(exposed_port(""), ExposedPort { port: None, protocol: None });
}

#[test]
fn creation_needs_a_name() {
    assert!(create_enabled("web"));
    assert!(!create_enabled(""));
    let name = suggested_name();
    assert!(name.contains('-'));
    assert!(create_enabled(&name));
}

#[test]
fn memory_limits() {
    assert_eq!(memory_limit(512, 0), 512_000);
    assert_eq!(memory_limit(2, 2), 2_000_000_000);
    assert_eq!(memory_limit(1, 5), 1_000_000_000_000_000_000);
    assert_eq!(memory_limit_binary(3, Some(1)), 3 * 1024 * 1024);
    assert_eq!(memory_limit_binary(3, None), 3);
}

#[test]
fn commands() {
    let args = vec!["-c".to_string(), "echo hi".to_string()];
    assert_eq!(
        container_command("sh", &args),
        Some(vec!["sh".to_string(), "-c".to_string(), "echo hi".to_string()])
    );
    assert_eq!(container_command("", &args), None);
    assert_eq!(container_command("top", &Vec::new()), Some(vec!["top".to_string()]));
}

#[test]
fn health_configs() {
    let config = health_config("curl -f http://localhost", 30, 3, 5, 10).unwrap();
    assert_eq!(config.interval, 30_000_000_000);
    assert_eq!(config.retries, 3);
    assert_eq!(config.start_period, 5_000_000_000);
    assert_eq!(config.timeout, 10_000_000_000);
    assert_eq!(config.test, vec!["curl", "-f", "http://localhost"]);
    assert!(health_config("", 30, 3, 5, 10).is_none());
}

#[test]
fn finishing() {
    let tags = vec!["alpine:latest".to_string()];
    match finish_plan(Some("quay.io/x/y:1"), None, false) {
        FinishPlan::PullAndCreate(r) => assert_eq!(r, "quay.io/x/y:1"),
        other => panic!("{other:?}"),
    }
    match finish_plan(None, Some((&tags, "abc")), true) {
        FinishPlan::PullAndCreate(r) => assert_eq!(r, "alpine:latest"),
        other => panic!("{other:?}"),
    }
    match finish_plan(None, Some((&tags, "abc")), false) {
        FinishPlan::Create(label) => assert_eq!(label, "alpine:latest"),
        other => panic!("{other:?}"),
    }
    match finish_plan(None, Some((&Vec::new(), "abc")), false) {
        FinishPlan::Create(label) => assert_eq!(label, "abc"),
        other => panic!("{other:?}"),
    }
    assert!(matches!(finish_plan(None, None, true), FinishPlan::NoImage));
}

#[test]
fn port_mapping_requests() {
    let request = port_mapping_request(8080, 80, PortProtocol::Tcp);
    assert_eq!((request.container_port, request.host_port, request.protocol.as_str()), (8080, 80, "tcp"));
    let wrapped = port_mapping_request(65536 + 22, -1, PortProtocol::Udp);
    assert_eq!((wrapped.container_port, wrapped.host_port, wrapped.protocol.as_str()), (22, 65535, "udp"));
}

#[test]
fn dialog_commands() {
    assert_eq!(command_parts("  sh  -c   ls "), Some(vec!["sh".to_string(), "-c".to_string(), "ls".to_string()]));
    assert_eq!(command_parts(" \t "), None);
    assert_eq!(health_test(" curl  -f "), Some(vec!["curl".to_string(), "".to_string(), "-f".to_string()]));
    assert_eq!(health_test(""), None);
}

#[test]
fn suggested_names_are_adjective_and_noun() {
    for _ in 0..50 {
        let name = suggested_name();
        assert!(name.starts_with(|c: char| c.is_ascii_lowercase()));
        assert!(name.ends_with(|c: char| c.is_ascii_lowercase()));
        assert!(name.chars().all(|c| c.is_ascii_lowercase() || c == '-'));
        assert!(!name.contains("--"));
    }
}

#[test]
fn image_and_pod_choice() {
    assert!(offered_image(&vec!["alpine:latest".to_string()]));
    assert!(!offered_image(&Vec::new()));
    assert_eq!(chosen_pod(true, Some("web".to_string())), Some("web".to_string()));
    assert_eq!(chosen_pod(false, Some("web".to_string())), None);
}

#[test]
fn creation_flow() {
    let mut flow = CreationFlow::new(true);
    let actions = flow.step(CreationEvent::Created { id: "abc".to_string(), listed: false });
    assert_eq!((actions.show, actions.start, actions.error), (None, Some("abc".to_string()), None));
    let other = flow.step(CreationEvent::Added("xyz".to_string()));
    assert_eq!(other.show, None);
    let added = flow.step(CreationEvent::Added("abc".to_string()));
    assert_eq!(added.show, Some("abc".to_string()));
    let mut quiet = CreationFlow::new(false);
    let listed = quiet.step(CreationEvent::Created { id: "id1".to_string(), listed: true });
    assert_eq!((listed.show, listed.start), (Some("id1".to_string()), None));
    let failed = quiet.step(CreationEvent::Failed("no image".to_string()));
    assert_eq!((failed.show, failed.error), (None, Some("no image".to_string())));
}
