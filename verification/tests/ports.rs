use devtoolbox::ports::{
    find_conflicts, format_bindings, interfaces_overlap, parse_ps_ports, OwnerKind, PortBinding,
    PortOwner,
};

/// The port column `docker ps` prints for one publish on IPv4 and IPv6.
const REAL_DOUBLE_BINDING: &str = "0.0.0.0:5656->5656/tcp, [::]:5656->5656/tcp";

fn binding(host_ip: &str, host_port: u16, container_port: u16, protocol: &str) -> PortBinding {
    PortBinding {
        host_ip: host_ip.to_string(),
        host_port,
        container_port,
        protocol: protocol.to_string(),
    }
}

fn owner(key: &str, bindings: Vec<PortBinding>) -> PortOwner {
    PortOwner::new(key, key, OwnerKind::RunningContainer, bindings)
}

#[test]
fn parse_ps_ports_reads_the_real_double_binding() {
    assert_eq!(
        parse_ps_ports(REAL_DOUBLE_BINDING),
        vec![
            binding("0.0.0.0", 5656, 5656, "tcp"),
            binding("::", 5656, 5656, "tcp"),
        ]
    );
}

#[test]
fn parse_ps_ports_skips_expose_only_entries() {
    assert!(parse_ps_ports("5656/tcp").is_empty());
    assert_eq!(
        parse_ps_ports("5656/tcp, 0.0.0.0:8080->80/tcp"),
        vec![binding("0.0.0.0", 8080, 80, "tcp")]
    );
}

#[test]
fn parse_ps_ports_expands_a_range() {
    assert_eq!(
        parse_ps_ports("0.0.0.0:8000-8002->8000-8002/tcp"),
        vec![
            binding("0.0.0.0", 8000, 8000, "tcp"),
            binding("0.0.0.0", 8001, 8001, "tcp"),
            binding("0.0.0.0", 8002, 8002, "tcp"),
        ]
    );
}

#[test]
fn parse_ps_ports_drops_a_range_whose_ends_disagree() {
    assert!(parse_ps_ports("0.0.0.0:8000-8002->9000-9005/tcp").is_empty());
}

#[test]
fn parse_ps_ports_skips_garbage_without_panicking() {
    assert!(parse_ps_ports("").is_empty());
    assert!(parse_ps_ports("nonsense").is_empty());
    assert!(parse_ps_ports("0.0.0.0:70000->80/tcp").is_empty());
    assert!(parse_ps_ports("0.0.0.0:->80/tcp").is_empty());
    assert_eq!(
        parse_ps_ports("garbage->, 0.0.0.0:53->53/udp"),
        vec![binding("0.0.0.0", 53, 53, "udp")]
    );
}

#[test]
fn parse_ps_ports_defaults_the_protocol_to_tcp() {
    assert_eq!(
        parse_ps_ports("127.0.0.1:8080->80"),
        vec![binding("127.0.0.1", 8080, 80, "tcp")]
    );
}

#[test]
fn interfaces_overlap_truth_table() {
    assert!(interfaces_overlap("0.0.0.0", "127.0.0.1"));
    assert!(interfaces_overlap("127.0.0.1", "0.0.0.0"));
    assert!(interfaces_overlap("", "192.168.1.10"));
    assert!(interfaces_overlap("[::]", "192.168.1.10"));
    assert!(interfaces_overlap("::", "0.0.0.0"));
    assert!(interfaces_overlap("127.0.0.1", "127.0.0.1"));
    assert!(!interfaces_overlap("127.0.0.1", "192.168.1.10"));
}

#[test]
fn port_owner_collapses_the_wildcard_double_binding() {
    let owner = owner("abc", parse_ps_ports(REAL_DOUBLE_BINDING));
    assert_eq!(owner.bindings, vec![binding("0.0.0.0", 5656, 5656, "tcp")]);
}

#[test]
fn a_container_never_conflicts_with_itself() {
    let owners = vec![owner("abc", parse_ps_ports(REAL_DOUBLE_BINDING))];
    assert!(find_conflicts(&owners).is_empty());
}

#[test]
fn the_same_owner_key_twice_is_not_a_conflict() {
    let owners = vec![
        owner("abc", parse_ps_ports("0.0.0.0:5656->5656/tcp")),
        owner("abc", parse_ps_ports("0.0.0.0:5656->5656/tcp")),
    ];
    assert!(find_conflicts(&owners).is_empty());
}

#[test]
fn two_running_containers_on_the_same_port_conflict() {
    let owners = vec![
        PortOwner::new(
            "abc",
            "lab",
            OwnerKind::RunningContainer,
            parse_ps_ports(REAL_DOUBLE_BINDING),
        ),
        PortOwner::new(
            "def",
            "tasks",
            OwnerKind::RunningContainer,
            parse_ps_ports("0.0.0.0:5656->3000/tcp"),
        ),
    ];
    let conflicts = find_conflicts(&owners);
    assert_eq!(conflicts.len(), 1);
    assert_eq!(conflicts[0].host_port, 5656);
    assert_eq!(conflicts[0].protocol, "tcp");
    assert_eq!(
        conflicts[0].owners,
        vec!["lab".to_string(), "tasks".to_string()]
    );
    assert!(conflicts[0].active);
}

#[test]
fn a_declared_stack_makes_the_conflict_inactive() {
    let owners = vec![
        PortOwner::new(
            "abc",
            "lab",
            OwnerKind::RunningContainer,
            parse_ps_ports("0.0.0.0:5656->5656/tcp"),
        ),
        PortOwner::new(
            "stack",
            "tasks (déclaré)",
            OwnerKind::DeclaredStack,
            parse_ps_ports("0.0.0.0:5656->5656/tcp"),
        ),
    ];
    let conflicts = find_conflicts(&owners);
    assert_eq!(conflicts.len(), 1);
    assert!(!conflicts[0].active);
}

#[test]
fn the_same_port_on_different_protocols_is_not_a_conflict() {
    let owners = vec![
        owner("abc", parse_ps_ports("0.0.0.0:53->53/tcp")),
        owner("def", parse_ps_ports("0.0.0.0:53->53/udp")),
    ];
    assert!(find_conflicts(&owners).is_empty());
}

#[test]
fn the_same_port_on_disjoint_interfaces_is_not_a_conflict() {
    let owners = vec![
        owner("abc", parse_ps_ports("127.0.0.1:8080->80/tcp")),
        owner("def", parse_ps_ports("192.168.1.10:8080->80/tcp")),
    ];
    assert!(find_conflicts(&owners).is_empty());
}

#[test]
fn a_third_owner_on_a_disjoint_interface_stays_out_of_the_conflict() {
    let owners = vec![
        PortOwner::new(
            "a",
            "a",
            OwnerKind::RunningContainer,
            parse_ps_ports("127.0.0.1:8080->80/tcp"),
        ),
        PortOwner::new(
            "b",
            "b",
            OwnerKind::RunningContainer,
            parse_ps_ports("127.0.0.1:8080->80/tcp"),
        ),
        PortOwner::new(
            "c",
            "c",
            OwnerKind::RunningContainer,
            parse_ps_ports("192.168.1.10:8080->80/tcp"),
        ),
    ];
    let conflicts = find_conflicts(&owners);
    assert_eq!(conflicts.len(), 1);
    assert_eq!(conflicts[0].owners, vec!["a".to_string(), "b".to_string()]);
}

#[test]
fn conflicts_are_sorted_by_port() {
    let owners = vec![
        owner(
            "a",
            parse_ps_ports("0.0.0.0:9000->80/tcp, 0.0.0.0:80->80/tcp"),
        ),
        owner(
            "b",
            parse_ps_ports("0.0.0.0:9000->80/tcp, 0.0.0.0:80->80/tcp"),
        ),
    ];
    let ports: Vec<u16> = find_conflicts(&owners)
        .iter()
        .map(|conflict| conflict.host_port)
        .collect();
    assert_eq!(ports, vec![80, 9000]);
}

#[test]
fn format_bindings_renders_the_column_form() {
    assert_eq!(format_bindings(&[]), "");
    assert_eq!(
        format_bindings(&parse_ps_ports(REAL_DOUBLE_BINDING)),
        "0.0.0.0:5656->5656/tcp",
        "the IPv4 and IPv6 halves of one publish collapse to a single entry"
    );
    assert_eq!(
        format_bindings(&[binding("", 8080, 80, "tcp")]),
        "8080->80/tcp"
    );
    assert_eq!(
        format_bindings(&[
            binding("127.0.0.1", 8080, 80, "tcp"),
            binding("192.168.1.5", 8080, 80, "tcp"),
        ]),
        "127.0.0.1:8080->80/tcp, 192.168.1.5:8080->80/tcp",
        "two distinct interfaces are two real publishes, never collapsed"
    );
}

#[test]
fn ps_entries_are_read_independently() {
    let a = "0.0.0.0:80->80/tcp";
    let b = "garbage, 127.0.0.1:5000-5001->6000-6001/udp";
    let mut separate = parse_ps_ports(a);
    separate.extend(parse_ps_ports(b));
    assert_eq!(parse_ps_ports(&format!("{a},{b}")), separate);
    assert_eq!(separate.len(), 3);
}

#[test]
fn parsed_protocols_are_lowercase_and_default_to_tcp() {
    let bindings = parse_ps_ports("0.0.0.0:53->53/UDP, 0.0.0.0:80->80, 0.0.0.0:81->81/ ");
    assert_eq!(bindings.len(), 2);
    assert_eq!(bindings[0].protocol, "udp");
    assert_eq!(bindings[1].protocol, "tcp");
}
