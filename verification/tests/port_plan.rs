use devtoolbox::port_plan::{
    declaration_matches, next_free_port, plan_reassignment, DeclaredPort, ListeningPort,
    MoveReason, SEARCH_CEILING, SEARCH_FLOOR,
};
use devtoolbox::ports::{OwnerKind, PortBinding, PortOwner};

fn declaration(file: &str, service: &str, host_port: u16) -> DeclaredPort {
    DeclaredPort {
        file: file.to_string(),
        service: service.to_string(),
        host_port,
        container_port: 80,
        protocol: "tcp".to_string(),
    }
}

fn binding(host_port: u16, protocol: &str) -> PortBinding {
    PortBinding {
        host_ip: "0.0.0.0".to_string(),
        host_port,
        container_port: 80,
        protocol: protocol.to_string(),
    }
}

fn running(label: &str, file: &str, service: &str, host_port: u16) -> PortOwner {
    PortOwner::new(
        label,
        label,
        OwnerKind::RunningContainer,
        vec![binding(host_port, "tcp")],
    )
    .with_declaration(format!("{file}\u{1f}{service}"))
}

fn listener(port: u16, protocol: &str, process: &str) -> ListeningPort {
    ListeningPort {
        port,
        protocol: protocol.to_string(),
        pid: Some(7),
        process: Some(process.to_string()),
    }
}

#[test]
fn nothing_collides_nothing_moves() {
    let declarations = vec![
        declaration("/a.yml", "web", 8080),
        declaration("/b.yml", "api", 8081),
    ];
    let plan = plan_reassignment(&declarations, &[], &[]);
    assert!(plan.is_empty());
}

#[test]
fn two_stacks_on_one_port_move_the_second_one() {
    let declarations = vec![
        declaration("/a.yml", "web", 8080),
        declaration("/b.yml", "web", 8080),
    ];
    let plan = plan_reassignment(&declarations, &[], &[]);
    assert_eq!(plan.moves.len(), 1);
    assert_eq!(plan.moves[0].file, "/b.yml");
    assert_eq!(plan.moves[0].from, 8080);
    assert_eq!(plan.moves[0].to, 8081);
    assert!(matches!(plan.moves[0].reason, MoveReason::TakenByStack(_)));
}

/// The whole point of consulting the owners: the stack that is *up* keeps
/// its port, whatever the alphabetical order says.
#[test]
fn the_running_stack_keeps_the_port() {
    let declarations = vec![
        declaration("/a.yml", "web", 8080),
        declaration("/b.yml", "web", 8080),
    ];
    let owners = vec![running("b-web-1", "/b.yml", "web", 8080)];
    let plan = plan_reassignment(&declarations, &owners, &[]);
    assert_eq!(plan.moves.len(), 1);
    assert_eq!(
        plan.moves[0].file, "/a.yml",
        "the stopped one is the one that moves"
    );
}

/// A port no container fights over, but the host already holds — the case
/// only the `netstat` / `ss` scan can see.
#[test]
fn a_host_listener_alone_is_enough_to_move_a_declaration() {
    let declarations = vec![declaration("/a.yml", "db", 5432)];
    let listeners = vec![listener(5432, "tcp", "postgres.exe (PID 7)")];
    let plan = plan_reassignment(&declarations, &[], &listeners);
    assert_eq!(plan.moves.len(), 1);
    assert_eq!(plan.moves[0].to, 5433);
    assert!(matches!(plan.moves[0].reason, MoveReason::TakenByHost(_)));
}

/// Docker's own proxy holds a running container's port, so a scan always
/// reports it. Treating that as a collision would propose moving every
/// stack that currently works.
#[test]
fn a_running_declarations_own_listener_is_not_a_reason_to_move() {
    let declarations = vec![declaration("/a.yml", "web", 8080)];
    let owners = vec![running("a-web-1", "/a.yml", "web", 8080)];
    let listeners = vec![listener(8080, "tcp", "com.docker.backend.exe")];
    assert!(plan_reassignment(&declarations, &owners, &listeners).is_empty());
}

#[test]
fn a_replacement_never_lands_on_something_else_that_is_taken() {
    let declarations = vec![
        declaration("/a.yml", "web", 8080),
        declaration("/b.yml", "web", 8080),
        declaration("/c.yml", "api", 8081),
    ];
    let listeners = vec![listener(8082, "tcp", "node.exe")];
    let plan = plan_reassignment(&declarations, &[], &listeners);
    assert_eq!(plan.moves.len(), 1);
    assert_eq!(plan.moves[0].to, 8083, "8081 is declared, 8082 is held");
}

/// Three declarations on one port must land on three *different* ports.
#[test]
fn two_movers_do_not_land_on_the_same_replacement() {
    let declarations = vec![
        declaration("/a.yml", "web", 8080),
        declaration("/b.yml", "web", 8080),
        declaration("/c.yml", "web", 8080),
    ];
    let plan = plan_reassignment(&declarations, &[], &[]);
    assert_eq!(plan.moves.len(), 2);
    assert_ne!(plan.moves[0].to, plan.moves[1].to);
}

#[test]
fn protocols_are_independent() {
    let mut udp = declaration("/a.yml", "dns", 53);
    udp.protocol = "udp".to_string();
    let declarations = vec![declaration("/a.yml", "web", 53), udp];
    assert!(plan_reassignment(&declarations, &[], &[]).is_empty());
}

/// Two containers created by hand fighting over a port: nothing to
/// rewrite, so the plan says so rather than coming back empty.
#[test]
fn a_collision_with_no_compose_declaration_is_reported_as_blocked() {
    let owners = vec![
        PortOwner::new(
            "id-1",
            "solo-1",
            OwnerKind::RunningContainer,
            vec![binding(9000, "tcp")],
        ),
        PortOwner::new(
            "id-2",
            "solo-2",
            OwnerKind::StoppedContainer,
            vec![binding(9000, "tcp")],
        ),
    ];
    let plan = plan_reassignment(&[], &owners, &[]);
    assert!(plan.moves.is_empty());
    assert_eq!(plan.blocked.len(), 1);
    assert_eq!(plan.blocked[0].host_port, 9000);
    assert_eq!(plan.blocked[0].owners.len(), 2);
}

#[test]
fn next_free_port_wraps_rather_than_giving_up_near_the_ceiling() {
    let taken: Vec<(u16, Vec<char>)> = Vec::new();
    assert_eq!(
        next_free_port(SEARCH_CEILING, &"tcp".chars().collect(), &taken),
        Some(SEARCH_FLOOR)
    );
}

#[test]
fn next_free_port_never_proposes_a_privileged_port() {
    let taken: Vec<(u16, Vec<char>)> = Vec::new();
    let port = next_free_port(80, &"tcp".chars().collect(), &taken).expect("a port exists");
    assert!(port >= SEARCH_FLOOR, "{port} is below the floor");
}

#[test]
fn declaration_matches_finds_a_service_inside_a_multi_file_project() {
    let key = "/a.yml,/a.override.yml\u{1f}web";
    assert!(declaration_matches(key, "/a.override.yml", "web"));
    assert!(!declaration_matches(key, "/a.override.yml", "api"));
    assert!(!declaration_matches(key, "/b.yml", "web"));
}

#[test]
fn files_lists_each_touched_file_once() {
    let declarations = vec![
        declaration("/keep.yml", "web", 8080),
        declaration("/move.yml", "web", 8080),
        declaration("/move.yml", "api", 8080),
    ];
    let plan = plan_reassignment(&declarations, &[], &[]);
    assert_eq!(plan.files(), vec!["/move.yml".to_string()]);
}

#[test]
fn a_port_above_the_ceiling_is_replaced_from_the_floor_up() {
    let tcp: Vec<char> = "tcp".chars().collect();
    let taken: Vec<(u16, Vec<char>)> = (1024..=1030).map(|p| (p, tcp.clone())).collect();
    assert_eq!(next_free_port(60000, &tcp, &taken), Some(1031));
    assert_eq!(next_free_port(50000, &tcp, &Vec::new()), Some(SEARCH_FLOOR));
    assert_eq!(next_free_port(65535, &tcp, &Vec::new()), Some(SEARCH_FLOOR));
}

#[test]
fn a_stopped_keeper_held_by_the_host_moves_with_every_other_member() {
    let declarations = vec![
        declaration("/c.yml", "web", 8080),
        declaration("/a.yml", "web", 8080),
        declaration("/b.yml", "web", 8080),
    ];
    let listeners = vec![listener(8080, "tcp", "nginx.exe (PID 7)")];
    let plan = plan_reassignment(&declarations, &[], &listeners);
    let files: Vec<&str> = plan.moves.iter().map(|m| m.file.as_str()).collect();
    assert_eq!(files, vec!["/a.yml", "/b.yml", "/c.yml"]);
    assert!(matches!(plan.moves[0].reason, MoveReason::TakenByHost(_)));
    assert!(matches!(plan.moves[1].reason, MoveReason::TakenByStack(_)));
    assert!(matches!(plan.moves[2].reason, MoveReason::TakenByStack(_)));
    assert!(plan.moves.iter().all(|m| m.from == 8080));
}
