use network_initializer::config::{Client, Config, Drone, NodeId, Server};
use network_initializer::init::{
    network_init, ClientCommand, ClientType, DroneCommand, NodeKind, NodeRuntime, ServerCommand,
    ServerType, MAX_CLIENT_TYPES, MAX_IMPL, MAX_SERVER_TYPES,
};
use network_initializer::validate::validate_config;

/// A packet drop rate given as a fraction, scaled to millionths.
fn millionths(p: f32) -> i64 {
    (p as f64 * 1_000_000.0).round() as i64
}

/// The topology of the end-to-end example: drones 4, 6 and 7 meshed
/// together, a client on drone 4, and a server on drones 4 and 6.
fn example_config() -> Config {
    let drone = vec![
        Drone { id: 4, connected_node_ids: vec![6, 7, 1, 5], pdr_millionths: millionths(0.1) },
        Drone { id: 6, connected_node_ids: vec![4, 7, 5], pdr_millionths: millionths(0.2) },
        Drone { id: 7, connected_node_ids: vec![4, 6], pdr_millionths: millionths(0.3) },
    ];
    let client = vec![Client { id: 1, connected_drone_ids: vec![4] }];
    let server = vec![Server { id: 5, connected_drone_ids: vec![4, 6] }];
    Config { drone, client, server }
}

#[test]
fn test_network_init_topology() {
    let config = example_config();
    assert_eq!(validate_config(&config), Ok(()));
    let boot = network_init(&config);
    let topology = &boot.data.init_data.topology;
    assert_eq!(topology.len(), 256);

    match topology[4].0 {
        NodeKind::Drone(pdr, variant) => {
            assert_eq!(pdr, millionths(0.1));
            assert_eq!(variant.code, 0);
        }
        _ => panic!("slot 4 should hold a drone"),
    }
    match topology[6].0 {
        NodeKind::Drone(pdr, variant) => {
            assert_eq!(pdr, millionths(0.2));
            assert_eq!(variant.code, 1);
        }
        _ => panic!("slot 6 should hold a drone"),
    }
    assert!(matches!(topology[1].0, NodeKind::Client(ClientType::Browser)));
    assert!(matches!(topology[5].0, NodeKind::Server(ServerType::Content)));
    assert!(matches!(topology[0].0, NodeKind::Vacant));
    assert!(matches!(topology[200].0, NodeKind::Vacant));

    // The neighbor sets mirror the declared edges exactly.
    let neighbors_of_4: Vec<usize> = topology[4].1.ones().collect();
    assert_eq!(neighbors_of_4, vec![1, 5, 6, 7]);
    let neighbors_of_1: Vec<usize> = topology[1].1.ones().collect();
    assert_eq!(neighbors_of_1, vec![4]);
    let neighbors_of_0: Vec<usize> = topology[0].1.ones().collect();
    assert!(neighbors_of_0.is_empty());
}

#[test]
fn test_network_init_packet_send_map() {
    let config = example_config();
    let boot = network_init(&config);
    let map = &boot.data.init_data.packet_send_map;
    assert_eq!(map.len(), 256);
    for id in 0..=255usize {
        let should_exist = [1, 4, 5, 6, 7].contains(&id);
        assert_eq!(map[id].is_some(), should_exist, "slot {}", id);
    }
}

#[test]
fn test_network_init_distribution_totals() {
    let config = example_config();
    let boot = network_init(&config);
    let distros = &boot.data.distros;
    assert_eq!(distros.drones.len(), MAX_IMPL);
    assert_eq!(distros.clients.len(), MAX_CLIENT_TYPES);
    assert_eq!(distros.servers.len(), MAX_SERVER_TYPES);
    let drone_total: usize = distros.drones.iter().sum();
    let client_total: usize = distros.clients.iter().sum();
    let server_total: usize = distros.servers.iter().sum();
    assert_eq!(drone_total, config.drone.len());
    assert_eq!(client_total, config.client.len());
    assert_eq!(server_total, config.server.len());
    // Round-robin: the first three drone implementations got one drone each.
    assert_eq!(distros.drones[0], 1);
    assert_eq!(distros.drones[1], 1);
    assert_eq!(distros.drones[2], 1);
    assert_eq!(distros.drones[3], 0);
}

#[test]
fn test_network_init_gui_channels() {
    let config = example_config();
    let boot = network_init(&config);
    let gui = &boot.data.list_gui_channels;
    assert_eq!(gui.len(), 1);
    assert_eq!(gui[0].0, 1);
    assert_eq!(gui[0].1, ClientType::Browser);
}

#[test]
fn test_network_init_wiring_completeness() {
    // Every declared edge (A, B) is delivered to A's command channel as an
    // add-neighbor command carrying B's id, in declaration order; the
    // unbounded channels hold them until the node runs.
    let config = example_config();
    let boot = network_init(&config);
    for runtime in &boot.runtimes {
        match runtime {
            NodeRuntime::Drone { id, command_recv, .. } => {
                let wired: Vec<NodeId> = command_recv
                    .try_iter()
                    .map(|cmd| match cmd {
                        DroneCommand::AddSender(nb, _) => nb,
                    })
                    .collect();
                let declared = config
                    .drone
                    .iter()
                    .find(|d| d.id == *id)
                    .unwrap()
                    .connected_node_ids
                    .clone();
                assert_eq!(wired, declared, "drone {}", id);
            }
            NodeRuntime::Client { id, command_recv, .. } => {
                let wired: Vec<NodeId> = command_recv
                    .try_iter()
                    .map(|cmd| match cmd {
                        ClientCommand::AddDrone(nb, _) => nb,
                    })
                    .collect();
                let declared = config
                    .client
                    .iter()
                    .find(|cl| cl.id == *id)
                    .unwrap()
                    .connected_drone_ids
                    .clone();
                assert_eq!(wired, declared, "client {}", id);
            }
            NodeRuntime::Server { id, command_recv, .. } => {
                let wired: Vec<NodeId> = command_recv
                    .try_iter()
                    .map(|cmd| match cmd {
                        ServerCommand::AddDrone(nb, _) => nb,
                    })
                    .collect();
                let declared = config
                    .server
                    .iter()
                    .find(|s| s.id == *id)
                    .unwrap()
                    .connected_drone_ids
                    .clone();
                assert_eq!(wired, declared, "server {}", id);
            }
        }
    }
}

#[test]
fn test_network_init_wired_senders_reach_receivers() {
    // The send end carried by an add-neighbor command actually reaches the
    // neighbor's packet receive end.
    let config = example_config();
    let boot = network_init(&config);
    let mut sender_to_7 = None;
    let mut receiver_of_7 = None;
    for runtime in &boot.runtimes {
        if let NodeRuntime::Drone { id, command_recv, .. } = runtime {
            if *id == 4 {
                for cmd in command_recv.try_iter() {
                    let DroneCommand::AddSender(nb, sx) = cmd;
                    if nb == 7 {
                        sender_to_7 = Some(sx);
                    }
                }
            }
        }
    }
    for runtime in boot.runtimes {
        if let NodeRuntime::Drone { id, packet_recv, .. } = runtime {
            if id == 7 {
                receiver_of_7 = Some(packet_recv);
            }
        }
    }
    let sx = sender_to_7.expect("drone 4 should have been told how to reach drone 7");
    let rx = receiver_of_7.expect("drone 7 should have a packet receive end");
    let packet = network_initializer::init::Packet { session_id: 99, payload: vec![1, 2, 3] };
    sx.send(packet).expect("the receive end is alive");
    let got = rx.try_recv().expect("the packet should have arrived");
    assert_eq!(got.session_id, 99);
    assert_eq!(got.payload, vec![1, 2, 3]);
}

#[test]
fn test_network_init_runtimes_cover_all_nodes() {
    let config = example_config();
    let boot = network_init(&config);
    assert_eq!(boot.runtimes.len(), 5);
    let mut ids: Vec<NodeId> = boot
        .runtimes
        .iter()
        .map(|r| match r {
            NodeRuntime::Drone { id, .. } => *id,
            NodeRuntime::Client { id, .. } => *id,
            NodeRuntime::Server { id, .. } => *id,
        })
        .collect();
    ids.sort();
    assert_eq!(ids, vec![1, 4, 5, 6, 7]);
}
