use network_initializer::config::{Client, Config, Drone, NodeId, Server};
use network_initializer::validate::{validate_config, NodeClass, ValidateError};

/// A packet drop rate given as a fraction, scaled to millionths.
fn millionths(p: f32) -> i64 {
    (p as f64 * 1_000_000.0).round() as i64
}

/// The topology of the end-to-end example: drones 4, 6 and 7 meshed
/// together, a client on drone 4, and a server on drones 4 and 6.
fn example_config() -> Config {
    let drone = vec![
        Drone { id: 4, connected_node_ids: vec![6, 7, 1, 5], pdr_millionths: millionths(0.1) },
        Drone { id: 6, connected_node_ids: vec![4, 7, 5], pdr_millionths: millionths(0.2) },
        Drone { id: 7, connected_node_ids: vec![4, 6], pdr_millionths: millionths(0.3) },
    ];
    let client = vec![Client { id: 1, connected_drone_ids: vec![4] }];
    let server = vec![Server { id: 5, connected_drone_ids: vec![4, 6] }];
    Config { drone, client, server }
}

#[test]
fn test_validate_end_to_end_accept() {
    let config = example_config();
    assert_eq!(validate_config(&config), Ok(()));
}

#[test]
fn test_validate_end_to_end_missing_reverse_edge() {
    let mut config = example_config();
    // Drop the reverse edge from drone 7 back to drone 4.
    config.drone[2].connected_node_ids = vec![6];

    let result = validate_config(&config);

    assert_eq!(result, Err(ValidateError::NotBidirectional { from: 4, to: 7 }));
    assert_eq!(
        result.unwrap_err().message(),
        "The topology is not bidirectional: node [7] is reachable from [4], but not vice versa."
    );
}

#[test]
fn test_validate_not_bidirectional() {
    let drone = vec![
        Drone { id: 1, connected_node_ids: vec![2], pdr_millionths: 0 },
        Drone { id: 2, connected_node_ids: vec![], pdr_millionths: 0 },
    ];
    let config = Config { drone, client: vec![], server: vec![] };

    let result = validate_config(&config);

    assert_eq!(result, Err(ValidateError::NotBidirectional { from: 1, to: 2 }));
}

#[test]
fn test_validate_undeclared_neighbor() {
    let drone = vec![Drone { id: 1, connected_node_ids: vec![2], pdr_millionths: 0 }];
    let config = Config { drone, client: vec![], server: vec![] };

    let result = validate_config(&config);

    assert_eq!(result, Err(ValidateError::UndeclaredNeighbor { id: 1, neighbor: 2 }));
    assert_eq!(
        result.unwrap_err().message(),
        "Node [1] has [2] as neighbor, which does not exist in the topology."
    );
}

#[test]
fn test_validate_not_connected() {
    let drone = vec![
        Drone { id: 1, connected_node_ids: vec![2], pdr_millionths: 0 },
        Drone { id: 2, connected_node_ids: vec![1], pdr_millionths: 0 },
        Drone { id: 3, connected_node_ids: vec![4], pdr_millionths: 0 },
        Drone { id: 4, connected_node_ids: vec![3], pdr_millionths: 0 },
    ];
    let config = Config { drone, client: vec![], server: vec![] };

    let result = validate_config(&config);

    assert_eq!(result, Err(ValidateError::NotConnected));
    assert_eq!(result.unwrap_err().message(), "The network topology is not connected");
}

#[test]
fn test_validate_drone_clusters_bridged_by_client() {
    // Two drone clusters joined only through a client: globally connected,
    // but the drone subgraph alone falls apart.
    let drone = vec![
        Drone { id: 1, connected_node_ids: vec![2, 9], pdr_millionths: 0 },
        Drone { id: 2, connected_node_ids: vec![1], pdr_millionths: 0 },
        Drone { id: 3, connected_node_ids: vec![4, 9], pdr_millionths: 0 },
        Drone { id: 4, connected_node_ids: vec![3], pdr_millionths: 0 },
    ];
    let client = vec![Client { id: 9, connected_drone_ids: vec![1, 3] }];
    let config = Config { drone, client, server: vec![] };

    let result = validate_config(&config);

    assert_eq!(result, Err(ValidateError::DronesSeparated));
    assert_eq!(
        result.unwrap_err().message(),
        "Clients and servers are not all on the edge of the network"
    );
}

#[test]
fn test_validate_client_degree_accepted() {
    // A client with one neighbor and a client with two are both accepted.
    let drone = vec![
        Drone { id: 1, connected_node_ids: vec![2, 8, 9], pdr_millionths: 0 },
        Drone { id: 2, connected_node_ids: vec![1, 9], pdr_millionths: 0 },
    ];
    let client = vec![
        Client { id: 8, connected_drone_ids: vec![1] },
        Client { id: 9, connected_drone_ids: vec![1, 2] },
    ];
    let config = Config { drone, client, server: vec![] };

    assert_eq!(validate_config(&config), Ok(()));
}

#[test]
fn test_validate_server_degree_accepted() {
    // A server with exactly two neighbors is accepted.
    let drone = vec![
        Drone { id: 1, connected_node_ids: vec![2, 9], pdr_millionths: 0 },
        Drone { id: 2, connected_node_ids: vec![1, 9], pdr_millionths: 0 },
    ];
    let server = vec![Server { id: 9, connected_drone_ids: vec![1, 2] }];
    let config = Config { drone, client: vec![], server };

    assert_eq!(validate_config(&config), Ok(()));
}

#[test]
fn test_validate_empty_config_accepted() {
    let config = Config { drone: vec![], client: vec![], server: vec![] };
    assert_eq!(validate_config(&config), Ok(()));
}

#[test]
fn test_validate_idempotent() {
    // Validating the same description twice yields the same outcome, on an
    // accepted and on a rejected description.
    let good = example_config();
    assert_eq!(validate_config(&good), validate_config(&good));
    assert_eq!(validate_config(&good), Ok(()));

    let mut bad = example_config();
    bad.drone[2].connected_node_ids = vec![6];
    assert_eq!(validate_config(&bad), validate_config(&bad));
    assert!(validate_config(&bad).is_err());
}

#[test]
fn test_error_message_pdr_rendering() {
    // The drop rate in an error is rendered as a plain decimal with
    // trailing zeros trimmed.
    let e = ValidateError::InvalidPdr { id: 70, pdr_millionths: millionths(-0.1) };
    assert_eq!(e.message(), "Invalid PDR for drone [70]: -0.1");
    let e = ValidateError::InvalidPdr { id: 3, pdr_millionths: 1_027_000 };
    assert_eq!(e.message(), "Invalid PDR for drone [3]: 1.027");
    let e = ValidateError::InvalidPdr { id: 255, pdr_millionths: 2_000_000 };
    assert_eq!(e.message(), "Invalid PDR for drone [255]: 2");
    let e = ValidateError::InvalidPdr { id: 0, pdr_millionths: -1 };
    assert_eq!(e.message(), "Invalid PDR for drone [0]: -0.000001");
}

#[test]
fn test_error_message_class_words() {
    let e = ValidateError::SelfLoop { class: NodeClass::Server, id: 9 };
    assert_eq!(e.message(), "Server [9] is connected to itself");
    let e = ValidateError::DuplicateNeighbor { class: NodeClass::Client, id: 12, neighbor: 200 };
    assert_eq!(e.message(), "Client [12] has duplicate neighbor [200]");
}

#[test]
fn test_validate_pdr_boundaries() {
    // Drop rates of exactly zero and exactly one are accepted; one step
    // above one is rejected.
    let mut config = example_config();
    config.drone[0].pdr_millionths = 0;
    config.drone[1].pdr_millionths = 1_000_000;
    assert_eq!(validate_config(&config), Ok(()));

    config.drone[2].pdr_millionths = 1_000_001;
    assert_eq!(
        validate_config(&config),
        Err(ValidateError::InvalidPdr { id: 7, pdr_millionths: 1_000_001 })
    );
}
