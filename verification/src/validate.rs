//! The topology validator: per-entry structural checks, the global
//! duplicate-id check, the neighbor-kind check, and the whole-graph checks.
//! Validation fails fast: the result names the first violated rule in check
//! order, and succeeds exactly on configurations that satisfy all eight
//! graph invariants.

use crate::config::{Client, Config, Drone, NodeId, Server, PDR_UNIT};
use crate::config::{
    bidirectional, cfg_edge, client_ok, connected, declared, drone_ok, drones_connected,
    edges_only_to_drones, has_client, has_drone, ids_unique, pdr_ok, server_ok, valid_config,
};
use crate::bitset::{
    bit_capacity, bits_of, bitset_clone, bitset_contains, bitset_insert, bitset_ones,
    bitset_with_capacity,
};
use crate::graph::{
    compute_init_graph, compute_reachable, g_bidir, g_connected, g_edge, g_reaches, g_sym, g_wf,
    lemma_bidir_bridge, lemma_connected_bridge, lemma_drones_connected_bridge,
    lemma_reach_in_allowed, lemma_reach_reverse, lemma_reach_trans, lemma_subset_same_len_equal,
    lemma_usize_set_card_bound, reach_set,
};
use crate::MAX_NODES;
use vstd::prelude::*;
use vstd::string::StringExecFns;

verus! {

/// Which kind of node an error speaks of.
#[derive(Clone, Copy, Debug, PartialEq, Eq, Structural)]
pub enum NodeClass {
    Drone,
    Client,
    Server,
}

/// The first violated rule found by validation, naming the offending node
/// id(s).
#[derive(Clone, Copy, Debug, PartialEq, Eq, Structural)]
pub enum ValidateError {
    /// A drone's packet drop rate lies outside the unit interval.
    InvalidPdr { id: NodeId, pdr_millionths: i64 },
    /// A node lists itself among its neighbors.
    SelfLoop { class: NodeClass, id: NodeId },
    /// A node lists the same neighbor twice.
    DuplicateNeighbor { class: NodeClass, id: NodeId, neighbor: NodeId },
    /// A client with no neighbor at all.
    ClientWithoutDrones { id: NodeId },
    /// A client with more than two neighbors.
    ClientTooManyNeighbors { id: NodeId },
    /// A server with fewer than two neighbors.
    ServerTooFewNeighbors { id: NodeId },
    /// The same node id is declared twice.
    DuplicateNodeId { id: NodeId },
    /// A client or server neighbor that is not a drone.
    NonDroneNeighbor { class: NodeClass, id: NodeId, neighbor: NodeId },
    /// An edge points at an id that is not declared as a node.
    UndeclaredNeighbor { id: NodeId, neighbor: NodeId },
    /// An edge whose reverse edge is missing.
    NotBidirectional { from: NodeId, to: NodeId },
    /// The graph is not one connected component.
    NotConnected,
    /// Some drone is unreachable when traversal is restricted to
    /// drone-to-drone edges.
    DronesSeparated,
}

/// The first offense in a neighbor list at or after position `i`: a
/// self-loop, or an entry already seen earlier in the list.
pub open spec fn neighbor_scan_err(
    class: NodeClass,
    id: NodeId,
    ns: Seq<NodeId>,
    i: int,
) -> Option<ValidateError>
    decreases ns.len() - i,
{
    if i < 0 || i >= ns.len() {
        None
    } else if ns[i] == id {
        Some(ValidateError::SelfLoop { class, id })
    } else if exists|j: int| 0 <= j < i && ns[j] == ns[i] {
        Some(ValidateError::DuplicateNeighbor { class, id, neighbor: ns[i] })
    } else {
        neighbor_scan_err(class, id, ns, i + 1)
    }
}

/// The first offense of a drone entry in check order: drop rate, then its
/// neighbor list.
pub open spec fn drone_entry_err(d: Drone) -> Option<ValidateError> {
    if !pdr_ok(d.pdr_millionths) {
        Some(ValidateError::InvalidPdr { id: d.id, pdr_millionths: d.pdr_millionths })
    } else {
        neighbor_scan_err(NodeClass::Drone, d.id, d.connected_node_ids@, 0)
    }
}

/// The first offense of a client entry in check order: degree bounds, then
/// its neighbor list.
pub open spec fn client_entry_err(cl: Client) -> Option<ValidateError> {
    if cl.connected_drone_ids@.len() == 0 {
        Some(ValidateError::ClientWithoutDrones { id: cl.id })
    } else if cl.connected_drone_ids@.len() > 2 {
        Some(ValidateError::ClientTooManyNeighbors { id: cl.id })
    } else {
        neighbor_scan_err(NodeClass::Client, cl.id, cl.connected_drone_ids@, 0)
    }
}

/// The first offense of a server entry in check order: degree bound, then
/// its neighbor list.
pub open spec fn server_entry_err(s: Server) -> Option<ValidateError> {
    if s.connected_drone_ids@.len() < 2 {
        Some(ValidateError::ServerTooFewNeighbors { id: s.id })
    } else {
        neighbor_scan_err(NodeClass::Server, s.id, s.connected_drone_ids@, 0)
    }
}

/// Validates a single drone entry: drop rate within the unit interval, no
/// self-loop, no duplicate neighbor. Returns the first offense in check
/// order.
pub fn validate_drone(d: &Drone) -> (r: Result<(), ValidateError>)
    ensures
        r == match drone_entry_err(*d) {
            Option::None => Result::<(), ValidateError>::Ok(()),
            Option::Some(e) => Result::<(), ValidateError>::Err(e),
        },
{
    if d.pdr_millionths < 0 || d.pdr_millionths > PDR_UNIT {
        return Err(ValidateError::InvalidPdr { id: d.id, pdr_millionths: d.pdr_millionths });
    }
    match scan_neighbor_list(NodeClass::Drone, d.id, &d.connected_node_ids) {
        Option::None => Ok(()),
        Option::Some(e) => Err(e),
    }
}

/// Validates a single client entry: one or two neighbors, no self-loop, no
/// duplicate neighbor. Returns the first offense in check order.
pub fn validate_client(cl: &Client) -> (r: Result<(), ValidateError>)
    ensures
        r == match client_entry_err(*cl) {
            Option::None => Result::<(), ValidateError>::Ok(()),
            Option::Some(e) => Result::<(), ValidateError>::Err(e),
        },
{
    if cl.connected_drone_ids.len() == 0 {
        return Err(ValidateError::ClientWithoutDrones { id: cl.id });
    }
    if cl.connected_drone_ids.len() > 2 {
        return Err(ValidateError::ClientTooManyNeighbors { id: cl.id });
    }
    match scan_neighbor_list(NodeClass::Client, cl.id, &cl.connected_drone_ids) {
        Option::None => Ok(()),
        Option::Some(e) => Err(e),
    }
}

/// Validates a single server entry: at least two neighbors, no self-loop,
/// no duplicate neighbor. Returns the first offense in check order.
pub fn validate_server(s: &Server) -> (r: Result<(), ValidateError>)
    ensures
        r == match server_entry_err(*s) {
            Option::None => Result::<(), ValidateError>::Ok(()),
            Option::Some(e) => Result::<(), ValidateError>::Err(e),
        },
{
    if s.connected_drone_ids.len() < 2 {
        return Err(ValidateError::ServerTooFewNeighbors { id: s.id });
    }
    match scan_neighbor_list(NodeClass::Server, s.id, &s.connected_drone_ids) {
        Option::None => Ok(()),
        Option::Some(e) => Err(e),
    }
}

/// One pass over a neighbor list with a scratch bit-set, reporting the
/// first self-loop or duplicate in list order.
fn scan_neighbor_list(class: NodeClass, id: NodeId, ns: &Vec<NodeId>) -> (r: Option<ValidateError>)
    ensures
        r == neighbor_scan_err(class, id, ns@, 0),
{
    let mut seen = bitset_with_capacity(MAX_NODES);
    let mut k: usize = 0;
    while k < ns.len()
        invariant
            0 <= k <= ns@.len(),
            bit_capacity(seen) == MAX_NODES,
            forall|b: NodeId|
                #[trigger] bits_of(seen).contains(b as usize) <==> exists|j: int|
                    0 <= j < k && ns@[j] == b,
            forall|x: usize| bits_of(seen).contains(x) ==> x < 256,
            neighbor_scan_err(class, id, ns@, 0) == neighbor_scan_err(class, id, ns@, k as int),
        decreases ns@.len() - k,
    {
        let nb = ns[k];
        if nb == id {
            assert(neighbor_scan_err(class, id, ns@, k as int) == Some(
                ValidateError::SelfLoop { class, id },
            ));
            return Some(ValidateError::SelfLoop { class, id });
        }
        if bitset_contains(&seen, nb as usize) {
            assert(exists|j: int| 0 <= j < k && ns@[j] == nb);
            assert(neighbor_scan_err(class, id, ns@, k as int) == Some(
                ValidateError::DuplicateNeighbor { class, id, neighbor: nb },
            ));
            return Some(ValidateError::DuplicateNeighbor { class, id, neighbor: nb });
        }
        assert(!exists|j: int| 0 <= j < k && ns@[j] == nb);
        bitset_insert(&mut seen, nb as usize);
        assert forall|b: NodeId|
            #[trigger] bits_of(seen).contains(b as usize) <==> exists|j: int|
                0 <= j < k + 1 && ns@[j] == b by {
            if b == nb {
                assert(ns@[k as int] == b);
            }
        }
        k = k + 1;
    }
    assert(neighbor_scan_err(class, id, ns@, k as int) is None);
    None
}

} // verus!

verus! {

/// The first offense among the drone entries at or after position `i`, in
/// declaration order: the entry's own checks, then a duplicate of an
/// earlier drone id.
pub open spec fn drones_scan_err(c: Config, i: int) -> Option<ValidateError>
    decreases c.drone@.len() - i,
{
    if i < 0 || i >= c.drone@.len() {
        None
    } else if drone_entry_err(c.drone@[i]) is Some {
        drone_entry_err(c.drone@[i])
    } else if exists|j: int| 0 <= j < i && c.drone@[j].id == c.drone@[i].id {
        Some(ValidateError::DuplicateNodeId { id: c.drone@[i].id })
    } else {
        drones_scan_err(c, i + 1)
    }
}

/// An id already taken when client `i` is checked: any drone, or an
/// earlier client.
pub open spec fn client_seen(c: Config, i: int, id: NodeId) -> bool {
    has_drone(c, id) || exists|j: int| 0 <= j < i && c.client@[j].id == id
}

/// The first offense among the client entries at or after position `i`.
pub open spec fn clients_scan_err(c: Config, i: int) -> Option<ValidateError>
    decreases c.client@.len() - i,
{
    if i < 0 || i >= c.client@.len() {
        None
    } else if client_entry_err(c.client@[i]) is Some {
        client_entry_err(c.client@[i])
    } else if client_seen(c, i, c.client@[i].id) {
        Some(ValidateError::DuplicateNodeId { id: c.client@[i].id })
    } else {
        clients_scan_err(c, i + 1)
    }
}

/// An id already taken when server `i` is checked: any drone or client, or
/// an earlier server.
pub open spec fn server_seen(c: Config, i: int, id: NodeId) -> bool {
    has_drone(c, id) || has_client(c, id) || exists|j: int| 0 <= j < i && c.server@[j].id == id
}

/// The first offense among the server entries at or after position `i`.
pub open spec fn servers_scan_err(c: Config, i: int) -> Option<ValidateError>
    decreases c.server@.len() - i,
{
    if i < 0 || i >= c.server@.len() {
        None
    } else if server_entry_err(c.server@[i]) is Some {
        server_entry_err(c.server@[i])
    } else if server_seen(c, i, c.server@[i].id) {
        Some(ValidateError::DuplicateNodeId { id: c.server@[i].id })
    } else {
        servers_scan_err(c, i + 1)
    }
}

/// The first neighbor at or after position `k` that is not a drone.
pub open spec fn nondrone_scan(
    c: Config,
    class: NodeClass,
    id: NodeId,
    ns: Seq<NodeId>,
    k: int,
) -> Option<ValidateError>
    decreases ns.len() - k,
{
    if k < 0 || k >= ns.len() {
        None
    } else if !has_drone(c, ns[k]) {
        Some(ValidateError::NonDroneNeighbor { class, id, neighbor: ns[k] })
    } else {
        nondrone_scan(c, class, id, ns, k + 1)
    }
}

/// The first client at or after position `i` with a non-drone neighbor.
pub open spec fn clients_nondrone_err(c: Config, i: int) -> Option<ValidateError>
    decreases c.client@.len() - i,
{
    if i < 0 || i >= c.client@.len() {
        None
    } else if nondrone_scan(
        c,
        NodeClass::Client,
        c.client@[i].id,
        c.client@[i].connected_drone_ids@,
        0,
    ) is Some {
        nondrone_scan(c, NodeClass::Client, c.client@[i].id, c.client@[i].connected_drone_ids@, 0)
    } else {
        clients_nondrone_err(c, i + 1)
    }
}

/// The first server at or after position `i` with a non-drone neighbor.
pub open spec fn servers_nondrone_err(c: Config, i: int) -> Option<ValidateError>
    decreases c.server@.len() - i,
{
    if i < 0 || i >= c.server@.len() {
        None
    } else if nondrone_scan(
        c,
        NodeClass::Server,
        c.server@[i].id,
        c.server@[i].connected_drone_ids@,
        0,
    ) is Some {
        nondrone_scan(c, NodeClass::Server, c.server@[i].id, c.server@[i].connected_drone_ids@, 0)
    } else {
        servers_nondrone_err(c, i + 1)
    }
}

/// The first offense found by the structural phases of validation, in
/// check order: drones, clients, servers, then the neighbor-kind check for
/// clients and servers.
pub open spec fn structural_err(c: Config) -> Option<ValidateError> {
    if drones_scan_err(c, 0) is Some {
        drones_scan_err(c, 0)
    } else if clients_scan_err(c, 0) is Some {
        clients_scan_err(c, 0)
    } else if servers_scan_err(c, 0) is Some {
        servers_scan_err(c, 0)
    } else if clients_nondrone_err(c, 0) is Some {
        clients_nondrone_err(c, 0)
    } else {
        servers_nondrone_err(c, 0)
    }
}

} // verus!

verus! {

/// A neighbor-list scan finds nothing at or after `i` exactly when no
/// entry from `i` on is a self-loop or repeats an earlier entry.
proof fn lemma_neighbor_scan_none(class: NodeClass, id: NodeId, ns: Seq<NodeId>, i: int)
    requires
        0 <= i <= ns.len(),
    ensures
        neighbor_scan_err(class, id, ns, i) is None <==> (forall|j: int|
            i <= j < ns.len() ==> ns[j] != id && !(exists|j2: int| 0 <= j2 < j && ns[j2] == ns[j])),
    decreases ns.len() - i,
{
    if i < ns.len() {
        lemma_neighbor_scan_none(class, id, ns, i + 1);
    }
}

/// A drone entry passes its own checks exactly when it is well-formed.
proof fn lemma_drone_entry_ok(d: Drone)
    ensures
        drone_entry_err(d) is None <==> drone_ok(d),
{
    lemma_neighbor_scan_none(NodeClass::Drone, d.id, d.connected_node_ids@, 0);
}

/// A client entry passes its own checks exactly when it is well-formed.
proof fn lemma_client_entry_ok(cl: Client)
    ensures
        client_entry_err(cl) is None <==> client_ok(cl),
{
    lemma_neighbor_scan_none(NodeClass::Client, cl.id, cl.connected_drone_ids@, 0);
}

/// A server entry passes its own checks exactly when it is well-formed.
proof fn lemma_server_entry_ok(s: Server)
    ensures
        server_entry_err(s) is None <==> server_ok(s),
{
    lemma_neighbor_scan_none(NodeClass::Server, s.id, s.connected_drone_ids@, 0);
}

/// The drone phase finds nothing at or after `i` exactly when every later
/// entry is well-formed and repeats no earlier drone id.
proof fn lemma_drones_scan_none(c: Config, i: int)
    requires
        0 <= i <= c.drone@.len(),
    ensures
        drones_scan_err(c, i) is None <==> (forall|j: int|
            i <= j < c.drone@.len() ==> drone_entry_err(#[trigger] c.drone@[j]) is None && !(
            exists|j2: int| 0 <= j2 < j && c.drone@[j2].id == c.drone@[j].id)),
    decreases c.drone@.len() - i,
{
    if i < c.drone@.len() {
        lemma_drones_scan_none(c, i + 1);
    }
}

/// The client phase finds nothing at or after `i` exactly when every later
/// entry is well-formed and repeats no drone id and no earlier client id.
proof fn lemma_clients_scan_none(c: Config, i: int)
    requires
        0 <= i <= c.client@.len(),
    ensures
        clients_scan_err(c, i) is None <==> (forall|j: int|
            i <= j < c.client@.len() ==> client_entry_err(#[trigger] c.client@[j]) is None
                && !client_seen(c, j, c.client@[j].id)),
    decreases c.client@.len() - i,
{
    if i < c.client@.len() {
        lemma_clients_scan_none(c, i + 1);
    }
}

/// The server phase finds nothing at or after `i` exactly when every later
/// entry is well-formed and repeats no other node id.
proof fn lemma_servers_scan_none(c: Config, i: int)
    requires
        0 <= i <= c.server@.len(),
    ensures
        servers_scan_err(c, i) is None <==> (forall|j: int|
            i <= j < c.server@.len() ==> server_entry_err(#[trigger] c.server@[j]) is None
                && !server_seen(c, j, c.server@[j].id)),
    decreases c.server@.len() - i,
{
    if i < c.server@.len() {
        lemma_servers_scan_none(c, i + 1);
    }
}

/// A neighbor-kind scan finds nothing at or after `k` exactly when every
/// later neighbor is a drone.
proof fn lemma_nondrone_scan_none(c: Config, class: NodeClass, id: NodeId, ns: Seq<NodeId>, k: int)
    requires
        0 <= k <= ns.len(),
    ensures
        nondrone_scan(c, class, id, ns, k) is None <==> (forall|j: int|
            k <= j < ns.len() ==> has_drone(c, #[trigger] ns[j])),
    decreases ns.len() - k,
{
    if k < ns.len() {
        lemma_nondrone_scan_none(c, class, id, ns, k + 1);
    }
}

/// The client side of the neighbor-kind phase finds nothing at or after
/// `i` exactly when every later client has only drone neighbors.
proof fn lemma_clients_nondrone_none(c: Config, i: int)
    requires
        0 <= i <= c.client@.len(),
    ensures
        clients_nondrone_err(c, i) is None <==> (forall|j: int, k: int|
            i <= j < c.client@.len() && 0 <= k < c.client@[j].connected_drone_ids@.len()
                ==> has_drone(c, #[trigger] c.client@[j].connected_drone_ids@[k])),
    decreases c.client@.len() - i,
{
    if i < c.client@.len() {
        lemma_clients_nondrone_none(c, i + 1);
        lemma_nondrone_scan_none(
            c,
            NodeClass::Client,
            c.client@[i].id,
            c.client@[i].connected_drone_ids@,
            0,
        );
    }
}

/// The server side of the neighbor-kind phase finds nothing at or after
/// `i` exactly when every later server has only drone neighbors.
proof fn lemma_servers_nondrone_none(c: Config, i: int)
    requires
        0 <= i <= c.server@.len(),
    ensures
        servers_nondrone_err(c, i) is None <==> (forall|j: int, k: int|
            i <= j < c.server@.len() && 0 <= k < c.server@[j].connected_drone_ids@.len()
                ==> has_drone(c, #[trigger] c.server@[j].connected_drone_ids@[k])),
    decreases c.server@.len() - i,
{
    if i < c.server@.len() {
        lemma_servers_nondrone_none(c, i + 1);
        lemma_nondrone_scan_none(
            c,
            NodeClass::Server,
            c.server@[i].id,
            c.server@[i].connected_drone_ids@,
            0,
        );
    }
}

/// The structural phases find nothing exactly when the first five graph
/// invariants hold: unique ids, well-formed entries, and only drone
/// neighbors for clients and servers.
pub proof fn lemma_structural_none_iff(c: Config)
    ensures
        structural_err(c) is None <==> (ids_unique(c) && (forall|i: int|
            0 <= i < c.drone@.len() ==> drone_ok(#[trigger] c.drone@[i])) && (forall|i: int|
            0 <= i < c.client@.len() ==> client_ok(#[trigger] c.client@[i])) && (forall|i: int|
            0 <= i < c.server@.len() ==> server_ok(#[trigger] c.server@[i]))
            && edges_only_to_drones(c)),
{
    lemma_drones_scan_none(c, 0);
    lemma_clients_scan_none(c, 0);
    lemma_servers_scan_none(c, 0);
    lemma_clients_nondrone_none(c, 0);
    lemma_servers_nondrone_none(c, 0);
    assert forall|i: int| 0 <= i < c.drone@.len() implies (drone_entry_err(
        #[trigger] c.drone@[i],
    ) is None <==> drone_ok(c.drone@[i])) by {
        lemma_drone_entry_ok(c.drone@[i]);
    }
    assert forall|i: int| 0 <= i < c.client@.len() implies (client_entry_err(
        #[trigger] c.client@[i],
    ) is None <==> client_ok(c.client@[i])) by {
        lemma_client_entry_ok(c.client@[i]);
    }
    assert forall|i: int| 0 <= i < c.server@.len() implies (server_entry_err(
        #[trigger] c.server@[i],
    ) is None <==> server_ok(c.server@[i])) by {
        lemma_server_entry_ok(c.server@[i]);
    }
    if structural_err(c) is None {
        assert forall|i: int, j: int|
            0 <= i < c.drone@.len() && 0 <= j < c.client@.len() implies c.drone@[i].id
            != c.client@[j].id by {
            assert(!client_seen(c, j, c.client@[j].id));
        }
        assert forall|i: int, j: int|
            0 <= i < c.drone@.len() && 0 <= j < c.server@.len() implies c.drone@[i].id
            != c.server@[j].id by {
            assert(!server_seen(c, j, c.server@[j].id));
        }
        assert forall|i: int, j: int|
            0 <= i < c.client@.len() && 0 <= j < c.server@.len() implies c.client@[i].id
            != c.server@[j].id by {
            assert(!server_seen(c, j, c.server@[j].id));
        }
        assert(ids_unique(c));
    } else {
        assert(!(ids_unique(c) && (forall|i: int|
            0 <= i < c.drone@.len() ==> drone_ok(#[trigger] c.drone@[i])) && (forall|i: int|
            0 <= i < c.client@.len() ==> client_ok(#[trigger] c.client@[i])) && (forall|i: int|
            0 <= i < c.server@.len() ==> server_ok(#[trigger] c.server@[i]))
            && edges_only_to_drones(c)));
    }
}

} // verus!

verus! {

/// Checks that every neighbor declared by a client or server is a drone
/// id, reporting the first offense in declaration order.
fn validate_all_neighbors_are_drones(
    c: &Config,
    drone_ids: &fixedbitset::FixedBitSet,
) -> (r: Result<(), ValidateError>)
    requires
        forall|b: NodeId|
            #[trigger] bits_of(*drone_ids).contains(b as usize) <==> has_drone(*c, b),
    ensures
        clients_nondrone_err(*c, 0) matches Some(e) ==> r == Err::<(), ValidateError>(e),
        clients_nondrone_err(*c, 0) is None ==> (servers_nondrone_err(*c, 0) matches Some(e) ==> r
            == Err::<(), ValidateError>(e)),
        clients_nondrone_err(*c, 0) is None && servers_nondrone_err(*c, 0) is None ==> r == Ok::<
            (),
            ValidateError,
        >(()),
{
    let mut i: usize = 0;
    while i < c.client.len()
        invariant
            0 <= i <= c.client@.len(),
            forall|b: NodeId|
                #[trigger] bits_of(*drone_ids).contains(b as usize) <==> has_drone(*c, b),
            clients_nondrone_err(*c, 0) == clients_nondrone_err(*c, i as int),
        decreases c.client@.len() - i,
    {
        let ghost id = c.client@[i as int].id;
        let ghost ns = c.client@[i as int].connected_drone_ids@;
        let mut k: usize = 0;
        while k < c.client[i].connected_drone_ids.len()
            invariant
                0 <= i < c.client@.len(),
                0 <= k <= ns.len(),
                id == c.client@[i as int].id,
                ns == c.client@[i as int].connected_drone_ids@,
                forall|b: NodeId|
                    #[trigger] bits_of(*drone_ids).contains(b as usize) <==> has_drone(*c, b),
                clients_nondrone_err(*c, 0) == clients_nondrone_err(*c, i as int),
                nondrone_scan(*c, NodeClass::Client, id, ns, 0) == nondrone_scan(
                    *c,
                    NodeClass::Client,
                    id,
                    ns,
                    k as int,
                ),
            decreases ns.len() - k,
        {
            let nb = c.client[i].connected_drone_ids[k];
            if !bitset_contains(drone_ids, nb as usize) {
                assert(!has_drone(*c, nb));
                assert(nondrone_scan(*c, NodeClass::Client, id, ns, k as int) == Some(
                    ValidateError::NonDroneNeighbor { class: NodeClass::Client, id, neighbor: nb },
                ));
                return Err(
                    ValidateError::NonDroneNeighbor { class: NodeClass::Client, id: c.client[i].id, neighbor: nb },
                );
            }
            k = k + 1;
        }
        assert(nondrone_scan(*c, NodeClass::Client, id, ns, k as int) is None);
        i = i + 1;
    }
    assert(clients_nondrone_err(*c, 0) is None);
    let mut i: usize = 0;
    while i < c.server.len()
        invariant
            0 <= i <= c.server@.len(),
            clients_nondrone_err(*c, 0) is None,
            forall|b: NodeId|
                #[trigger] bits_of(*drone_ids).contains(b as usize) <==> has_drone(*c, b),
            servers_nondrone_err(*c, 0) == servers_nondrone_err(*c, i as int),
        decreases c.server@.len() - i,
    {
        let ghost id = c.server@[i as int].id;
        let ghost ns = c.server@[i as int].connected_drone_ids@;
        let mut k: usize = 0;
        while k < c.server[i].connected_drone_ids.len()
            invariant
                0 <= i < c.server@.len(),
                0 <= k <= ns.len(),
                id == c.server@[i as int].id,
                ns == c.server@[i as int].connected_drone_ids@,
                clients_nondrone_err(*c, 0) is None,
                forall|b: NodeId|
                    #[trigger] bits_of(*drone_ids).contains(b as usize) <==> has_drone(*c, b),
                servers_nondrone_err(*c, 0) == servers_nondrone_err(*c, i as int),
                nondrone_scan(*c, NodeClass::Server, id, ns, 0) == nondrone_scan(
                    *c,
                    NodeClass::Server,
                    id,
                    ns,
                    k as int,
                ),
            decreases ns.len() - k,
        {
            let nb = c.server[i].connected_drone_ids[k];
            if !bitset_contains(drone_ids, nb as usize) {
                assert(!has_drone(*c, nb));
                assert(nondrone_scan(*c, NodeClass::Server, id, ns, k as int) == Some(
                    ValidateError::NonDroneNeighbor { class: NodeClass::Server, id, neighbor: nb },
                ));
                return Err(
                    ValidateError::NonDroneNeighbor { class: NodeClass::Server, id: c.server[i].id, neighbor: nb },
                );
            }
            k = k + 1;
        }
        assert(nondrone_scan(*c, NodeClass::Server, id, ns, k as int) is None);
        i = i + 1;
    }
    assert(servers_nondrone_err(*c, 0) is None);
    Ok(())
}

/// Checks that every edge out of a declared node points at a declared
/// node and is mirrored by the reverse edge.
fn validate_bidirectional_graph(
    g: &Vec<fixedbitset::FixedBitSet>,
    node_ids: &fixedbitset::FixedBitSet,
) -> (r: Result<(), ValidateError>)
    requires
        g_wf(g@),
        forall|x: usize| #[trigger] bits_of(*node_ids).contains(x) ==> x < MAX_NODES,
    ensures
        r.is_ok() <==> g_bidir(g@, bits_of(*node_ids)),
        r matches Err(e) ==> match e {
            ValidateError::UndeclaredNeighbor { id, neighbor } => bits_of(*node_ids).contains(
                id as usize,
            ) && g_edge(g@, id as usize, neighbor as usize) && !bits_of(*node_ids).contains(
                neighbor as usize,
            ) && crate::graph::g_bidir_upto(g@, bits_of(*node_ids), id as usize, neighbor as usize),
            ValidateError::NotBidirectional { from, to } => bits_of(*node_ids).contains(
                from as usize,
            ) && g_edge(g@, from as usize, to as usize) && bits_of(*node_ids).contains(to as usize)
                && !g_edge(g@, to as usize, from as usize) && crate::graph::g_bidir_upto(
                g@,
                bits_of(*node_ids),
                from as usize,
                to as usize,
            ),
            _ => false,
        },
{
    let ghost s = bits_of(*node_ids);
    let nodes = bitset_ones(node_ids);
    let mut t: usize = 0;
    while t < nodes.len()
        invariant
            g_wf(g@),
            s == bits_of(*node_ids),
            forall|x: usize| #[trigger] s.contains(x) ==> x < MAX_NODES,
            0 <= t <= nodes@.len(),
            forall|k: int| 0 <= k < nodes@.len() ==> s.contains(#[trigger] nodes@[k]),
            forall|b: usize| #[trigger] s.contains(b) ==> nodes@.contains(b),
            forall|k1: int, k2: int| 0 <= k1 < k2 < nodes@.len() ==> nodes@[k1] < nodes@[k2],
            forall|tt: int, b: usize|
                0 <= tt < t && #[trigger] g_edge(g@, nodes@[tt], b) ==> s.contains(b) && g_edge(
                    g@,
                    b,
                    nodes@[tt],
                ),
        decreases nodes@.len() - t,
    {
        let a = nodes[t];
        assert(s.contains(a));
        let nbrs = bitset_ones(&g[a]);
        let mut u: usize = 0;
        while u < nbrs.len()
            invariant
                g_wf(g@),
                s == bits_of(*node_ids),
                forall|x: usize| #[trigger] s.contains(x) ==> x < MAX_NODES,
                0 <= u <= nbrs@.len(),
                t < nodes@.len(),
                a == nodes@[t as int],
                s.contains(a),
                a < MAX_NODES,
                forall|k: int| 0 <= k < nodes@.len() ==> s.contains(#[trigger] nodes@[k]),
                forall|b2: usize| #[trigger] s.contains(b2) ==> nodes@.contains(b2),
                forall|k1: int, k2: int| 0 <= k1 < k2 < nodes@.len() ==> nodes@[k1] < nodes@[k2],
                forall|tt: int, b2: usize|
                    0 <= tt < t && #[trigger] g_edge(g@, nodes@[tt], b2) ==> s.contains(b2)
                        && g_edge(g@, b2, nodes@[tt]),
                forall|k: int| 0 <= k < nbrs@.len() ==> g_edge(g@, a, #[trigger] nbrs@[k]),
                forall|b: usize| g_edge(g@, a, b) ==> nbrs@.contains(b),
                forall|k1: int, k2: int| 0 <= k1 < k2 < nbrs@.len() ==> nbrs@[k1] < nbrs@[k2],
                forall|uu: int|
                    0 <= uu < u ==> s.contains(#[trigger] nbrs@[uu]) && g_edge(g@, nbrs@[uu], a),
            decreases nbrs@.len() - u,
        {
            let b = nbrs[u];
            assert(g_edge(g@, a, b));
            assert(b < MAX_NODES);
            proof {
                assert forall|x: usize, y: usize|
                    (x < a || (x == a && y < b)) && s.contains(x) && #[trigger] g_edge(g@, x, y)
                    implies s.contains(y) && g_edge(g@, y, x) by {
                    if x < a {
                        assert(nodes@.contains(x));
                        let tt = choose|tt: int| 0 <= tt < nodes@.len() && nodes@[tt] == x;
                        if tt > t as int {
                            assert(nodes@[t as int] < nodes@[tt]);
                            assert(false);
                        }
                        if tt == t as int {
                            assert(false);
                        }
                        assert(g_edge(g@, nodes@[tt], y));
                    } else {
                        assert(nbrs@.contains(y));
                        let uu = choose|uu: int| 0 <= uu < nbrs@.len() && nbrs@[uu] == y;
                        if uu > u as int {
                            assert(nbrs@[u as int] < nbrs@[uu]);
                            assert(false);
                        }
                        if uu == u as int {
                            assert(false);
                        }
                        assert(s.contains(nbrs@[uu]) && g_edge(g@, nbrs@[uu], a));
                    }
                }
                assert(crate::graph::g_bidir_upto(g@, s, a, b));
            }
            if !bitset_contains(node_ids, b) {
                return Err(ValidateError::UndeclaredNeighbor { id: a as u8, neighbor: b as u8 });
            }
            if !bitset_contains(&g[b], a) {
                assert(!g_edge(g@, b, a));
                return Err(ValidateError::NotBidirectional { from: a as u8, to: b as u8 });
            }
            u = u + 1;
        }
        assert forall|b: usize| #[trigger] g_edge(g@, nodes@[t as int], b) implies s.contains(b)
            && g_edge(g@, b, nodes@[t as int]) by {
            assert(nbrs@.contains(b));
            let uu = choose|uu: int| 0 <= uu < nbrs@.len() && nbrs@[uu] == b;
            assert(s.contains(nbrs@[uu]) && g_edge(g@, nbrs@[uu], a));
        }
        t = t + 1;
    }
    assert forall|a: usize, b: usize| s.contains(a) && #[trigger] g_edge(g@, a, b) implies s
        .contains(b) && g_edge(g@, b, a) by {
        assert(nodes@.contains(a));
        let tt = choose|tt: int| 0 <= tt < nodes@.len() && nodes@[tt] == a;
        assert(g_edge(g@, nodes@[tt], b));
    }
    Ok(())
}

/// Checks that the whole graph is one connected component, by a
/// breadth-first search from an arbitrary declared node.
fn validate_connected_graph(
    g: &Vec<fixedbitset::FixedBitSet>,
    node_ids: &fixedbitset::FixedBitSet,
    n_nodes: usize,
) -> (r: Result<(), ValidateError>)
    requires
        g_wf(g@),
        bits_of(*node_ids).finite(),
        bits_of(*node_ids).len() == n_nodes,
        forall|x: usize| #[trigger] bits_of(*node_ids).contains(x) ==> x < MAX_NODES,
        g_bidir(g@, bits_of(*node_ids)),
    ensures
        r.is_ok() <==> g_connected(g@, bits_of(*node_ids)),
        r is Err ==> r == Err::<(), ValidateError>(ValidateError::NotConnected),
{
    let ghost s = bits_of(*node_ids);
    if n_nodes == 0 {
        proof {
            s.lemma_len0_is_empty();
        }
        return Ok(());
    }
    let nodes = bitset_ones(node_ids);
    if nodes.len() == 0 {
        proof {
            assert forall|x: usize| !s.contains(x) by {
                if s.contains(x) {
                    assert(nodes@.contains(x));
                }
            }
            assert(s =~= Set::<usize>::empty());
            assert(false);
        }
        return Err(ValidateError::NotConnected);
    }
    let start = nodes[0];
    assert(s.contains(start));
    let n = compute_reachable(g, node_ids, start);
    let ghost rs = reach_set(g@, s, start);
    proof {
        assert forall|v: usize| #[trigger] rs.contains(v) implies s.contains(v) by {
            lemma_reach_in_allowed(g@, s, start, v);
        }
    }
    if n == n_nodes {
        proof {
            lemma_subset_same_len_equal(rs, s);
            assert forall|a: usize, b: usize|
                s.contains(a) && s.contains(b) implies #[trigger] g_reaches(g@, s, a, b) by {
                assert(rs.contains(a) && rs.contains(b));
                assert(g_reaches(g@, s, start, a));
                assert(g_reaches(g@, s, start, b));
                lemma_reach_reverse(g@, s, start, a);
                lemma_reach_trans(g@, s, a, start, b);
            }
        }
        Ok(())
    } else {
        proof {
            if g_connected(g@, s) {
                assert forall|v: usize| s.contains(v) implies #[trigger] rs.contains(v) by {
                    assert(g_reaches(g@, s, start, v));
                }
                assert(rs =~= s);
            }
        }
        Err(ValidateError::NotConnected)
    }
}

/// Checks that every drone is reachable from an arbitrary drone when
/// traversal skips every node that is not a drone: clients and servers
/// must sit at the periphery of the drone mesh.
fn validate_edges_clients_servers(
    g: &Vec<fixedbitset::FixedBitSet>,
    drone_ids: &fixedbitset::FixedBitSet,
    n_nodes: usize,
    n_drones: usize,
) -> (r: Result<(), ValidateError>)
    requires
        g_wf(g@),
        bits_of(*drone_ids).finite(),
        bits_of(*drone_ids).len() == n_drones,
        forall|x: usize| #[trigger] bits_of(*drone_ids).contains(x) ==> x < MAX_NODES,
        g_sym(g@, bits_of(*drone_ids)),
    ensures
        r.is_ok() <==> (n_nodes == 0 || n_drones == 0 || g_connected(g@, bits_of(*drone_ids))),
        r is Err ==> r == Err::<(), ValidateError>(ValidateError::DronesSeparated),
{
    let ghost s = bits_of(*drone_ids);
    if n_nodes == 0 || n_drones == 0 {
        return Ok(());
    }
    let drones = bitset_ones(drone_ids);
    if drones.len() == 0 {
        proof {
            assert forall|x: usize| !s.contains(x) by {
                if s.contains(x) {
                    assert(drones@.contains(x));
                }
            }
            assert(s =~= Set::<usize>::empty());
            assert(false);
        }
        return Err(ValidateError::DronesSeparated);
    }
    let start = drones[0];
    assert(s.contains(start));
    let n = compute_reachable(g, drone_ids, start);
    let ghost rs = reach_set(g@, s, start);
    proof {
        assert forall|v: usize| #[trigger] rs.contains(v) implies s.contains(v) by {
            lemma_reach_in_allowed(g@, s, start, v);
        }
    }
    if n == n_drones {
        proof {
            lemma_subset_same_len_equal(rs, s);
            assert forall|a: usize, b: usize|
                s.contains(a) && s.contains(b) implies #[trigger] g_reaches(g@, s, a, b) by {
                assert(rs.contains(a) && rs.contains(b));
                assert(g_reaches(g@, s, start, a));
                assert(g_reaches(g@, s, start, b));
                lemma_reach_reverse(g@, s, start, a);
                lemma_reach_trans(g@, s, a, start, b);
            }
        }
        Ok(())
    } else {
        proof {
            if g_connected(g@, s) {
                assert forall|v: usize| s.contains(v) implies #[trigger] rs.contains(v) by {
                    assert(g_reaches(g@, s, start, v));
                }
                assert(rs =~= s);
            }
        }
        Err(ValidateError::DronesSeparated)
    }
}

} // verus!

verus! {

/// Every declared edge whose pair precedes `(pa, pb)` in ascending scan
/// order points at a declared node and is mirrored: the reported pair is
/// the first offense the bidirectionality check meets.
pub open spec fn bidir_upto(c: Config, pa: NodeId, pb: NodeId) -> bool {
    forall|a: NodeId, b: NodeId|
        (a < pa || (a == pa && b < pb)) && #[trigger] cfg_edge(c, a, b) ==> declared(c, b)
            && cfg_edge(c, b, a)
}

/// What each whole-graph error asserts of the description: the cited
/// violation is real, it is the first in scan order, and the phases
/// before it passed.
pub open spec fn graph_err_sound(c: Config, e: ValidateError) -> bool {
    match e {
        ValidateError::UndeclaredNeighbor { id, neighbor } => cfg_edge(c, id, neighbor)
            && !declared(c, neighbor) && bidir_upto(c, id, neighbor),
        ValidateError::NotBidirectional { from, to } => cfg_edge(c, from, to) && declared(c, to)
            && !cfg_edge(c, to, from) && bidir_upto(c, from, to),
        ValidateError::NotConnected => bidirectional(c) && !connected(c),
        ValidateError::DronesSeparated => bidirectional(c) && connected(c) && !drones_connected(c),
        _ => false,
    }
}

/// Validates the whole description. Succeeds exactly on descriptions that
/// satisfy all eight graph invariants; fails fast, and the first offense
/// of the structural phases is reported exactly, in check order: drones,
/// clients, servers (each entry's own checks, then the duplicate-id
/// check), the neighbor-kind check, bidirectionality, connectivity, and
/// the drone-subgraph check.
pub fn validate_config(c: &Config) -> (r: Result<(), ValidateError>)
    ensures
        r.is_ok() <==> valid_config(*c),
        structural_err(*c) matches Some(e) ==> r == Err::<(), ValidateError>(e),
        structural_err(*c) is None ==> (r matches Err(e) ==> graph_err_sound(*c, e)),
{
    let mut node_ids = bitset_with_capacity(MAX_NODES);
    let mut n_nodes: usize = 0;
    let mut i: usize = 0;
    while i < c.drone.len()
        invariant
            0 <= i <= c.drone@.len(),
            bit_capacity(node_ids) == MAX_NODES,
            forall|b: NodeId|
                #[trigger] bits_of(node_ids).contains(b as usize) <==> exists|j: int|
                    0 <= j < i && c.drone@[j].id == b,
            forall|x: usize| #[trigger] bits_of(node_ids).contains(x) ==> x < MAX_NODES,
            bits_of(node_ids).finite(),
            bits_of(node_ids).len() == n_nodes,
            n_nodes == i,
            drones_scan_err(*c, 0) == drones_scan_err(*c, i as int),
        decreases c.drone@.len() - i,
    {
        match validate_drone(&c.drone[i]) {
            Result::Err(e) => {
                proof {
                    assert(drones_scan_err(*c, i as int) == Some(e));
                    lemma_structural_none_iff(*c);
                }
                return Err(e);
            },
            Result::Ok(()) => {},
        }
        let id = c.drone[i].id;
        if bitset_contains(&node_ids, id as usize) {
            proof {
                assert(drones_scan_err(*c, i as int) == Some(
                    ValidateError::DuplicateNodeId { id },
                ));
                lemma_structural_none_iff(*c);
            }
            return Err(ValidateError::DuplicateNodeId { id });
        }
        let ghost pre = bits_of(node_ids);
        bitset_insert(&mut node_ids, id as usize);
        assert forall|b: NodeId|
            #[trigger] bits_of(node_ids).contains(b as usize) <==> exists|j: int|
                0 <= j < i + 1 && c.drone@[j].id == b by {
            if b == id {
                assert(c.drone@[i as int].id == b);
            } else {
                assert(bits_of(node_ids).contains(b as usize) == pre.contains(b as usize));
            }
        }
        n_nodes = n_nodes + 1;
        i = i + 1;
    }
    assert(drones_scan_err(*c, 0) is None);
    let drone_ids = bitset_clone(&node_ids);
    let n_drones = n_nodes;
    assert forall|b: NodeId|
        #[trigger] bits_of(drone_ids).contains(b as usize) <==> has_drone(*c, b) by {}
    proof {
        lemma_usize_set_card_bound(bits_of(node_ids), MAX_NODES);
    }
    let mut i: usize = 0;
    while i < c.client.len()
        invariant
            0 <= i <= c.client@.len(),
            bit_capacity(node_ids) == MAX_NODES,
            drones_scan_err(*c, 0) is None,
            forall|b: NodeId|
                #[trigger] bits_of(node_ids).contains(b as usize) <==> client_seen(*c, i as int, b),
            forall|x: usize| #[trigger] bits_of(node_ids).contains(x) ==> x < MAX_NODES,
            bits_of(node_ids).finite(),
            bits_of(node_ids).len() == n_nodes,
            n_nodes <= MAX_NODES,
            clients_scan_err(*c, 0) == clients_scan_err(*c, i as int),
        decreases c.client@.len() - i,
    {
        match validate_client(&c.client[i]) {
            Result::Err(e) => {
                proof {
                    assert(clients_scan_err(*c, i as int) == Some(e));
                    lemma_structural_none_iff(*c);
                }
                return Err(e);
            },
            Result::Ok(()) => {},
        }
        let id = c.client[i].id;
        if bitset_contains(&node_ids, id as usize) {
            proof {
                assert(clients_scan_err(*c, i as int) == Some(
                    ValidateError::DuplicateNodeId { id },
                ));
                lemma_structural_none_iff(*c);
            }
            return Err(ValidateError::DuplicateNodeId { id });
        }
        let ghost pre = bits_of(node_ids);
        bitset_insert(&mut node_ids, id as usize);
        assert forall|b: NodeId|
            #[trigger] bits_of(node_ids).contains(b as usize) <==> client_seen(
                *c,
                i + 1,
                b,
            ) by {
            if b == id {
                assert(c.client@[i as int].id == b);
            } else {
                assert(bits_of(node_ids).contains(b as usize) == pre.contains(b as usize));
            }
        }
        proof {
            lemma_usize_set_card_bound(bits_of(node_ids), MAX_NODES);
        }
        n_nodes = n_nodes + 1;
        i = i + 1;
    }
    assert(clients_scan_err(*c, 0) is None);
    let mut i: usize = 0;
    while i < c.server.len()
        invariant
            0 <= i <= c.server@.len(),
            bit_capacity(node_ids) == MAX_NODES,
            drones_scan_err(*c, 0) is None,
            clients_scan_err(*c, 0) is None,
            forall|b: NodeId|
                #[trigger] bits_of(node_ids).contains(b as usize) <==> server_seen(*c, i as int, b),
            forall|x: usize| #[trigger] bits_of(node_ids).contains(x) ==> x < MAX_NODES,
            bits_of(node_ids).finite(),
            bits_of(node_ids).len() == n_nodes,
            n_nodes <= MAX_NODES,
            servers_scan_err(*c, 0) == servers_scan_err(*c, i as int),
        decreases c.server@.len() - i,
    {
        match validate_server(&c.server[i]) {
            Result::Err(e) => {
                proof {
                    assert(servers_scan_err(*c, i as int) == Some(e));
                    lemma_structural_none_iff(*c);
                }
                return Err(e);
            },
            Result::Ok(()) => {},
        }
        let id = c.server[i].id;
        if bitset_contains(&node_ids, id as usize) {
            proof {
                assert(servers_scan_err(*c, i as int) == Some(
                    ValidateError::DuplicateNodeId { id },
                ));
                lemma_structural_none_iff(*c);
            }
            return Err(ValidateError::DuplicateNodeId { id });
        }
        let ghost pre = bits_of(node_ids);
        bitset_insert(&mut node_ids, id as usize);
        assert forall|b: NodeId|
            #[trigger] bits_of(node_ids).contains(b as usize) <==> server_seen(
                *c,
                i + 1,
                b,
            ) by {
            if b == id {
                assert(c.server@[i as int].id == b);
            } else {
                assert(bits_of(node_ids).contains(b as usize) == pre.contains(b as usize));
            }
        }
        proof {
            lemma_usize_set_card_bound(bits_of(node_ids), MAX_NODES);
        }
        n_nodes = n_nodes + 1;
        i = i + 1;
    }
    assert(servers_scan_err(*c, 0) is None);
    assert forall|b: NodeId|
        #[trigger] bits_of(node_ids).contains(b as usize) <==> declared(*c, b) by {}
    match validate_all_neighbors_are_drones(c, &drone_ids) {
        Result::Err(e) => {
            proof {
                assert(structural_err(*c) == Some(e));
                lemma_structural_none_iff(*c);
            }
            return Err(e);
        },
        Result::Ok(()) => {},
    }
    assert(structural_err(*c) is None);
    proof {
        lemma_structural_none_iff(*c);
    }
    let graph = compute_init_graph(c);
    let ghost s = bits_of(node_ids);
    assert forall|x: usize| #[trigger] s.contains(x) <==> (x < MAX_NODES && declared(
        *c,
        x as u8,
    )) by {
        if x < MAX_NODES {
            let b = x as u8;
            assert(s.contains(b as usize) <==> declared(*c, b));
        }
    }
    let ghost ds = bits_of(drone_ids);
    assert forall|x: usize| #[trigger] ds.contains(x) <==> (x < MAX_NODES && has_drone(
        *c,
        x as u8,
    )) by {
        if x < MAX_NODES {
            let b = x as u8;
            assert(ds.contains(b as usize) <==> has_drone(*c, b));
        }
    }
    proof {
        lemma_bidir_bridge(*c, graph@, s);
    }
    match validate_bidirectional_graph(&graph, &node_ids) {
        Result::Err(e) => {
            proof {
                match e {
                    ValidateError::UndeclaredNeighbor { id, neighbor } => {
                        assert(g_edge(graph@, id as usize, neighbor as usize));
                        assert(cfg_edge(*c, id, neighbor));
                        assert(!s.contains(neighbor as usize));
                        assert(!declared(*c, neighbor));
                        assert forall|a2: NodeId, b2: NodeId|
                            (a2 < id || (a2 == id && b2 < neighbor)) && #[trigger] cfg_edge(
                                *c,
                                a2,
                                b2,
                            ) implies declared(*c, b2) && cfg_edge(*c, b2, a2) by {
                            crate::graph::lemma_cfg_edge_src_declared(*c, a2, b2);
                            assert(s.contains(a2 as usize));
                            assert(g_edge(graph@, a2 as usize, b2 as usize));
                            assert(s.contains(b2 as usize) && g_edge(
                                graph@,
                                b2 as usize,
                                a2 as usize,
                            ));
                            assert(cfg_edge(*c, b2, a2));
                        }
                    },
                    ValidateError::NotBidirectional { from, to } => {
                        assert(g_edge(graph@, from as usize, to as usize));
                        assert(cfg_edge(*c, from, to));
                        assert(s.contains(to as usize));
                        assert(declared(*c, to));
                        assert(!g_edge(graph@, to as usize, from as usize));
                        assert(!cfg_edge(*c, to, from));
                        assert forall|a2: NodeId, b2: NodeId|
                            (a2 < from || (a2 == from && b2 < to)) && #[trigger] cfg_edge(
                                *c,
                                a2,
                                b2,
                            ) implies declared(*c, b2) && cfg_edge(*c, b2, a2) by {
                            crate::graph::lemma_cfg_edge_src_declared(*c, a2, b2);
                            assert(s.contains(a2 as usize));
                            assert(g_edge(graph@, a2 as usize, b2 as usize));
                            assert(s.contains(b2 as usize) && g_edge(
                                graph@,
                                b2 as usize,
                                a2 as usize,
                            ));
                            assert(cfg_edge(*c, b2, a2));
                        }
                    },
                    _ => {
                        assert(false);
                    },
                }
            }
            return Err(e);
        },
        Result::Ok(()) => {},
    }
    assert(bidirectional(*c));
    match validate_connected_graph(&graph, &node_ids, n_nodes) {
        Result::Err(e) => {
            proof {
                lemma_connected_bridge(*c, graph@, s);
            }
            return Err(e);
        },
        Result::Ok(()) => {},
    }
    proof {
        lemma_connected_bridge(*c, graph@, s);
    }
    assert(connected(*c));
    assert(g_sym(graph@, ds)) by {
        assert forall|a: usize, b: usize|
            ds.contains(a) && ds.contains(b) && #[trigger] g_edge(graph@, a, b) implies g_edge(
            graph@,
            b,
            a,
        ) by {
            assert(s.contains(a));
        }
    }
    match validate_edges_clients_servers(&graph, &drone_ids, n_nodes, n_drones) {
        Result::Err(e) => {
            proof {
                lemma_drones_connected_bridge(*c, graph@, ds);
            }
            return Err(e);
        },
        Result::Ok(()) => {},
    }
    proof {
        if n_nodes == 0 {
            s.lemma_len0_is_empty();
            assert forall|a: NodeId, b: NodeId|
                has_drone(*c, a) && has_drone(*c, b) implies #[trigger] crate::config::drone_reaches(
                *c,
                a,
                b,
            ) by {
                assert(s.contains(a as usize));
            }
        } else if n_drones == 0 {
            ds.lemma_len0_is_empty();
            assert forall|a: NodeId, b: NodeId|
                has_drone(*c, a) && has_drone(*c, b) implies #[trigger] crate::config::drone_reaches(
                *c,
                a,
                b,
            ) by {
                assert(ds.contains(a as usize));
            }
        } else {
            lemma_drones_connected_bridge(*c, graph@, ds);
        }
    }
    assert(drones_connected(*c));
    assert(valid_config(*c));
    Ok(())
}

} // verus!

verus! {

/// The word an error uses for the node kind it speaks of.
pub open spec fn class_str(class: NodeClass) -> Seq<char> {
    match class {
        NodeClass::Drone => "Drone"@,
        NodeClass::Client => "Client"@,
        NodeClass::Server => "Server"@,
    }
}

/// Appends the word for a node kind.
fn append_class(s: &mut String, class: NodeClass)
    ensures
        final (s)@ == old(s)@ + class_str(class),
{
    match class {
        NodeClass::Drone => s.append("Drone"),
        NodeClass::Client => s.append("Client"),
        NodeClass::Server => s.append("Server"),
    }
}

impl ValidateError {
    /// The text of the error, naming the violated rule and the offending
    /// node id(s).
    pub open spec fn message_spec(self) -> Seq<char> {
        match self {
            ValidateError::InvalidPdr { id, pdr_millionths } => "Invalid PDR for drone ["@
                + crate::text::dec_str(id as int) + "]: "@ + crate::text::pdr_str(
                pdr_millionths as int,
            ),
            ValidateError::SelfLoop { class, id } => class_str(class) + " ["@
                + crate::text::dec_str(id as int) + "] is connected to itself"@,
            ValidateError::DuplicateNeighbor { class, id, neighbor } => class_str(class) + " ["@
                + crate::text::dec_str(id as int) + "] has duplicate neighbor ["@
                + crate::text::dec_str(neighbor as int) + "]"@,
            ValidateError::ClientWithoutDrones { id } => "Client ["@ + crate::text::dec_str(
                id as int,
            ) + "] is connected to 0 drones"@,
            ValidateError::ClientTooManyNeighbors { id } => "Client ["@ + crate::text::dec_str(
                id as int,
            ) + "] has more than 2 neighbors"@,
            ValidateError::ServerTooFewNeighbors { id } => "Server ["@ + crate::text::dec_str(
                id as int,
            ) + "] has less than 2 neighbors"@,
            ValidateError::DuplicateNodeId { id } => "Duplicate node ID found: ["@
                + crate::text::dec_str(id as int) + "]"@,
            ValidateError::NonDroneNeighbor { class, id, neighbor } => class_str(class) + " ["@
                + crate::text::dec_str(id as int) + "] is connected to ["@ + crate::text::dec_str(
                neighbor as int,
            ) + "], which is not a drone"@,
            ValidateError::UndeclaredNeighbor { id, neighbor } => "Node ["@
                + crate::text::dec_str(id as int) + "] has ["@ + crate::text::dec_str(
                neighbor as int,
            ) + "] as neighbor, which does not exist in the topology."@,
            ValidateError::NotBidirectional { from, to } => "The topology is not bidirectional: node ["@
                + crate::text::dec_str(to as int) + "] is reachable from ["@
                + crate::text::dec_str(from as int) + "], but not vice versa."@,
            ValidateError::NotConnected => "The network topology is not connected"@,
            ValidateError::DronesSeparated => "Clients and servers are not all on the edge of the network"@,
        }
    }

    /// The text of the error, naming the violated rule and the offending
    /// node id(s).
    pub fn message(&self) -> (s: String)
        ensures
            s@ == self.message_spec(),
    {
        let mut s = String::new();
        match *self {
            ValidateError::InvalidPdr { id, pdr_millionths } => {
                s.append("Invalid PDR for drone [");
                crate::text::append_decimal(&mut s, id as u64);
                s.append("]: ");
                crate::text::append_pdr(&mut s, pdr_millionths);
            },
            ValidateError::SelfLoop { class, id } => {
                append_class(&mut s, class);
                s.append(" [");
                crate::text::append_decimal(&mut s, id as u64);
                s.append("] is connected to itself");
            },
            ValidateError::DuplicateNeighbor { class, id, neighbor } => {
                append_class(&mut s, class);
                s.append(" [");
                crate::text::append_decimal(&mut s, id as u64);
                s.append("] has duplicate neighbor [");
                crate::text::append_decimal(&mut s, neighbor as u64);
                s.append("]");
            },
            ValidateError::ClientWithoutDrones { id } => {
                s.append("Client [");
                crate::text::append_decimal(&mut s, id as u64);
                s.append("] is connected to 0 drones");
            },
            ValidateError::ClientTooManyNeighbors { id } => {
                s.append("Client [");
                crate::text::append_decimal(&mut s, id as u64);
                s.append("] has more than 2 neighbors");
            },
            ValidateError::ServerTooFewNeighbors { id } => {
                s.append("Server [");
                crate::text::append_decimal(&mut s, id as u64);
                s.append("] has less than 2 neighbors");
            },
            ValidateError::DuplicateNodeId { id } => {
                s.append("Duplicate node ID found: [");
                crate::text::append_decimal(&mut s, id as u64);
                s.append("]");
            },
            ValidateError::NonDroneNeighbor { class, id, neighbor } => {
                append_class(&mut s, class);
                s.append(" [");
                crate::text::append_decimal(&mut s, id as u64);
                s.append("] is connected to [");
                crate::text::append_decimal(&mut s, neighbor as u64);
                s.append("], which is not a drone");
            },
            ValidateError::UndeclaredNeighbor { id, neighbor } => {
                s.append("Node [");
                crate::text::append_decimal(&mut s, id as u64);
                s.append("] has [");
                crate::text::append_decimal(&mut s, neighbor as u64);
                s.append("] as neighbor, which does not exist in the topology.");
            },
            ValidateError::NotBidirectional { from, to } => {
                s.append("The topology is not bidirectional: node [");
                crate::text::append_decimal(&mut s, to as u64);
                s.append("] is reachable from [");
                crate::text::append_decimal(&mut s, from as u64);
                s.append("], but not vice versa.");
            },
            ValidateError::NotConnected => {
                s.append("The network topology is not connected");
            },
            ValidateError::DronesSeparated => {
                s.append("Clients and servers are not all on the edge of the network");
            },
        }
        assert(s@ =~= self.message_spec());
        s
    }
}

/// Validating the same description twice yields the same outcome: whether
/// validation succeeds is a function of the description alone, so two
/// results that both satisfy the contract of `validate_config` on one
/// description agree.
pub proof fn lemma_validation_deterministic(
    c: Config,
    r1: Result<(), ValidateError>,
    r2: Result<(), ValidateError>,
)
    requires
        r1.is_ok() <==> valid_config(c),
        r2.is_ok() <==> valid_config(c),
        structural_err(c) matches Some(e) ==> r1 == Err::<(), ValidateError>(e),
        structural_err(c) matches Some(e) ==> r2 == Err::<(), ValidateError>(e),
    ensures
        r1.is_ok() == r2.is_ok(),
        structural_err(c) is Some ==> r1 == r2,
{
}

} // verus!
