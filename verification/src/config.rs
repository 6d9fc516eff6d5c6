//! The topology description: three lists of node entries, the sole input to
//! validation and initialization, together with the spec-level predicates
//! (edges, paths, the graph invariants) that the contracts are stated over.

use vstd::prelude::*;

verus! {

/// A node identity, unique across the whole network and used as a direct
/// table index.
pub type NodeId = u8;

/// Scale of a drone's packet drop rate: the rate is stored in millionths,
/// so a rate of one corresponds to this many units.
pub const PDR_UNIT: i64 = 1_000_000;

/// A relay node entry: its id, its declared neighbors, and its packet drop
/// rate in millionths (a rate of 0.027 is stored as 27_000).
#[derive(Debug)]
pub struct Drone {
    pub id: NodeId,
    pub connected_node_ids: Vec<NodeId>,
    pub pdr_millionths: i64,
}

/// An edge node that originates traffic; it may connect only to drones.
#[derive(Debug)]
pub struct Client {
    pub id: NodeId,
    pub connected_drone_ids: Vec<NodeId>,
}

/// An edge node that terminates traffic; it may connect only to drones.
#[derive(Debug)]
pub struct Server {
    pub id: NodeId,
    pub connected_drone_ids: Vec<NodeId>,
}

/// The whole topology description: drones, clients and servers, in
/// declaration order.
#[derive(Debug)]
pub struct Config {
    pub drone: Vec<Drone>,
    pub client: Vec<Client>,
    pub server: Vec<Server>,
}

/// Some drone entry carries this id.
pub open spec fn has_drone(c: Config, id: NodeId) -> bool {
    exists|i: int| 0 <= i < c.drone@.len() && c.drone@[i].id == id
}

/// Some client entry carries this id.
pub open spec fn has_client(c: Config, id: NodeId) -> bool {
    exists|i: int| 0 <= i < c.client@.len() && c.client@[i].id == id
}

/// Some server entry carries this id.
pub open spec fn has_server(c: Config, id: NodeId) -> bool {
    exists|i: int| 0 <= i < c.server@.len() && c.server@[i].id == id
}

/// The id is declared as a node of the network.
pub open spec fn declared(c: Config, id: NodeId) -> bool {
    has_drone(c, id) || has_client(c, id) || has_server(c, id)
}

/// Some entry with id `a` lists `b` among its neighbors.
pub open spec fn cfg_edge(c: Config, a: NodeId, b: NodeId) -> bool {
    ||| exists|i: int|
        0 <= i < c.drone@.len() && c.drone@[i].id == a && c.drone@[i].connected_node_ids@.contains(
            b,
        )
    ||| exists|i: int|
        0 <= i < c.client@.len() && c.client@[i].id == a
            && c.client@[i].connected_drone_ids@.contains(b)
    ||| exists|i: int|
        0 <= i < c.server@.len() && c.server@[i].id == a
            && c.server@[i].connected_drone_ids@.contains(b)
}

/// A neighbor list is structurally sound for the node carrying it: no
/// self-loop and no duplicate entry.
pub open spec fn neighbor_list_ok(id: NodeId, ns: Seq<NodeId>) -> bool {
    &&& forall|i: int| 0 <= i < ns.len() ==> ns[i] != id
    &&& forall|i: int, j: int| 0 <= i < j < ns.len() ==> ns[i] != ns[j]
}

/// A packet drop rate is a probability: between zero and one.
pub open spec fn pdr_ok(m: i64) -> bool {
    0 <= m <= PDR_UNIT
}

/// The per-entry checks of a drone: drop rate in range, sound neighbor list.
pub open spec fn drone_ok(d: Drone) -> bool {
    pdr_ok(d.pdr_millionths) && neighbor_list_ok(d.id, d.connected_node_ids@)
}

/// The per-entry checks of a client: one or two neighbors, sound list.
pub open spec fn client_ok(cl: Client) -> bool {
    1 <= cl.connected_drone_ids@.len() <= 2 && neighbor_list_ok(cl.id, cl.connected_drone_ids@)
}

/// The per-entry checks of a server: at least two neighbors, sound list.
pub open spec fn server_ok(s: Server) -> bool {
    s.connected_drone_ids@.len() >= 2 && neighbor_list_ok(s.id, s.connected_drone_ids@)
}

/// No node id is declared twice, within a kind or across kinds.
pub open spec fn ids_unique(c: Config) -> bool {
    &&& forall|i: int, j: int|
        0 <= i < j < c.drone@.len() ==> c.drone@[i].id != c.drone@[j].id
    &&& forall|i: int, j: int|
        0 <= i < j < c.client@.len() ==> c.client@[i].id != c.client@[j].id
    &&& forall|i: int, j: int|
        0 <= i < j < c.server@.len() ==> c.server@[i].id != c.server@[j].id
    &&& forall|i: int, j: int|
        0 <= i < c.drone@.len() && 0 <= j < c.client@.len() ==> c.drone@[i].id != c.client@[j].id
    &&& forall|i: int, j: int|
        0 <= i < c.drone@.len() && 0 <= j < c.server@.len() ==> c.drone@[i].id != c.server@[j].id
    &&& forall|i: int, j: int|
        0 <= i < c.client@.len() && 0 <= j < c.server@.len() ==> c.client@[i].id != c.server@[j].id
}

/// Every neighbor of a client or server is a declared drone.
pub open spec fn edges_only_to_drones(c: Config) -> bool {
    &&& forall|i: int, k: int|
        0 <= i < c.client@.len() && 0 <= k < c.client@[i].connected_drone_ids@.len() ==> has_drone(
            c,
            c.client@[i].connected_drone_ids@[k],
        )
    &&& forall|i: int, k: int|
        0 <= i < c.server@.len() && 0 <= k < c.server@[i].connected_drone_ids@.len() ==> has_drone(
            c,
            c.server@[i].connected_drone_ids@[k],
        )
}

/// Every declared edge points at a declared node and is mirrored by the
/// reverse edge.
pub open spec fn bidirectional(c: Config) -> bool {
    forall|a: NodeId, b: NodeId|
        #[trigger] cfg_edge(c, a, b) ==> declared(c, b) && cfg_edge(c, b, a)
}

/// The sequence is a walk through the graph: non-empty, with an edge
/// between each pair of consecutive nodes.
pub open spec fn is_path(c: Config, p: Seq<NodeId>) -> bool {
    p.len() >= 1 && forall|i: int| 0 <= i < p.len() - 1 ==> #[trigger] cfg_edge(c, p[i], p[i + 1])
}

/// Node `b` can be reached from node `a` by a walk through the graph.
pub open spec fn reaches(c: Config, a: NodeId, b: NodeId) -> bool {
    exists|p: Seq<NodeId>| is_path(c, p) && p.first() == a && p.last() == b
}

/// The whole graph is one connected component.
pub open spec fn connected(c: Config) -> bool {
    forall|a: NodeId, b: NodeId|
        declared(c, a) && declared(c, b) ==> #[trigger] reaches(c, a, b)
}

/// A walk that stands on drones only: the traversal that checks the drone
/// subgraph never steps into a client or server.
pub open spec fn is_drone_path(c: Config, p: Seq<NodeId>) -> bool {
    &&& p.len() >= 1
    &&& forall|i: int| 0 <= i < p.len() ==> has_drone(c, #[trigger] p[i])
    &&& forall|i: int| 0 <= i < p.len() - 1 ==> #[trigger] cfg_edge(c, p[i], p[i + 1])
}

/// Drone `b` can be reached from drone `a` without leaving the drone
/// subgraph.
pub open spec fn drone_reaches(c: Config, a: NodeId, b: NodeId) -> bool {
    exists|p: Seq<NodeId>| is_drone_path(c, p) && p.first() == a && p.last() == b
}

/// Restricting traversal to drone-to-drone edges still reaches every drone:
/// clients and servers sit at the periphery of the drone mesh.
pub open spec fn drones_connected(c: Config) -> bool {
    forall|a: NodeId, b: NodeId|
        has_drone(c, a) && has_drone(c, b) ==> #[trigger] drone_reaches(c, a, b)
}

/// All eight graph invariants that must hold before any node is spawned.
pub open spec fn valid_config(c: Config) -> bool {
    &&& ids_unique(c)
    &&& forall|i: int| 0 <= i < c.drone@.len() ==> drone_ok(#[trigger] c.drone@[i])
    &&& forall|i: int| 0 <= i < c.client@.len() ==> client_ok(#[trigger] c.client@[i])
    &&& forall|i: int| 0 <= i < c.server@.len() ==> server_ok(#[trigger] c.server@[i])
    &&& edges_only_to_drones(c)
    &&& bidirectional(c)
    &&& connected(c)
    &&& drones_connected(c)
}

} // verus!
