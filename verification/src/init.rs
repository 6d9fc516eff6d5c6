//! The network initializer: for a validated topology description it
//! allocates each node's command and packet channels, assigns every node an
//! implementation variant round-robin, counts the resulting distributions,
//! plans the per-client UI channels, sends every declared edge as an
//! add-neighbor command, and assembles everything the controller and the
//! UI layer consume. Starting each node's runtime loop is the caller's
//! step: the per-node receive ends are handed back ready to run.

use crate::bitset::bits_of;
use crate::config::{cfg_edge, declared, valid_config, Config, NodeId};
use crate::graph::compute_init_graph;
use crate::MAX_NODES;
use crossbeam_channel::{Receiver, Sender};
use vstd::prelude::*;

verus! {

/// How many interchangeable drone implementations there are.
pub const MAX_IMPL: usize = 10;

/// How many client types there are.
pub const MAX_CLIENT_TYPES: usize = 2;

/// How many server types there are.
pub const MAX_SERVER_TYPES: usize = 2;

/// One of the interchangeable drone implementations, by its code.
#[derive(Clone, Copy, Debug, PartialEq, Eq, Structural)]
pub struct DroneImpl {
    pub code: u8,
}

/// The drone implementation of a code.
pub open spec fn drone_impl_of(code: int) -> DroneImpl {
    DroneImpl { code: code as u8 }
}

impl DroneImpl {
    /// The implementation assigned to a code, for codes below the number
    /// of implementations.
    pub fn from_code(code: usize) -> (r: Option<DroneImpl>)
        ensures
            r is Some <==> code < MAX_IMPL,
            code < MAX_IMPL ==> r == Some(drone_impl_of(code as int)),
    {
        if code < MAX_IMPL {
            Some(DroneImpl { code: code as u8 })
        } else {
            None
        }
    }
}

/// What kind of traffic a client originates.
#[derive(Clone, Copy, Debug, PartialEq, Eq, Structural)]
pub enum ClientType {
    Browser,
    Chat,
}

/// The client type of a code.
pub open spec fn client_type_of(code: int) -> ClientType {
    if code == 0 {
        ClientType::Browser
    } else {
        ClientType::Chat
    }
}

impl ClientType {
    /// The client type assigned to a code, for codes below the number of
    /// types.
    pub fn from_code(code: usize) -> (r: Option<ClientType>)
        ensures
            r is Some <==> code < MAX_CLIENT_TYPES,
            code < MAX_CLIENT_TYPES ==> r == Some(client_type_of(code as int)),
    {
        if code == 0 {
            Some(ClientType::Browser)
        } else if code == 1 {
            Some(ClientType::Chat)
        } else {
            None
        }
    }
}

/// What kind of requests a server answers.
#[derive(Clone, Copy, Debug, PartialEq, Eq, Structural)]
pub enum ServerType {
    Content,
    Communication,
}

/// The server type of a code.
pub open spec fn server_type_of(code: int) -> ServerType {
    if code == 0 {
        ServerType::Content
    } else {
        ServerType::Communication
    }
}

impl ServerType {
    /// The server type assigned to a code, for codes below the number of
    /// types.
    pub fn from_code(code: usize) -> (r: Option<ServerType>)
        ensures
            r is Some <==> code < MAX_SERVER_TYPES,
            code < MAX_SERVER_TYPES ==> r == Some(server_type_of(code as int)),
    {
        if code == 0 {
            Some(ServerType::Content)
        } else if code == 1 {
            Some(ServerType::Communication)
        } else {
            None
        }
    }
}

/// The unit of traffic the nodes forward. Its contents belong to the
/// node behaviors, which are outside this core; the initializer only
/// allocates the channels that carry it.
#[derive(Debug)]
pub struct Packet {
    pub session_id: u64,
    pub payload: Vec<u8>,
}

/// A command the initializer or the controller sends to a running drone.
pub enum DroneCommand {
    /// Hand the drone the send end that reaches the given neighbor.
    AddSender(NodeId, Sender<Packet>),
}

/// A command the initializer or the controller sends to a running client.
pub enum ClientCommand {
    /// Hand the client the send end that reaches the given drone.
    AddDrone(NodeId, Sender<Packet>),
}

/// A command the initializer or the controller sends to a running server.
pub enum ServerCommand {
    /// Hand the server the send end that reaches the given drone.
    AddDrone(NodeId, Sender<Packet>),
}

/// An event a drone reports to the controller.
pub enum DroneEvent {
    PacketSent(Packet),
    PacketDropped(Packet),
}

/// An event a client reports to the controller.
pub enum ClientEvent {
    PacketSent(Packet),
}

/// An event a server reports to the controller.
pub enum ServerEvent {
    PacketSent(Packet),
}

/// A message from the UI layer to a client node.
#[derive(Debug)]
pub struct GuiClientMessage {
    pub content: String,
}

/// A message from a client node to the UI layer.
#[derive(Debug)]
pub struct ClientGuiMessage {
    pub content: String,
}

/// The command send end of one node, tagged with the node's kind so the
/// controller can issue kind-specific commands.
pub enum CommandSender {
    Drone(Sender<DroneCommand>),
    Client(Sender<ClientCommand>),
    Server(Sender<ServerCommand>),
}

/// What a topology slot holds: nothing, or a node of one kind with its
/// assigned variant (and, for drones, its packet drop rate in millionths).
#[derive(Clone, Copy, Debug, PartialEq, Eq, Structural)]
pub enum NodeKind {
    Vacant,
    Drone(i64, DroneImpl),
    Client(ClientType),
    Server(ServerType),
}

/// The initial network topology handed to the controller: one slot per
/// possible node id with the node's kind and neighbor set, the per-node
/// command send ends, and the per-node packet send ends.
pub struct InitData {
    pub topology: Vec<(NodeKind, fixedbitset::FixedBitSet)>,
    pub senders: Vec<Option<CommandSender>>,
    pub packet_send_map: Vec<Option<Sender<Packet>>>,
}

impl InitData {
    /// Packages the three tables.
    pub fn new(
        topology: Vec<(NodeKind, fixedbitset::FixedBitSet)>,
        senders: Vec<Option<CommandSender>>,
        packet_send_map: Vec<Option<Sender<Packet>>>,
    ) -> (r: InitData)
        ensures
            r.topology == topology,
            r.senders == senders,
            r.packet_send_map == packet_send_map,
    {
        InitData { topology, senders, packet_send_map }
    }
}

/// The drone event channel: the receive end the controller keeps, and the
/// retained send end it can clone further.
pub struct DroneChannels {
    pub receiver: Receiver<DroneEvent>,
    pub sender: Sender<DroneEvent>,
}

impl DroneChannels {
    /// Packages the two ends.
    pub fn new(receiver: Receiver<DroneEvent>, sender: Sender<DroneEvent>) -> (r: DroneChannels)
        ensures
            r.receiver == receiver,
            r.sender == sender,
    {
        DroneChannels { receiver, sender }
    }
}

/// The client event channel: the receive end the controller keeps, and
/// the retained send end it can clone further.
pub struct ClientChannels {
    pub receiver: Receiver<ClientEvent>,
    pub sender: Sender<ClientEvent>,
}

impl ClientChannels {
    /// Packages the two ends.
    pub fn new(receiver: Receiver<ClientEvent>, sender: Sender<ClientEvent>) -> (r: ClientChannels)
        ensures
            r.receiver == receiver,
            r.sender == sender,
    {
        ClientChannels { receiver, sender }
    }
}

/// The server event channel: the receive end the controller keeps, and
/// the retained send end it can clone further.
pub struct ServerChannels {
    pub receiver: Receiver<ServerEvent>,
    pub sender: Sender<ServerEvent>,
}

impl ServerChannels {
    /// Packages the two ends.
    pub fn new(receiver: Receiver<ServerEvent>, sender: Sender<ServerEvent>) -> (r: ServerChannels)
        ensures
            r.receiver == receiver,
            r.sender == sender,
    {
        ServerChannels { receiver, sender }
    }
}

/// How many nodes were assigned each variant, one counter per variant,
/// per node kind.
pub struct Distros {
    pub drones: Vec<usize>,
    pub clients: Vec<usize>,
    pub servers: Vec<usize>,
}

impl Distros {
    /// Packages the three counter tables.
    pub fn new(drones: Vec<usize>, clients: Vec<usize>, servers: Vec<usize>) -> (r: Distros)
        ensures
            r.drones == drones,
            r.clients == clients,
            r.servers == servers,
    {
        Distros { drones, clients, servers }
    }
}

/// Everything one spawned node's runtime loop needs: its identity and
/// variant, its receive ends, and a send end for its kind's event channel.
pub enum NodeRuntime {
    Drone {
        id: NodeId,
        pdr_millionths: i64,
        variant: DroneImpl,
        command_recv: Receiver<DroneCommand>,
        packet_recv: Receiver<Packet>,
        event_send: Sender<DroneEvent>,
    },
    Client {
        id: NodeId,
        variant: ClientType,
        command_recv: Receiver<ClientCommand>,
        packet_recv: Receiver<Packet>,
        event_send: Sender<ClientEvent>,
        gui_recv: Receiver<GuiClientMessage>,
        gui_send: Sender<ClientGuiMessage>,
    },
    Server {
        id: NodeId,
        variant: ServerType,
        command_recv: Receiver<ServerCommand>,
        packet_recv: Receiver<Packet>,
        event_send: Sender<ServerEvent>,
    },
}

/// Everything the initializer produces for the controller and the UI
/// layer: the topology and channel tables, the per-kind event channels,
/// the per-client UI channel list, and the variant distributions.
pub struct NetworkInitData {
    pub init_data: InitData,
    pub drone_channels: DroneChannels,
    pub client_channels: ClientChannels,
    pub server_channels: ServerChannels,
    pub list_gui_channels: Vec<
        (NodeId, ClientType, Sender<GuiClientMessage>, Receiver<ClientGuiMessage>),
    >,
    pub distros: Distros,
}

impl NetworkInitData {
    /// Packages the initializer's products.
    pub fn new(
        init_data: InitData,
        drone_channels: DroneChannels,
        client_channels: ClientChannels,
        server_channels: ServerChannels,
        list_gui_channels: Vec<
            (NodeId, ClientType, Sender<GuiClientMessage>, Receiver<ClientGuiMessage>),
        >,
        distros: Distros,
    ) -> (r: NetworkInitData)
        ensures
            r.init_data == init_data,
            r.drone_channels == drone_channels,
            r.client_channels == client_channels,
            r.server_channels == server_channels,
            r.list_gui_channels == list_gui_channels,
            r.distros == distros,
    {
        NetworkInitData {
            init_data,
            drone_channels,
            client_channels,
            server_channels,
            list_gui_channels,
            distros,
        }
    }
}

/// The initializer's full result: the controller's data, plus one runtime
/// bundle per node for the caller to start.
pub struct NetworkBootstrap {
    pub data: NetworkInitData,
    pub runtimes: Vec<NodeRuntime>,
}

/// How many of the first `n` round-robin assignments over `m` variants
/// fall on variant `v`.
pub open spec fn rr_count(n: int, m: int, v: int) -> int
    decreases n,
{
    if n <= 0 {
        0
    } else {
        rr_count(n - 1, m, v) + if (n - 1) % m == v {
            1int
        } else {
            0int
        }
    }
}

/// A variant receives at most one assignment per node.
proof fn lemma_rr_count_le(n: int, m: int, v: int)
    requires
        n >= 0,
    ensures
        0 <= rr_count(n, m, v) <= n,
    decreases n,
{
    if n > 0 {
        lemma_rr_count_le(n - 1, m, v);
    }
}

/// The total of a counter table.
pub open spec fn sum_seq(s: Seq<usize>) -> int
    decreases s.len(),
{
    if s.len() == 0 {
        0
    } else {
        sum_seq(s.drop_last()) + s.last()
    }
}

/// Changing one counter changes the total by the difference.
proof fn lemma_sum_update(s: Seq<usize>, k: int, x: usize)
    requires
        0 <= k < s.len(),
    ensures
        sum_seq(s.update(k, x)) == sum_seq(s) + x - s[k],
    decreases s.len(),
{
    if k == s.len() - 1 {
        assert(s.update(k, x).drop_last() =~= s.drop_last());
        assert(s.update(k, x).last() == x);
    } else {
        lemma_sum_update(s.drop_last(), k, x);
        assert(s.update(k, x).drop_last() =~= s.drop_last().update(k, x));
        assert(s.update(k, x).last() == s.last());
    }
}

} // verus!

verus! {

/// Some drone entry among the first `n` carries the id at index `x`.
pub open spec fn drone_id_in_prefix(c: Config, n: int, x: int) -> bool {
    exists|j: int| 0 <= j < n && c.drone@[j].id as int == x
}

/// Some client entry among the first `n` carries the id at index `x`.
pub open spec fn client_id_in_prefix(c: Config, n: int, x: int) -> bool {
    exists|j: int| 0 <= j < n && c.client@[j].id as int == x
}

/// Some server entry among the first `n` carries the id at index `x`.
pub open spec fn server_id_in_prefix(c: Config, n: int, x: int) -> bool {
    exists|j: int| 0 <= j < n && c.server@[j].id as int == x
}

/// Initializes the network from a validated description: allocates every
/// node's command and packet channels, records the packet send ends in an
/// id-indexed table before any wiring begins, assigns variants round-robin
/// while counting the distributions, prepares the per-client UI channels,
/// sends one add-neighbor command per declared directed edge (fire and
/// forget, each carrying a send end that the table already holds), and
/// assembles the topology and channel tables. The runtime bundles are
/// returned for the caller to start; the unbounded command channels hold
/// the wiring commands until each node consumes them.
#[verifier::loop_isolation(false)]
#[verifier::rlimit(80)]
pub fn network_init(c: &Config) -> (r: NetworkBootstrap)
    requires
        valid_config(*c),
    ensures
        r.data.init_data.topology@.len() == MAX_NODES,
        r.data.init_data.senders@.len() == MAX_NODES,
        r.data.init_data.packet_send_map@.len() == MAX_NODES,
        forall|i: int|
            0 <= i < c.drone@.len() ==> r.data.init_data.topology@[#[trigger] c.drone@[i].id as int].0
                == NodeKind::Drone(c.drone@[i].pdr_millionths, drone_impl_of(i % MAX_IMPL as int)),
        forall|i: int|
            0 <= i < c.client@.len() ==> r.data.init_data.topology@[#[trigger] c.client@[i].id as int].0
                == NodeKind::Client(client_type_of(i % MAX_CLIENT_TYPES as int)),
        forall|i: int|
            0 <= i < c.server@.len() ==> r.data.init_data.topology@[#[trigger] c.server@[i].id as int].0
                == NodeKind::Server(server_type_of(i % MAX_SERVER_TYPES as int)),
        forall|b: NodeId|
            !declared(*c, b) ==> r.data.init_data.topology@[b as int].0 is Vacant,
        forall|a: NodeId, b: NodeId|
            #[trigger] bits_of(r.data.init_data.topology@[a as int].1).contains(b as usize)
                <==> cfg_edge(*c, a, b),
        forall|i: int|
            0 <= i < c.drone@.len() ==> r.data.init_data.senders@[#[trigger] c.drone@[i].id as int]
                matches Some(CommandSender::Drone(_)),
        forall|i: int|
            0 <= i < c.client@.len() ==> r.data.init_data.senders@[#[trigger] c.client@[i].id as int]
                matches Some(CommandSender::Client(_)),
        forall|i: int|
            0 <= i < c.server@.len() ==> r.data.init_data.senders@[#[trigger] c.server@[i].id as int]
                matches Some(CommandSender::Server(_)),
        forall|b: NodeId| !declared(*c, b) ==> r.data.init_data.senders@[b as int] is None,
        forall|b: NodeId|
            #[trigger] r.data.init_data.packet_send_map@[b as int] is Some <==> declared(*c, b),
        r.data.distros.drones@.len() == MAX_IMPL,
        r.data.distros.clients@.len() == MAX_CLIENT_TYPES,
        r.data.distros.servers@.len() == MAX_SERVER_TYPES,
        forall|v: int|
            0 <= v < MAX_IMPL ==> r.data.distros.drones@[v] == rr_count(
                c.drone@.len() as int,
                MAX_IMPL as int,
                v,
            ),
        forall|v: int|
            0 <= v < MAX_CLIENT_TYPES ==> r.data.distros.clients@[v] == rr_count(
                c.client@.len() as int,
                MAX_CLIENT_TYPES as int,
                v,
            ),
        forall|v: int|
            0 <= v < MAX_SERVER_TYPES ==> r.data.distros.servers@[v] == rr_count(
                c.server@.len() as int,
                MAX_SERVER_TYPES as int,
                v,
            ),
        sum_seq(r.data.distros.drones@) == c.drone@.len(),
        sum_seq(r.data.distros.clients@) == c.client@.len(),
        sum_seq(r.data.distros.servers@) == c.server@.len(),
        r.data.list_gui_channels@.len() == c.client@.len(),
        forall|i: int|
            0 <= i < c.client@.len() ==> (#[trigger] r.data.list_gui_channels@[i]).0
                == c.client@[i].id && r.data.list_gui_channels@[i].1 == client_type_of(
                i % MAX_CLIENT_TYPES as int,
            ),
        r.runtimes@.len() == c.drone@.len() + c.client@.len() + c.server@.len(),
        forall|i: int|
            0 <= i < c.drone@.len() ==> (#[trigger] r.runtimes@[i] matches NodeRuntime::Drone {
                id,
                pdr_millionths,
                variant,
                ..
            } && id == c.drone@[i].id && pdr_millionths == c.drone@[i].pdr_millionths && variant
                == drone_impl_of(i % MAX_IMPL as int)),
        forall|i: int|
            0 <= i < c.client@.len() ==> (#[trigger] r.runtimes@[c.drone@.len() + i]
                matches NodeRuntime::Client { id, variant, .. } && id == c.client@[i].id && variant
                == client_type_of(i % MAX_CLIENT_TYPES as int)),
        forall|i: int|
            0 <= i < c.server@.len() ==> (#[trigger] r.runtimes@[c.drone@.len() + c.client@.len()
                + i] matches NodeRuntime::Server { id, variant, .. } && id == c.server@[i].id
                && variant == server_type_of(i % MAX_SERVER_TYPES as int)),
{
    let ghost cc = *c;
    let mut kinds: Vec<NodeKind> = Vec::new();
    let mut senders: Vec<Option<CommandSender>> = Vec::new();
    let mut packet_send_map: Vec<Option<Sender<Packet>>> = Vec::new();
    let mut t: usize = 0;
    while t < MAX_NODES
        invariant
            0 <= t <= MAX_NODES,
            kinds@.len() == t,
            senders@.len() == t,
            packet_send_map@.len() == t,
            forall|x: int| 0 <= x < t ==> kinds@[x] is Vacant,
            forall|x: int| 0 <= x < t ==> senders@[x] is None,
            forall|x: int| 0 <= x < t ==> packet_send_map@[x] is None,
        decreases MAX_NODES - t,
    {
        kinds.push(NodeKind::Vacant);
        senders.push(None);
        packet_send_map.push(None);
        t = t + 1;
    }
    let (drone_sender, drone_receiver) = crossbeam_channel::unbounded::<DroneEvent>();
    let (client_sender, client_receiver) = crossbeam_channel::unbounded::<ClientEvent>();
    let (server_sender, server_receiver) = crossbeam_channel::unbounded::<ServerEvent>();
    let mut drones_distro: Vec<usize> = Vec::new();
    let mut t: usize = 0;
    while t < MAX_IMPL
        invariant
            0 <= t <= MAX_IMPL,
            drones_distro@.len() == t,
            forall|x: int| 0 <= x < t ==> drones_distro@[x] == 0,
        decreases MAX_IMPL - t,
    {
        drones_distro.push(0);
        t = t + 1;
    }
    let mut clients_distro: Vec<usize> = Vec::new();
    let mut t: usize = 0;
    while t < MAX_CLIENT_TYPES
        invariant
            0 <= t <= MAX_CLIENT_TYPES,
            clients_distro@.len() == t,
            forall|x: int| 0 <= x < t ==> clients_distro@[x] == 0,
        decreases MAX_CLIENT_TYPES - t,
    {
        clients_distro.push(0);
        t = t + 1;
    }
    let mut servers_distro: Vec<usize> = Vec::new();
    let mut t: usize = 0;
    while t < MAX_SERVER_TYPES
        invariant
            0 <= t <= MAX_SERVER_TYPES,
            servers_distro@.len() == t,
            forall|x: int| 0 <= x < t ==> servers_distro@[x] == 0,
        decreases MAX_SERVER_TYPES - t,
    {
        servers_distro.push(0);
        t = t + 1;
    }
    let mut list_gui_channels: Vec<
        (NodeId, ClientType, Sender<GuiClientMessage>, Receiver<ClientGuiMessage>),
    > = Vec::new();
    let mut runtimes: Vec<NodeRuntime> = Vec::new();
    proof {
        assert(sum_seq(drones_distro@) == 0) by {
            lemma_sum_zero(drones_distro@);
        }
        assert(sum_seq(clients_distro@) == 0) by {
            lemma_sum_zero(clients_distro@);
        }
        assert(sum_seq(servers_distro@) == 0) by {
            lemma_sum_zero(servers_distro@);
        }
    }
    let mut i: usize = 0;
    while i < c.drone.len()
        invariant
            0 <= i <= cc.drone@.len(),
            kinds@.len() == MAX_NODES,
            senders@.len() == MAX_NODES,
            packet_send_map@.len() == MAX_NODES,
            forall|j: int|
                0 <= j < i ==> kinds@[#[trigger] cc.drone@[j].id as int] == NodeKind::Drone(
                    cc.drone@[j].pdr_millionths,
                    drone_impl_of(j % MAX_IMPL as int),
                ),
            forall|j: int|
                0 <= j < i ==> senders@[#[trigger] cc.drone@[j].id as int] matches Some(
                    CommandSender::Drone(_),
                ),
            forall|j: int|
                0 <= j < i ==> packet_send_map@[#[trigger] cc.drone@[j].id as int] is Some,
            forall|x: int|
                0 <= x < MAX_NODES && !drone_id_in_prefix(cc, i as int, x) ==> kinds@[x] is Vacant
                    && senders@[x] is None && packet_send_map@[x] is None,
            drones_distro@.len() == MAX_IMPL,
            forall|v: int|
                0 <= v < MAX_IMPL ==> drones_distro@[v] == rr_count(i as int, MAX_IMPL as int, v),
            sum_seq(drones_distro@) == i,
            runtimes@.len() == i,
            forall|j: int|
                0 <= j < i ==> (#[trigger] runtimes@[j] matches NodeRuntime::Drone {
                    id,
                    pdr_millionths,
                    variant,
                    ..
                } && id == cc.drone@[j].id && pdr_millionths == cc.drone@[j].pdr_millionths
                    && variant == drone_impl_of(j % MAX_IMPL as int)),
        decreases cc.drone@.len() - i,
    {
        let (sx_command, rx_command) = crossbeam_channel::unbounded::<DroneCommand>();
        let (sx_packet, rx_packet) = crossbeam_channel::unbounded::<Packet>();
        let id = c.drone[i].id;
        let idx = id as usize;
        senders[idx] = Some(CommandSender::Drone(sx_command));
        packet_send_map[idx] = Some(sx_packet);
        let variant = match DroneImpl::from_code(i % MAX_IMPL) {
            Some(v) => v,
            None => {
                proof {
                    assert(false);
                }
                DroneImpl { code: 0 }
            },
        };
        let v = i % MAX_IMPL;
        let old_count = drones_distro[v];
        proof {
            lemma_rr_count_le(i as int, MAX_IMPL as int, v as int);
        }
        let ghost dpre = drones_distro@;
        drones_distro[v] = old_count + 1;
        proof {
            lemma_sum_update(dpre, v as int, (old_count + 1) as usize);
        }
        kinds[idx] = NodeKind::Drone(c.drone[i].pdr_millionths, variant);
        let event_send = drone_sender.clone();
        runtimes.push(
            NodeRuntime::Drone {
                id,
                pdr_millionths: c.drone[i].pdr_millionths,
                variant,
                command_recv: rx_command,
                packet_recv: rx_packet,
                event_send,
            },
        );
        proof {
            assert(cc.drone@[i as int].id == id);
            assert(drone_id_in_prefix(cc, i + 1, idx as int));
            assert forall|x: int|
                0 <= x < MAX_NODES && !drone_id_in_prefix(cc, i + 1, x) implies kinds@[x] is Vacant
                && senders@[x] is None && packet_send_map@[x] is None by {
                assert(x != idx as int);
                if drone_id_in_prefix(cc, i as int, x) {
                    let j = choose|j: int| 0 <= j < i && cc.drone@[j].id as int == x;
                    assert(drone_id_in_prefix(cc, i + 1, x));
                }
            }
        }
        i = i + 1;
    }
    let ghost n_dr = cc.drone@.len() as int;
    let mut i: usize = 0;
    while i < c.client.len()
        invariant
            0 <= i <= cc.client@.len(),
            kinds@.len() == MAX_NODES,
            senders@.len() == MAX_NODES,
            packet_send_map@.len() == MAX_NODES,
            forall|j: int|
                0 <= j < n_dr ==> kinds@[#[trigger] cc.drone@[j].id as int] == NodeKind::Drone(
                    cc.drone@[j].pdr_millionths,
                    drone_impl_of(j % MAX_IMPL as int),
                ),
            forall|j: int|
                0 <= j < n_dr ==> senders@[#[trigger] cc.drone@[j].id as int] matches Some(
                    CommandSender::Drone(_),
                ),
            forall|j: int|
                0 <= j < n_dr ==> packet_send_map@[#[trigger] cc.drone@[j].id as int] is Some,
            forall|j: int|
                0 <= j < i ==> kinds@[#[trigger] cc.client@[j].id as int] == NodeKind::Client(
                    client_type_of(j % MAX_CLIENT_TYPES as int),
                ),
            forall|j: int|
                0 <= j < i ==> senders@[#[trigger] cc.client@[j].id as int] matches Some(
                    CommandSender::Client(_),
                ),
            forall|j: int|
                0 <= j < i ==> packet_send_map@[#[trigger] cc.client@[j].id as int] is Some,
            forall|x: int|
                0 <= x < MAX_NODES && !drone_id_in_prefix(cc, n_dr, x) && !client_id_in_prefix(
                    cc,
                    i as int,
                    x,
                ) ==> kinds@[x] is Vacant && senders@[x] is None && packet_send_map@[x] is None,
            clients_distro@.len() == MAX_CLIENT_TYPES,
            forall|v: int|
                0 <= v < MAX_CLIENT_TYPES ==> clients_distro@[v] == rr_count(
                    i as int,
                    MAX_CLIENT_TYPES as int,
                    v,
                ),
            sum_seq(clients_distro@) == i,
            list_gui_channels@.len() == i,
            forall|j: int|
                0 <= j < i ==> (#[trigger] list_gui_channels@[j]).0 == cc.client@[j].id
                    && list_gui_channels@[j].1 == client_type_of(j % MAX_CLIENT_TYPES as int),
            runtimes@.len() == n_dr + i,
            forall|j: int|
                0 <= j < n_dr ==> (#[trigger] runtimes@[j] matches NodeRuntime::Drone {
                    id,
                    pdr_millionths,
                    variant,
                    ..
                } && id == cc.drone@[j].id && pdr_millionths == cc.drone@[j].pdr_millionths
                    && variant == drone_impl_of(j % MAX_IMPL as int)),
            forall|j: int|
                0 <= j < i ==> (#[trigger] runtimes@[n_dr + j] matches NodeRuntime::Client {
                    id,
                    variant,
                    ..
                } && id == cc.client@[j].id && variant == client_type_of(
                    j % MAX_CLIENT_TYPES as int,
                )),
        decreases cc.client@.len() - i,
    {
        let (sx_command, rx_command) = crossbeam_channel::unbounded::<ClientCommand>();
        let (sx_packet, rx_packet) = crossbeam_channel::unbounded::<Packet>();
        let (message_sender_tx, message_sender_rx) = crossbeam_channel::unbounded::<
            GuiClientMessage,
        >();
        let (message_receiver_tx, message_receiver_rx) = crossbeam_channel::unbounded::<
            ClientGuiMessage,
        >();
        let id = c.client[i].id;
        let idx = id as usize;
        proof {
            assert(!drone_id_in_prefix(cc, n_dr, idx as int));
        }
        senders[idx] = Some(CommandSender::Client(sx_command));
        packet_send_map[idx] = Some(sx_packet);
        let variant = match ClientType::from_code(i % MAX_CLIENT_TYPES) {
            Some(v) => v,
            None => {
                proof {
                    assert(false);
                }
                ClientType::Browser
            },
        };
        let v = i % MAX_CLIENT_TYPES;
        let old_count = clients_distro[v];
        proof {
            lemma_rr_count_le(i as int, MAX_CLIENT_TYPES as int, v as int);
        }
        let ghost dpre = clients_distro@;
        clients_distro[v] = old_count + 1;
        proof {
            lemma_sum_update(dpre, v as int, (old_count + 1) as usize);
        }
        kinds[idx] = NodeKind::Client(variant);
        list_gui_channels.push((id, variant, message_sender_tx, message_receiver_rx));
        let event_send = client_sender.clone();
        runtimes.push(
            NodeRuntime::Client {
                id,
                variant,
                command_recv: rx_command,
                packet_recv: rx_packet,
                event_send,
                gui_recv: message_sender_rx,
                gui_send: message_receiver_tx,
            },
        );
        proof {
            assert(cc.client@[i as int].id == id);
            assert(client_id_in_prefix(cc, i + 1, idx as int));
            assert forall|x: int|
                0 <= x < MAX_NODES && !drone_id_in_prefix(cc, n_dr, x) && !client_id_in_prefix(
                    cc,
                    i + 1,
                    x,
                ) implies kinds@[x] is Vacant && senders@[x] is None && packet_send_map@[x]
                is None by {
                assert(x != idx as int);
                if client_id_in_prefix(cc, i as int, x) {
                    let j = choose|j: int| 0 <= j < i && cc.client@[j].id as int == x;
                    assert(client_id_in_prefix(cc, i + 1, x));
                }
            }
        }
        i = i + 1;
    }
    let ghost n_cl = cc.client@.len() as int;
    let mut i: usize = 0;
    while i < c.server.len()
        invariant
            0 <= i <= cc.server@.len(),
            kinds@.len() == MAX_NODES,
            senders@.len() == MAX_NODES,
            packet_send_map@.len() == MAX_NODES,
            forall|j: int|
                0 <= j < n_dr ==> kinds@[#[trigger] cc.drone@[j].id as int] == NodeKind::Drone(
                    cc.drone@[j].pdr_millionths,
                    drone_impl_of(j % MAX_IMPL as int),
                ),
            forall|j: int|
                0 <= j < n_dr ==> senders@[#[trigger] cc.drone@[j].id as int] matches Some(
                    CommandSender::Drone(_),
                ),
            forall|j: int|
                0 <= j < n_dr ==> packet_send_map@[#[trigger] cc.drone@[j].id as int] is Some,
            forall|j: int|
                0 <= j < n_cl ==> kinds@[#[trigger] cc.client@[j].id as int] == NodeKind::Client(
                    client_type_of(j % MAX_CLIENT_TYPES as int),
                ),
            forall|j: int|
                0 <= j < n_cl ==> senders@[#[trigger] cc.client@[j].id as int] matches Some(
                    CommandSender::Client(_),
                ),
            forall|j: int|
                0 <= j < n_cl ==> packet_send_map@[#[trigger] cc.client@[j].id as int] is Some,
            forall|j: int|
                0 <= j < i ==> kinds@[#[trigger] cc.server@[j].id as int] == NodeKind::Server(
                    server_type_of(j % MAX_SERVER_TYPES as int),
                ),
            forall|j: int|
                0 <= j < i ==> senders@[#[trigger] cc.server@[j].id as int] matches Some(
                    CommandSender::Server(_),
                ),
            forall|j: int|
                0 <= j < i ==> packet_send_map@[#[trigger] cc.server@[j].id as int] is Some,
            forall|x: int|
                0 <= x < MAX_NODES && !drone_id_in_prefix(cc, n_dr, x) && !client_id_in_prefix(
                    cc,
                    n_cl,
                    x,
                ) && !server_id_in_prefix(cc, i as int, x) ==> kinds@[x] is Vacant && senders@[x]
                    is None && packet_send_map@[x] is None,
            servers_distro@.len() == MAX_SERVER_TYPES,
            forall|v: int|
                0 <= v < MAX_SERVER_TYPES ==> servers_distro@[v] == rr_count(
                    i as int,
                    MAX_SERVER_TYPES as int,
                    v,
                ),
            sum_seq(servers_distro@) == i,
            runtimes@.len() == n_dr + n_cl + i,
            forall|j: int|
                0 <= j < n_dr ==> (#[trigger] runtimes@[j] matches NodeRuntime::Drone {
                    id,
                    pdr_millionths,
                    variant,
                    ..
                } && id == cc.drone@[j].id && pdr_millionths == cc.drone@[j].pdr_millionths
                    && variant == drone_impl_of(j % MAX_IMPL as int)),
            forall|j: int|
                0 <= j < n_cl ==> (#[trigger] runtimes@[n_dr + j] matches NodeRuntime::Client {
                    id,
                    variant,
                    ..
                } && id == cc.client@[j].id && variant == client_type_of(
                    j % MAX_CLIENT_TYPES as int,
                )),
            forall|j: int|
                0 <= j < i ==> (#[trigger] runtimes@[n_dr + n_cl + j]
                    matches NodeRuntime::Server { id, variant, .. } && id == cc.server@[j].id
                    && variant == server_type_of(j % MAX_SERVER_TYPES as int)),
        decreases cc.server@.len() - i,
    {
        let (sx_command, rx_command) = crossbeam_channel::unbounded::<ServerCommand>();
        let (sx_packet, rx_packet) = crossbeam_channel::unbounded::<Packet>();
        let id = c.server[i].id;
        let idx = id as usize;
        proof {
            assert(!drone_id_in_prefix(cc, n_dr, idx as int));
            assert(!client_id_in_prefix(cc, n_cl, idx as int));
        }
        senders[idx] = Some(CommandSender::Server(sx_command));
        packet_send_map[idx] = Some(sx_packet);
        let variant = match ServerType::from_code(i % MAX_SERVER_TYPES) {
            Some(v) => v,
            None => {
                proof {
                    assert(false);
                }
                ServerType::Content
            },
        };
        let v = i % MAX_SERVER_TYPES;
        let old_count = servers_distro[v];
        proof {
            lemma_rr_count_le(i as int, MAX_SERVER_TYPES as int, v as int);
        }
        let ghost dpre = servers_distro@;
        servers_distro[v] = old_count + 1;
        proof {
            lemma_sum_update(dpre, v as int, (old_count + 1) as usize);
        }
        kinds[idx] = NodeKind::Server(variant);
        let event_send = server_sender.clone();
        runtimes.push(
            NodeRuntime::Server {
                id,
                variant,
                command_recv: rx_command,
                packet_recv: rx_packet,
                event_send,
            },
        );
        proof {
            assert(cc.server@[i as int].id == id);
            assert(server_id_in_prefix(cc, i + 1, idx as int));
            assert forall|x: int|
                0 <= x < MAX_NODES && !drone_id_in_prefix(cc, n_dr, x) && !client_id_in_prefix(
                    cc,
                    n_cl,
                    x,
                ) && !server_id_in_prefix(cc, i + 1, x) implies kinds@[x] is Vacant && senders@[x]
                is None && packet_send_map@[x] is None by {
                assert(x != idx as int);
                if server_id_in_prefix(cc, i as int, x) {
                    let j = choose|j: int| 0 <= j < i && cc.server@[j].id as int == x;
                    assert(server_id_in_prefix(cc, i + 1, x));
                }
            }
        }
        i = i + 1;
    }
    assert forall|b: NodeId| #[trigger] packet_send_map@[b as int] is Some <==> declared(
        cc,
        b,
    ) by {
        if packet_send_map@[b as int] is Some {
            assert(drone_id_in_prefix(cc, n_dr, b as int) || client_id_in_prefix(cc, n_cl, b as int)
                || server_id_in_prefix(cc, cc.server@.len() as int, b as int));
        }
    }
    assert forall|b: NodeId| !declared(cc, b) implies kinds@[b as int] is Vacant && senders@[b as int]
        is None by {
        if !(kinds@[b as int] is Vacant) || !(senders@[b as int] is None) {
            assert(drone_id_in_prefix(cc, n_dr, b as int) || client_id_in_prefix(cc, n_cl, b as int)
                || server_id_in_prefix(cc, cc.server@.len() as int, b as int));
            if drone_id_in_prefix(cc, n_dr, b as int) {
                let j = choose|j: int| 0 <= j < n_dr && cc.drone@[j].id as int == b as int;
                assert(cc.drone@[j].id == b);
            } else if client_id_in_prefix(cc, n_cl, b as int) {
                let j = choose|j: int| 0 <= j < n_cl && cc.client@[j].id as int == b as int;
                assert(cc.client@[j].id == b);
            } else {
                let j = choose|j: int|
                    0 <= j < cc.server@.len() && cc.server@[j].id as int == b as int;
                assert(cc.server@[j].id == b);
            }
        }
    }
    wire_edges(c, &senders, &packet_send_map);
    let mut adj = compute_init_graph(c);
    let ghost adj0 = adj@;
    let mut topology: Vec<(NodeKind, fixedbitset::FixedBitSet)> = Vec::new();
    let mut t2: usize = 0;
    while t2 < MAX_NODES
        invariant
            0 <= t2 <= MAX_NODES,
            adj@ == adj0.subrange(t2 as int, MAX_NODES as int),
            topology@.len() == t2,
            forall|x: int|
                0 <= x < t2 ==> (#[trigger] topology@[x]).0 == kinds@[x] && topology@[x].1
                    == adj0[x],
        decreases MAX_NODES - t2,
    {
        let bits = adj.remove(0);
        assert(bits == adj0[t2 as int]);
        let kind = kinds[t2];
        topology.push((kind, bits));
        assert(adj@ =~= adj0.subrange(t2 + 1, MAX_NODES as int));
        t2 = t2 + 1;
    }
    let init_data = InitData::new(topology, senders, packet_send_map);
    let drone_channels = DroneChannels::new(drone_receiver, drone_sender);
    let client_channels = ClientChannels::new(client_receiver, client_sender);
    let server_channels = ServerChannels::new(server_receiver, server_sender);
    let distros = Distros::new(drones_distro, clients_distro, servers_distro);
    let data = NetworkInitData::new(
        init_data,
        drone_channels,
        client_channels,
        server_channels,
        list_gui_channels,
        distros,
    );
    NetworkBootstrap { data, runtimes }
}

/// An empty or all-zero counter table sums to zero.
proof fn lemma_sum_zero(s: Seq<usize>)
    requires
        forall|x: int| 0 <= x < s.len() ==> s[x] == 0,
    ensures
        sum_seq(s) == 0,
    decreases s.len(),
{
    if s.len() > 0 {
        lemma_sum_zero(s.drop_last());
    }
}

/// Sends one add-neighbor command per declared directed edge, each
/// carrying a fresh clone of the neighbor's packet send end from the
/// table. Sends are fire and forget: a send that fails because a node's
/// command channel is gone is ignored.
#[verifier::loop_isolation(false)]
fn wire_edges(
    c: &Config,
    senders: &Vec<Option<CommandSender>>,
    packet_send_map: &Vec<Option<Sender<Packet>>>,
)
    requires
        valid_config(*c),
        senders@.len() == MAX_NODES,
        packet_send_map@.len() == MAX_NODES,
        forall|b: NodeId| #[trigger] packet_send_map@[b as int] is Some <==> declared(*c, b),
{
    let ghost cc = *c;
    let mut i: usize = 0;
    while i < c.drone.len()
        invariant
            0 <= i <= cc.drone@.len(),
        decreases cc.drone@.len() - i,
    {
        let mut k: usize = 0;
        while k < c.drone[i].connected_node_ids.len()
            invariant
                0 <= i < cc.drone@.len(),
                0 <= k <= cc.drone@[i as int].connected_node_ids@.len(),
            decreases cc.drone@[i as int].connected_node_ids@.len() - k,
        {
            let nb = c.drone[i].connected_node_ids[k];
            proof {
                assert(cfg_edge(cc, cc.drone@[i as int].id, nb));
                assert(declared(cc, nb));
            }
            match &packet_send_map[nb as usize] {
                Some(sx_packet) => {
                    match &senders[c.drone[i].id as usize] {
                        Some(CommandSender::Drone(sx_cmd)) => {
                            let _ = sx_cmd.send(DroneCommand::AddSender(nb, sx_packet.clone()));
                        },
                        _ => {},
                    }
                },
                None => {
                    proof {
                        assert(false);
                    }
                },
            }
            k = k + 1;
        }
        i = i + 1;
    }
    let mut i: usize = 0;
    while i < c.client.len()
        invariant
            0 <= i <= cc.client@.len(),
        decreases cc.client@.len() - i,
    {
        let mut k: usize = 0;
        while k < c.client[i].connected_drone_ids.len()
            invariant
                0 <= i < cc.client@.len(),
                0 <= k <= cc.client@[i as int].connected_drone_ids@.len(),
            decreases cc.client@[i as int].connected_drone_ids@.len() - k,
        {
            let nb = c.client[i].connected_drone_ids[k];
            proof {
                assert(cfg_edge(cc, cc.client@[i as int].id, nb));
                assert(declared(cc, nb));
            }
            match &packet_send_map[nb as usize] {
                Some(sx_packet) => {
                    match &senders[c.client[i].id as usize] {
                        Some(CommandSender::Client(sx_cmd)) => {
                            let _ = sx_cmd.send(ClientCommand::AddDrone(nb, sx_packet.clone()));
                        },
                        _ => {},
                    }
                },
                None => {
                    proof {
                        assert(false);
                    }
                },
            }
            k = k + 1;
        }
        i = i + 1;
    }
    let mut i: usize = 0;
    while i < c.server.len()
        invariant
            0 <= i <= cc.server@.len(),
        decreases cc.server@.len() - i,
    {
        let mut k: usize = 0;
        while k < c.server[i].connected_drone_ids.len()
            invariant
                0 <= i < cc.server@.len(),
                0 <= k <= cc.server@[i as int].connected_drone_ids@.len(),
            decreases cc.server@[i as int].connected_drone_ids@.len() - k,
        {
            let nb = c.server[i].connected_drone_ids[k];
            proof {
                assert(cfg_edge(cc, cc.server@[i as int].id, nb));
                assert(declared(cc, nb));
            }
            match &packet_send_map[nb as usize] {
                Some(sx_packet) => {
                    match &senders[c.server[i].id as usize] {
                        Some(CommandSender::Server(sx_cmd)) => {
                            let _ = sx_cmd.send(ServerCommand::AddDrone(nb, sx_packet.clone()));
                        },
                        _ => {},
                    }
                },
                None => {
                    proof {
                        assert(false);
                    }
                },
            }
            k = k + 1;
        }
        i = i + 1;
    }
}

} // verus!
