//! The display topology: every known machine's monitors laid side by side.

use crate::address::SocketAddrV4;
use crate::communicate::{listed, ReceiverDevice};
use crate::input::MousePosition;
use crate::order::{lemma_place_at, stable_sort};
use crate::filtering::lemma_filter_step;
use crate::topology::{
    address_of, display_key, has_tag, horizontal_edge, lemma_span_prefix, lemma_span_step,
    lemma_total_span_prefix, lemma_total_span_step, lemma_without, machine_key,
    total_span, without, Machine, Topology,
};
use vstd::prelude::*;
use vstd::string::*;

verus! {

/// What goes wrong when displays are looked up or the topology is changed.
#[derive(Debug, Clone, Copy, PartialEq, Eq, Structural)]
pub enum DisplayError {
    DisplayFetchError,
    ClientAddError,
    OwnIpUnknown,
    InvalidMousePosition,
}

impl DisplayError {
    /// The error in words.
    pub open spec fn spec_message(self) -> Seq<char> {
        match self {
            DisplayError::DisplayFetchError => "Was unable to fetch displays"@,
            DisplayError::ClientAddError => "Was unable to add client to connected displays list"@,
            DisplayError::OwnIpUnknown => "Own Ip is unknown"@,
            DisplayError::InvalidMousePosition => "Invalid Mouse position"@,
        }
    }

    /// The error in words.
    pub fn message(&self) -> (words: String)
        ensures
            words@ == self.spec_message(),
    {
        match self {
            DisplayError::DisplayFetchError => String::from_str("Was unable to fetch displays"),
            DisplayError::ClientAddError => String::from_str(
                "Was unable to add client to connected displays list",
            ),
            DisplayError::OwnIpUnknown => String::from_str("Own Ip is unknown"),
            DisplayError::InvalidMousePosition => String::from_str("Invalid Mouse position"),
        }
    }
}

/// A side of a machine's desktop beyond which a neighbour lies.
#[derive(Debug, Clone, Copy, PartialEq, Eq, Structural)]
pub enum Edge {
    Left,
    Right,
}

/// One physical monitor of some machine.
#[derive(Debug, Clone, Copy, PartialEq, Eq, Structural)]
pub struct Display {
    pub id: u32,
    pub client_x: i32,
    pub client_y: i32,
    pub width: u32,
    pub height: u32,
}

impl Display {
    /// The point lies on the monitor, its far edges included.
    pub open spec fn spec_contains(self, p: MousePosition) -> bool {
        &&& self.client_x <= p.x <= self.client_x + self.width
        &&& self.client_y <= p.y <= self.client_y + self.height
    }

    /// The point lies on the monitor, its far edges included.
    pub fn contains(&self, mouse_position: &MousePosition) -> (inside: bool)
        ensures
            inside == self.spec_contains(*mouse_position),
    {
        let x: i64 = mouse_position.x as i64;
        let y: i64 = mouse_position.y as i64;
        let left: i64 = self.client_x as i64;
        let top: i64 = self.client_y as i64;
        x >= left && x <= left + self.width as i64 && y >= top && y <= top + self.height as i64
    }
}

/// Whose monitors a layout describes.
#[derive(Debug, Clone, Copy, PartialEq, Eq, Structural)]
pub enum Client {
    IsSelf,
    IsNetworked(SocketAddrV4),
}

/// A position on one machine's own desktop.
#[derive(Debug, Clone, Copy, PartialEq, Eq, Structural)]
pub struct ClientMousePosition {
    pub client: Client,
    pub mouse_position: MousePosition,
}

/// One machine's monitors, in the order in which they are laid out.
#[derive(Debug, Clone, PartialEq, Eq)]
pub struct ClientDisplays {
    pub client: Client,
    pub displays: Vec<Display>,
}

impl View for ClientDisplays {
    type V = Machine;

    open spec fn view(&self) -> Machine {
        Machine { client: self.client, displays: self.displays@ }
    }
}

/// The monitors in the order of their ids; monitors with one id keep their
/// order.
fn sort_displays(displays: Vec<Display>) -> (sorted: Vec<Display>)
    ensures
        sorted@ == stable_sort(displays@, display_key()),
{
    let ghost orig = displays@;
    let mut rest = displays;
    let mut sorted: Vec<Display> = Vec::new();
    proof {
        assert(orig.take(orig.len() as int) =~= orig);
        assert(orig.skip(orig.len() as int) =~= Seq::<Display>::empty());
    }
    while rest.len() > 0
        invariant
            rest@ == orig.take(rest.len() as int),
            rest.len() <= orig.len(),
            sorted@ == stable_sort(orig.skip(rest.len() as int), display_key()),
        decreases rest.len(),
    {
        let ghost before = sorted@;
        let ghost m = rest.len() as int;
        let item = rest.pop().unwrap();
        let mut j: usize = 0;
        while j < sorted.len() && sorted[j].id < item.id
            invariant
                j <= sorted.len(),
                sorted@ == before,
                forall|i: int|
                    0 <= i < j ==> display_key()(#[trigger] before[i]) < display_key()(item),
            decreases sorted.len() - j,
        {
            j = j + 1;
        }
        sorted.insert(j, item);
        proof {
            lemma_place_at(item, before, display_key(), j as int);
            assert(orig.skip(m - 1).drop_first() =~= orig.skip(m));
            assert(orig.skip(m - 1)[0] == item);
            assert(rest@ =~= orig.take(m - 1));
        }
    }
    proof {
        assert(orig.skip(0) =~= orig);
    }
    sorted
}

impl ClientDisplays {
    /// The local machine's layout from the monitors the platform reports,
    /// put in the order of their ids.
    pub fn new_local(displays: Vec<Display>) -> (local: ClientDisplays)
        ensures
            local@ == (Machine {
                client: Client::IsSelf,
                displays: stable_sort(displays@, display_key()),
            }),
    {
        ClientDisplays { client: Client::IsSelf, displays: sort_displays(displays) }
    }

    /// The layout a peer announced, in the order in which it listed its
    /// monitors.
    pub fn new_networked(addr: SocketAddrV4, displays: Vec<Display>) -> (remote: ClientDisplays)
        ensures
            remote@ == (Machine { client: Client::IsNetworked(addr), displays: displays@ }),
    {
        ClientDisplays { client: Client::IsNetworked(addr), displays }
    }

    /// The side of this machine's row of monitors that a point touches.
    pub fn on_horizontal_edge(&self, mouse_position: &MousePosition) -> (edge: Option<Edge>)
        ensures
            edge == horizontal_edge(self@.displays, mouse_position.x as int),
    {
        if self.displays.len() == 0 {
            return None;
        }
        let display_left = self.displays[0];
        if mouse_position.x <= display_left.client_x {
            return Some(Edge::Left);
        }
        let display_right = self.displays[self.displays.len() - 1];
        if mouse_position.x as i64 >= display_right.client_x as i64 + display_right.width as i64 {
            return Some(Edge::Right);
        }
        None
    }
}

/// The number by which a machine is ordered when the local address is `own`.
fn rank_of(client: &Client, own: &SocketAddrV4) -> (rank: u64)
    ensures
        rank == address_of(*client, *own).spec_rank(),
{
    match client {
        Client::IsSelf => own.rank(),
        Client::IsNetworked(addr) => addr.rank(),
    }
}

/// The machines behind a row of layouts.
pub open spec fn machines(row: Seq<ClientDisplays>) -> Seq<Machine> {
    row.map_values(|c: ClientDisplays| c@)
}

/// Offsets into the flattened space are followed exactly up to this bound,
/// the first value that no position can hold.
const OFFSET_CAP: u64 = 0x8000_0000;

/// An offset as far as it is followed.
spec fn capped(offset: int) -> int {
    if offset >= OFFSET_CAP {
        OFFSET_CAP as int
    } else {
        offset
    }
}

/// Some peer of the list has the address.
fn is_listed(peers: &Vec<ReceiverDevice>, addr: &SocketAddrV4) -> (found: bool)
    ensures
        found == listed(peers@, *addr),
{
    let mut index: usize = 0;
    while index < peers.len()
        invariant
            index <= peers.len(),
            forall|i: int| 0 <= i < index ==> (#[trigger] peers@[i]).socket_addr != *addr,
        decreases peers.len() - index,
    {
        if peers[index].socket_addr == *addr {
            return true;
        }
        index = index + 1;
    }
    false
}

/// The known machines from left to right.
#[derive(Debug)]
pub struct DisplayManager {
    clients: Vec<ClientDisplays>,
    own_ip: Option<SocketAddrV4>,
}

impl View for DisplayManager {
    type V = Topology;

    closed spec fn view(&self) -> Topology {
        Topology { clients: machines(self.clients@), own_ip: self.own_ip }
    }
}

impl DisplayManager {
    #[verifier::type_invariant]
    spec fn inv(self) -> bool {
        self@.wf()
    }

    /// A topology that knows the local machine alone, with its monitors in
    /// the order of their ids, and not yet its own address.
    pub fn new(displays: Vec<Display>) -> (manager: DisplayManager)
        ensures
            manager@ == (Topology {
                clients: seq![
                    Machine {
                        client: Client::IsSelf,
                        displays: stable_sort(displays@, display_key()),
                    },
                ],
                own_ip: None,
            }),
            manager@.wf(),
    {
        let local = ClientDisplays::new_local(displays);
        let mut clients: Vec<ClientDisplays> = Vec::new();
        clients.push(local);
        proof {
            assert(machines(clients@) =~= seq![local@]);
        }
        DisplayManager { clients, own_ip: None }
    }

    /// The known machines from left to right.
    pub fn clients(&self) -> (clients: &Vec<ClientDisplays>)
        ensures
            machines(clients@) == self@.clients,
    {
        &self.clients
    }

    /// The address under which the others see this machine, once known.
    pub fn own_ip(&self) -> (own_ip: Option<SocketAddrV4>)
        ensures
            own_ip == self@.own_ip,
    {
        self.own_ip
    }

    /// The layouts in the order of their addresses, the local machine under
    /// the address `own`; layouts with one address keep their order.
    fn sort_client_displays(clients: Vec<ClientDisplays>, own: &SocketAddrV4) -> (sorted: Vec<
        ClientDisplays,
    >)
        ensures
            machines(sorted@) == stable_sort(machines(clients@), machine_key(*own)),
    {
        let ghost orig = machines(clients@);
        let ghost key = machine_key(*own);
        let mut rest = clients;
        let mut sorted: Vec<ClientDisplays> = Vec::new();
        proof {
            assert(orig.take(orig.len() as int) =~= orig);
            assert(orig.skip(orig.len() as int) =~= Seq::<Machine>::empty());
            assert(machines(sorted@) =~= Seq::<Machine>::empty());
        }
        while rest.len() > 0
            invariant
                key == machine_key(*own),
                machines(rest@) == orig.take(rest.len() as int),
                rest.len() <= orig.len(),
                machines(sorted@) == stable_sort(orig.skip(rest.len() as int), key),
            decreases rest.len(),
        {
            let ghost before = machines(sorted@);
            let ghost m = rest.len() as int;
            let ghost rest_before = rest@;
            let entry = rest.pop().unwrap();
            let rank = rank_of(&entry.client, own);
            let mut j: usize = 0;
            while j < sorted.len() && rank_of(&sorted[j].client, own) < rank
                invariant
                    key == machine_key(*own),
                    j <= sorted.len(),
                    machines(sorted@) == before,
                    rank == key(entry@),
                    forall|i: int| 0 <= i < j ==> key(#[trigger] before[i]) < key(entry@),
                decreases sorted.len() - j,
            {
                j = j + 1;
            }
            sorted.insert(j, entry);
            proof {
                assert(machines(rest_before)[m - 1] == entry@);
                lemma_place_at(entry@, before, key, j as int);
                assert(machines(sorted@) =~= before.insert(j as int, entry@));
                assert(orig.skip(m - 1).drop_first() =~= orig.skip(m));
                assert(orig.skip(m - 1)[0] == entry@);
                assert(machines(rest@) =~= orig.take(m - 1));
            }
        }
        proof {
            assert(orig.skip(0) =~= orig);
        }
        sorted
    }

    /// Takes in a peer's announced layout: it replaces the entry of the same
    /// address or is appended, and the row is put in order again. Without
    /// the local address the row cannot be ordered: the entry is taken in
    /// all the same, and the call fails.
    pub fn received_displays(&mut self, client_displays: ClientDisplays) -> (r: Result<
        (),
        DisplayError,
    >)
        ensures
            client_displays.client is IsSelf ==> r == Err::<(), DisplayError>(
                DisplayError::ClientAddError,
            ) && final(self)@ == old(self)@,
            client_displays.client is IsNetworked ==> final(self)@ == old(self)@.upsert(
                client_displays@,
            ),
            client_displays.client is IsNetworked && old(self)@.own_ip is Some ==> r is Ok,
            client_displays.client is IsNetworked && old(self)@.own_ip is None ==> r == Err::<
                (),
                DisplayError,
            >(DisplayError::OwnIpUnknown),
            final(self)@.wf(),
    {
        proof {
            use_type_invariant(&*self);
        }
        match client_displays.client {
            Client::IsNetworked(_) => {},
            Client::IsSelf => {
                return Err(DisplayError::ClientAddError);
            },
        }
        let ghost before = self@;
        let ghost entry = client_displays@;
        let tag = client_displays.client;
        let mut clients: Vec<ClientDisplays> = Vec::new();
        std::mem::swap(&mut clients, &mut self.clients);
        let mut existing_client_index: Option<usize> = None;
        let mut index: usize = 0;
        while index < clients.len()
            invariant
                index <= clients.len(),
                machines(clients@) == before.clients,
                match existing_client_index {
                    Some(found) => found < index && clients[found as int].client == tag,
                    None => forall|i: int| 0 <= i < index ==> (#[trigger] clients[i]).client != tag,
                },
            decreases clients.len() - index,
        {
            if clients[index].client == tag {
                existing_client_index = Some(index);
            }
            index = index + 1;
        }
        proof {
            lemma_without(before.clients, tag);
        }
        match existing_client_index {
            Some(found) => {
                proof {
                    assert(before.clients[found as int].client == tag);
                }
                clients.remove(found);
                proof {
                    assert(machines(clients@) =~= before.clients.remove(found as int));
                }
            },
            None => {
                proof {
                    if has_tag(before.clients, tag) {
                        let i = choose|i: int|
                            0 <= i < before.clients.len() && (#[trigger] before.clients[i]).client
                                == tag;
                        assert(clients[i].client == tag);
                    }
                }
            },
        }
        clients.push(client_displays);
        proof {
            assert(machines(clients@) =~= without(before.clients, tag).push(entry));
            before.lemma_upsert_wf(entry);
        }
        match self.own_ip {
            Some(own) => {
                let sorted = Self::sort_client_displays(clients, &own);
                self.clients = sorted;
                Ok(())
            },
            None => {
                self.clients = clients;
                Err(DisplayError::OwnIpUnknown)
            },
        }
    }

    /// Drops the peers that are no longer alive; the local entry stays.
    pub fn filter_clients(&mut self, connected_clients: &Vec<ReceiverDevice>)
        ensures
            final(self)@ == old(self)@.prune(connected_clients@),
            final(self)@.wf(),
    {
        proof {
            use_type_invariant(&*self);
        }
        let ghost before = self@;
        let ghost orig = before.clients;
        let ghost pred = |m: Machine|
            match m.client {
                Client::IsSelf => true,
                Client::IsNetworked(addr) => listed(connected_clients@, addr),
            };
        let mut clients: Vec<ClientDisplays> = Vec::new();
        std::mem::swap(&mut clients, &mut self.clients);
        let mut index: usize = 0;
        let ghost mut done: int = 0;
        proof {
            assert(orig.skip(0) =~= orig);
            assert(orig.take(0).filter(pred) + orig.skip(0) =~= orig) by {
                if orig.len() > 0 {
                    lemma_filter_step(orig, pred, 0);
                } else {
                    reveal(Seq::filter);
                    assert(orig.take(0) =~= Seq::<Machine>::empty());
                }
            }
        }
        while index < clients.len()
            invariant
                0 <= done <= orig.len(),
                index == orig.take(done).filter(pred).len(),
                machines(clients@) == orig.take(done).filter(pred) + orig.skip(done),
                pred == |m: Machine|
                    match m.client {
                        Client::IsSelf => true,
                        Client::IsNetworked(addr) => listed(connected_clients@, addr),
                    },
            decreases orig.len() - done,
        {
            proof {
                assert(machines(clients@)[index as int] == orig[done]);
                lemma_filter_step(orig, pred, done);
            }
            let keep = match clients[index].client {
                Client::IsSelf => true,
                Client::IsNetworked(addr) => is_listed(connected_clients, &addr),
            };
            if keep {
                proof {
                    assert(orig.take(done + 1).filter(pred) + orig.skip(done + 1) =~= orig.take(
                        done,
                    ).filter(pred) + orig.skip(done));
                }
                index = index + 1;
            } else {
                let ghost rows = machines(clients@);
                clients.remove(index);
                proof {
                    assert(machines(clients@) =~= rows.remove(index as int));
                    assert(rows.remove(index as int) =~= orig.take(done + 1).filter(pred)
                        + orig.skip(done + 1));
                }
            }
            proof {
                done = done + 1;
            }
        }
        proof {
            assert(done == orig.len()) by {
                assert(machines(clients@).len() == index + orig.skip(done).len());
            }
            assert(orig.take(done) =~= orig);
            assert(machines(clients@) =~= orig.filter(pred));
            before.lemma_prune_wf(connected_clients@);
        }
        self.clients = clients;
    }

    /// Where the local machine stands in the row.
    pub fn get_own_client_displays_index(&self) -> (r: Option<usize>)
        ensures
            match r {
                Some(index) => self@.own_index() == Some(index as int) && index
                    < self@.clients.len() && self@.clients[index as int].client is IsSelf,
                None => self@.own_index() is None,
            },
    {
        let mut index: usize = 0;
        while index < self.clients.len()
            invariant
                index <= self.clients.len(),
                forall|i: int| 0 <= i < index ==> !((#[trigger] self@.clients[i]).client is IsSelf),
            decreases self.clients.len() - index,
        {
            match self.clients[index].client {
                Client::IsSelf => {
                    proof {
                        use_type_invariant(&*self);
                        let topology = self@;
                        assert(topology.clients[index as int].client is IsSelf);
                        let chosen = choose|i: int|
                            0 <= i < topology.clients.len() && (
                            #[trigger] topology.clients[i]).client is IsSelf;
                        assert(topology.clients[chosen].client
                            == topology.clients[index as int].client);
                    }
                    return Some(index);
                },
                Client::IsNetworked(_) => {},
            }
            index = index + 1;
        }
        None
    }

    /// The edge of machine `client_index` that a point of its desktop
    /// touches, where a neighbour lies beyond that edge.
    pub fn is_on_edge(&self, mouse_position: &MousePosition, client_index: usize) -> (r: Result<
        Option<Edge>,
        DisplayError,
    >)
        ensures
            client_index < self@.clients.len() ==> r == Ok::<Option<Edge>, DisplayError>(
                self@.edge_of(mouse_position.x as int, client_index as int),
            ),
            client_index >= self@.clients.len() ==> r == Err::<Option<Edge>, DisplayError>(
                DisplayError::DisplayFetchError,
            ),
    {
        if client_index >= self.clients.len() {
            return Err(DisplayError::DisplayFetchError);
        }
        let edge = self.clients[client_index].on_horizontal_edge(mouse_position);
        match edge {
            Some(Edge::Left) => if client_index > 0 {
                Ok(Some(Edge::Left))
            } else {
                Ok(None)
            },
            Some(Edge::Right) => if client_index < self.clients.len() - 1 {
                Ok(Some(Edge::Right))
            } else {
                Ok(None)
            },
            None => Ok(None),
        }
    }

    /// Records the address under which the others see this machine and puts
    /// the row in order around it.
    pub fn set_own_ip(&mut self, own_ip: SocketAddrV4)
        ensures
            final(self)@ == old(self)@.with_own_ip(own_ip),
            final(self)@.wf(),
    {
        proof {
            use_type_invariant(&*self);
            self@.lemma_with_own_ip_wf(own_ip);
        }
        let mut clients: Vec<ClientDisplays> = Vec::new();
        std::mem::swap(&mut clients, &mut self.clients);
        let sorted = Self::sort_client_displays(clients, &own_ip);
        proof {
            assert(machines(self.clients@) =~= Seq::<Machine>::empty());
        }
        self.own_ip = Some(own_ip);
        self.clients = sorted;
    }

    /// A machine with this address has an entry in the row.
    fn knows(&self, addr: &SocketAddrV4) -> (known: bool)
        ensures
            known == has_tag(self@.clients, Client::IsNetworked(*addr)),
    {
        let mut index: usize = 0;
        while index < self.clients.len()
            invariant
                index <= self.clients.len(),
                forall|i: int|
                    0 <= i < index ==> (#[trigger] self@.clients[i]).client != Client::IsNetworked(
                        *addr,
                    ),
            decreases self.clients.len() - index,
        {
            if self.clients[index].client == Client::IsNetworked(*addr) {
                proof {
                    assert(self@.clients[index as int].client == Client::IsNetworked(*addr));
                }
                return true;
            }
            index = index + 1;
        }
        false
    }

    /// The peers, in their order, of which the row holds no layout yet.
    pub fn get_missing_displays(&self, devices: &Vec<ReceiverDevice>) -> (missing: Vec<
        ReceiverDevice,
    >)
        ensures
            missing@ == self@.missing(devices@),
    {
        let ghost topology = self@;
        let ghost pred = |p: ReceiverDevice|
            !has_tag(topology.clients, Client::IsNetworked(p.socket_addr));
        let mut result: Vec<ReceiverDevice> = Vec::new();
        let mut index: usize = 0;
        proof {
            reveal(Seq::filter);
            assert(devices@.take(0) =~= Seq::<ReceiverDevice>::empty());
        }
        while index < devices.len()
            invariant
                topology == self@,
                index <= devices.len(),
                result@ == devices@.take(index as int).filter(pred),
                pred == |p: ReceiverDevice|
                    !has_tag(topology.clients, Client::IsNetworked(p.socket_addr)),
            decreases devices.len() - index,
        {
            let device = devices[index];
            proof {
                lemma_filter_step(devices@, pred, index as int);
            }
            if !self.knows(&device.socket_addr) {
                result.push(device);
            }
            index = index + 1;
        }
        proof {
            assert(devices@.take(devices.len() as int) =~= devices@);
        }
        result
    }

    /// The position in the flattened space of a point of the local desktop.
    pub fn get_global_mouse_position(&self, local_position: MousePosition) -> (r: Result<
        MousePosition,
        DisplayError,
    >)
        ensures
            match r {
                Ok(global) => self@.global_position_of(local_position) == Some(global),
                Err(e) => e == DisplayError::InvalidMousePosition && self@.global_position_of(
                    local_position,
                ) is None,
            },
    {
        let ghost topology = self@;
        let mut total: u64 = 0;
        let mut c: usize = 0;
        proof {
            lemma_total_span_prefix(topology.clients, 0, 0);
        }
        while c < self.clients.len()
            invariant
                topology == self@,
                c <= self.clients.len(),
                total == capped(total_span(topology.clients.take(c as int))),
                forall|c2: int, k2: int| c2 < c ==> !topology.local_hit(c2, k2, local_position),
            decreases self.clients.len() - c,
        {
            let client = &self.clients[c];
            let ghost row = topology.clients[c as int].displays;
            let mut k: usize = 0;
            proof {
                lemma_span_prefix(row, 0, 0);
                lemma_total_span_prefix(topology.clients, 0, c as int);
            }
            while k < client.displays.len()
                invariant
                    topology == self@,
                    c < self.clients.len(),
                    *client == self.clients[c as int],
                    row == topology.clients[c as int].displays,
                    row == client.displays@,
                    k <= client.displays.len(),
                    total == capped(topology.offset(c as int, k as int)),
                    0 <= topology.offset(c as int, k as int),
                    forall|c2: int, k2: int|
                        (c2 < c || (c2 == c && k2 < k)) ==> !topology.local_hit(
                            c2,
                            k2,
                            local_position,
                        ),
                decreases client.displays.len() - k,
            {
                let display = client.displays[k];
                let local = match client.client {
                    Client::IsSelf => true,
                    Client::IsNetworked(_) => false,
                };
                proof {
                    lemma_span_step(row, k as int);
                }
                if local && display.contains(&local_position) {
                    proof {
                        assert(topology.first_local_hit(c as int, k as int, local_position));
                        topology.lemma_global_position_at(c as int, k as int, local_position);
                    }
                    let dx: i64 = local_position.x as i64 - display.client_x as i64;
                    let dy: i64 = local_position.y as i64 - display.client_y as i64;
                    if total >= OFFSET_CAP || total as i64 + dx > i32::MAX as i64 || dy
                        > i32::MAX as i64 {
                        return Err(DisplayError::InvalidMousePosition);
                    }
                    return Ok(MousePosition { x: (total as i64 + dx) as i32, y: dy as i32 });
                }
                total = if total + display.width as u64 >= OFFSET_CAP {
                    OFFSET_CAP
                } else {
                    total + display.width as u64
                };
                k = k + 1;
            }
            proof {
                lemma_span_prefix(row, 0, row.len() as int);
                lemma_total_span_step(topology.clients, c as int);
            }
            c = c + 1;
        }
        Err(DisplayError::InvalidMousePosition)
    }

    /// Finds the machine and monitor under a position of the flattened
    /// space, and the position on that machine's own desktop.
    pub fn get_local_mouse_position(&self, mouse_position: &MousePosition) -> (r: Result<
        ClientMousePosition,
        DisplayError,
    >)
        ensures
            match r {
                Ok(found) => self@.local_position_of(*mouse_position) == Some(found),
                Err(e) => e == DisplayError::InvalidMousePosition && self@.local_position_of(
                    *mouse_position,
                ) is None,
            },
    {
        let ghost topology = self@;
        let ghost gx = mouse_position.x as int;
        if mouse_position.x < 0 {
            proof {
                assert forall|c: int, k: int| !topology.covers(c, k, gx) by {
                    if topology.is_slot(c, k) {
                        lemma_total_span_prefix(topology.clients, 0, c);
                        lemma_span_prefix(topology.clients[c].displays, 0, k);
                    }
                }
            }
            return Err(DisplayError::InvalidMousePosition);
        }
        let x: u64 = mouse_position.x as u64;
        let mut current: u64 = 0;
        let mut c: usize = 0;
        proof {
            lemma_total_span_prefix(topology.clients, 0, 0);
        }
        while c < self.clients.len()
            invariant
                topology == self@,
                gx == x,
                gx == mouse_position.x as int,
                x <= i32::MAX,
                c <= self.clients.len(),
                current == total_span(topology.clients.take(c as int)),
                current <= x,
                forall|c2: int, k2: int| c2 < c ==> !topology.covers(c2, k2, gx),
            decreases self.clients.len() - c,
        {
            let client = &self.clients[c];
            let ghost row = topology.clients[c as int].displays;
            let mut k: usize = 0;
            proof {
                lemma_span_prefix(row, 0, 0);
            }
            while k < client.displays.len()
                invariant
                    topology == self@,
                    gx == x,
                    gx == mouse_position.x as int,
                    x <= i32::MAX,
                    c < self.clients.len(),
                    *client == self.clients[c as int],
                    row == topology.clients[c as int].displays,
                    row == client.displays@,
                    k <= client.displays.len(),
                    current == topology.offset(c as int, k as int),
                    current <= x,
                    forall|c2: int, k2: int|
                        (c2 < c || (c2 == c && k2 < k)) ==> !topology.covers(c2, k2, gx),
                decreases client.displays.len() - k,
            {
                let display = client.displays[k];
                proof {
                    lemma_span_step(row, k as int);
                }
                if current + display.width as u64 > x {
                    proof {
                        topology.lemma_local_position_at(c as int, k as int, *mouse_position);
                    }
                    let local_x: i64 = display.client_x as i64 + (x - current) as i64;
                    let local_y: i64 = display.client_y as i64 + mouse_position.y as i64;
                    if mouse_position.y < 0 || mouse_position.y as i64 > display.height as i64
                        || local_x > i32::MAX as i64 || local_y > i32::MAX as i64 {
                        return Err(DisplayError::InvalidMousePosition);
                    }
                    return Ok(
                        ClientMousePosition {
                            client: client.client,
                            mouse_position: MousePosition { x: local_x as i32, y: local_y as i32 },
                        },
                    );
                }
                current = current + display.width as u64;
                k = k + 1;
            }
            proof {
                lemma_span_prefix(row, 0, row.len() as int);
                lemma_total_span_step(topology.clients, c as int);
            }
            c = c + 1;
        }
        Err(DisplayError::InvalidMousePosition)
    }
}

} // verus!
