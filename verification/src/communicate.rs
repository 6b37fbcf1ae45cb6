//! The directory of peers: who has been heard from, and how recently.

use crate::address::SocketAddrV4;
use crate::display::DisplayManager;
use crate::filtering::{lemma_filter_members, lemma_filter_step};
use vstd::prelude::*;
use vstd::string::*;
use vstd::utf8::{encode_utf8, valid_utf8};

verus! {

/// The error type of the operating system's input and output, carried as it
/// comes and never looked into.
#[verifier::external_type_specification]
#[verifier::external_body]
pub struct ExIoError(std::io::Error);

/// What goes wrong between peers.
#[derive(Debug)]
pub enum CommunicateError {
    SocketCreationError(std::io::Error),
    ClientNotFound,
}

/// An error between peers as a value: which kind it is.
pub enum CommunicateFault {
    SocketCreation,
    ClientNotFound,
}

impl View for CommunicateError {
    type V = CommunicateFault;

    open spec fn view(&self) -> CommunicateFault {
        match self {
            CommunicateError::SocketCreationError(_) => CommunicateFault::SocketCreation,
            CommunicateError::ClientNotFound => CommunicateFault::ClientNotFound,
        }
    }
}

/// The `Display` of `std::io::Error`: the operating system's own words for
/// the error. Nothing is claimed of them.
#[verifier::external_body]
fn io_error_text(error: &std::io::Error) -> (words: String) {
    error.to_string()
}

impl CommunicateError {
    /// The error in words: the operating system's words after a fixed
    /// beginning, or a fixed sentence.
    pub fn message(&self) -> (words: String)
        ensures
            match self {
                CommunicateError::SocketCreationError(_) => "IO Error: "@.is_prefix_of(words@),
                CommunicateError::ClientNotFound => words@ == "Client not found"@,
            },
    {
        match self {
            CommunicateError::SocketCreationError(error) => {
                let detail = io_error_text(error);
                let words = String::from_str("IO Error: ").concat(detail.as_str());
                proof {
                    assert(words@.subrange(0, "IO Error: "@.len() as int) =~= "IO Error: "@);
                }
                words
            },
            CommunicateError::ClientNotFound => String::from_str("Client not found"),
        }
    }
}

/// Nanoseconds after which a silent peer counts as gone: five seconds.
pub const DECAY_THRESHOLD: u64 = 5_000_000_000;

/// Nanoseconds between two announcements of this process: one second.
pub const BROADCAST_INTERVAL: u64 = 1_000_000_000;

/// Nanoseconds between two sweeps of the peer list: five seconds.
pub const SWEEP_INTERVAL: u64 = 5_000_000_000;

/// The UDP port on which the discovery group is heard.
pub const GROUP_PORT: u16 = 31725;

/// The UDP port on which peers exchange frames.
pub const SENDER_PORT: u16 = 31726;

/// The multicast address and port of the discovery group.
pub fn group_address() -> (group: SocketAddrV4)
    ensures
        group == (SocketAddrV4 {
            ip: crate::address::Ipv4Addr { a: 225, b: 0, c: 4, d: 16 },
            port: GROUP_PORT,
        }),
{
    SocketAddrV4::new(crate::address::Ipv4Addr::new(225, 0, 4, 16), GROUP_PORT)
}

/// The time between two readings of a monotonic clock, in nanoseconds;
/// zero when the later reading is not later.
pub open spec fn spec_elapsed(since: u64, now: u64) -> int {
    if now >= since {
        now - since
    } else {
        0
    }
}

/// A remote machine and the clock reading, in nanoseconds, at which it was
/// last heard from.
#[derive(Debug, Clone, Copy, PartialEq, Eq, Structural)]
pub struct ReceiverDevice {
    pub updated: u64,
    pub socket_addr: SocketAddrV4,
}

impl ReceiverDevice {
    /// No datagram has come from the peer for more than the threshold.
    pub open spec fn spec_decayed(self, now: u64) -> bool {
        spec_elapsed(self.updated, now) > DECAY_THRESHOLD
    }

    /// A peer first heard from at `now`.
    pub fn new(addr: SocketAddrV4, now: u64) -> (device: ReceiverDevice)
        ensures
            device == (ReceiverDevice { updated: now, socket_addr: addr }),
    {
        ReceiverDevice { updated: now, socket_addr: addr }
    }

    /// Records that the peer was heard from at `now`.
    pub fn updated(&mut self, now: u64)
        ensures
            *final(self) == (ReceiverDevice { updated: now, socket_addr: old(self).socket_addr }),
    {
        self.updated = now;
    }

    /// No datagram has come from the peer for more than the threshold.
    pub fn decayed(&self, now: u64) -> (gone: bool)
        ensures
            gone == self.spec_decayed(now),
    {
        if now >= self.updated {
            now - self.updated > DECAY_THRESHOLD
        } else {
            false
        }
    }
}

/// Some peer of the list has the address.
pub open spec fn listed(peers: Seq<ReceiverDevice>, addr: SocketAddrV4) -> bool {
    exists|i: int| 0 <= i < peers.len() && (#[trigger] peers[i]).socket_addr == addr
}

/// No two peers of the list have the same address.
pub open spec fn distinct_peers(peers: Seq<ReceiverDevice>) -> bool {
    forall|i: int, j: int|
        0 <= i < peers.len() && 0 <= j < peers.len() && (#[trigger] peers[i]).socket_addr == (
        #[trigger] peers[j]).socket_addr ==> i == j
}

/// The peers that have not decayed at `now`, in their order.
pub open spec fn alive(peers: Seq<ReceiverDevice>, now: u64) -> Seq<ReceiverDevice> {
    peers.filter(|p: ReceiverDevice| !p.spec_decayed(now))
}

/// The peers with the one at `addr` marked as heard from at `now`.
pub open spec fn refreshed(peers: Seq<ReceiverDevice>, addr: SocketAddrV4, now: u64) -> Seq<
    ReceiverDevice,
> {
    peers.map_values(
        |p: ReceiverDevice|
            if p.socket_addr == addr {
                ReceiverDevice { updated: now, socket_addr: addr }
            } else {
                p
            },
    )
}

/// The peers after a datagram came from `addr` at `now`: the peer at that
/// address is refreshed, or joins the list at its end.
pub open spec fn heard_from(peers: Seq<ReceiverDevice>, addr: SocketAddrV4, now: u64) -> Seq<
    ReceiverDevice,
> {
    if listed(peers, addr) {
        refreshed(peers, addr, now)
    } else {
        peers.push(ReceiverDevice { updated: now, socket_addr: addr })
    }
}

/// The peer directory as a value: the peers in the order in which they were
/// first heard from, this process's token, the address under which its own
/// announcements come back, and whether it announces itself already.
pub struct Directory {
    pub peers: Seq<ReceiverDevice>,
    pub self_id: u128,
    pub self_addr: Option<SocketAddrV4>,
    pub broadcasting: bool,
}

impl Directory {
    /// At most one peer per address.
    pub open spec fn wf(self) -> bool {
        distinct_peers(self.peers)
    }

    /// The directory after a discovery datagram that came at `now` from
    /// `src`, which is `None` for a source that is no IPv4 address, and
    /// that carried `token`, which is `None` for a payload that is no token.
    /// This process's own token teaches it its address and adds no peer.
    /// Another token drops the decayed peers and refreshes or adds the
    /// sender. A payload that is no token changes nothing.
    pub open spec fn on_announcement(
        self,
        token: Option<u128>,
        src: Option<SocketAddrV4>,
        now: u64,
    ) -> Directory {
        match token {
            None => self,
            Some(id) => if id == self.self_id {
                match src {
                    Some(addr) => Directory { self_addr: Some(addr), ..self },
                    None => self,
                }
            } else {
                Directory {
                    peers: match src {
                        Some(addr) => heard_from(alive(self.peers, now), addr, now),
                        None => alive(self.peers, now),
                    },
                    ..self
                }
            },
        }
    }

    /// A discovery datagram with this token changes the peer list.
    pub open spec fn is_foreign(self, token: Option<u128>) -> bool {
        token is Some && token->0 != self.self_id
    }

    /// The directory once the decayed peers are dropped.
    pub open spec fn swept(self, now: u64) -> Directory {
        Directory { peers: alive(self.peers, now), ..self }
    }
}

/// Dropping decayed peers keeps addresses distinct.
pub proof fn lemma_alive_distinct(peers: Seq<ReceiverDevice>, now: u64)
    requires
        distinct_peers(peers),
    ensures
        distinct_peers(alive(peers, now)),
    decreases peers.len(),
{
    reveal(Seq::filter);
    let pred = |p: ReceiverDevice| !p.spec_decayed(now);
    if peers.len() > 0 {
        let rest = peers.drop_last();
        let kept = rest.filter(pred);
        assert forall|i: int, j: int|
            0 <= i < rest.len() && 0 <= j < rest.len() && (#[trigger] rest[i]).socket_addr == (
            #[trigger] rest[j]).socket_addr implies i == j by {
            assert(rest[i] == peers[i] && rest[j] == peers[j]);
        }
        lemma_alive_distinct(rest, now);
        if pred(peers.last()) {
            let out = kept.push(peers.last());
            assert forall|i: int, j: int|
                0 <= i < out.len() && 0 <= j < out.len() && (#[trigger] out[i]).socket_addr == (
                #[trigger] out[j]).socket_addr implies i == j by {
                if i < kept.len() && j == kept.len() {
                    lemma_filter_members(rest, pred, kept[i]);
                    assert(kept.contains(kept[i]));
                    let k = choose|k: int| 0 <= k < rest.len() && rest[k] == kept[i];
                    assert(peers[k].socket_addr == peers[peers.len() - 1].socket_addr);
                }
                if j < kept.len() && i == kept.len() {
                    lemma_filter_members(rest, pred, kept[j]);
                    assert(kept.contains(kept[j]));
                    let k = choose|k: int| 0 <= k < rest.len() && rest[k] == kept[j];
                    assert(peers[k].socket_addr == peers[peers.len() - 1].socket_addr);
                }
            }
        }
    }
}

/// Hearing from an address keeps addresses distinct.
pub proof fn lemma_heard_from_distinct(peers: Seq<ReceiverDevice>, addr: SocketAddrV4, now: u64)
    requires
        distinct_peers(peers),
    ensures
        distinct_peers(heard_from(peers, addr, now)),
        listed(heard_from(peers, addr, now), addr),
{
    let out = heard_from(peers, addr, now);
    if listed(peers, addr) {
        let k = choose|k: int| 0 <= k < peers.len() && (#[trigger] peers[k]).socket_addr == addr;
        assert(out[k].socket_addr == addr);
        assert forall|i: int, j: int|
            0 <= i < out.len() && 0 <= j < out.len() && (#[trigger] out[i]).socket_addr == (
            #[trigger] out[j]).socket_addr implies i == j by {
            assert(out[i].socket_addr == peers[i].socket_addr);
            assert(out[j].socket_addr == peers[j].socket_addr);
        }
    } else {
        assert(out[peers.len() as int].socket_addr == addr);
        assert forall|i: int, j: int|
            0 <= i < out.len() && 0 <= j < out.len() && (#[trigger] out[i]).socket_addr == (
            #[trigger] out[j]).socket_addr implies i == j by {
            if i < peers.len() {
                assert(out[i] == peers[i]);
            }
            if j < peers.len() {
                assert(out[j] == peers[j]);
            }
        }
    }
}

/// A peer is in the liveness snapshot exactly when it is known and has been
/// heard from within the threshold. So a peer that has been silent for more
/// than five seconds is absent from the snapshot, and one that was heard
/// from at most 4.9 seconds ago is in it.
pub proof fn law_liveness(peers: Seq<ReceiverDevice>, now: u64, peer: ReceiverDevice)
    ensures
        alive(peers, now).contains(peer) <==> (peers.contains(peer) && spec_elapsed(
            peer.updated,
            now,
        ) <= DECAY_THRESHOLD),
        spec_elapsed(peer.updated, now) > 5_000_000_000 ==> !alive(peers, now).contains(peer),
        peers.contains(peer) && spec_elapsed(peer.updated, now) <= 4_900_000_000 ==> alive(
            peers,
            now,
        ).contains(peer),
{
    lemma_filter_members(peers, |p: ReceiverDevice| !p.spec_decayed(now), peer);
}

/// A peer that is heard from survives every sweep made within the
/// threshold of the datagram: refreshed at intervals of 4.9 seconds, it
/// never decays.
pub proof fn law_refreshed_peer_stays(
    peers: Seq<ReceiverDevice>,
    addr: SocketAddrV4,
    heard: u64,
    now: u64,
)
    requires
        distinct_peers(peers),
        spec_elapsed(heard, now) <= 4_900_000_000,
    ensures
        listed(alive(heard_from(alive(peers, heard), addr, heard), now), addr),
{
    let before = alive(peers, heard);
    let then = heard_from(before, addr, heard);
    lemma_alive_distinct(peers, heard);
    lemma_heard_from_distinct(before, addr, heard);
    let k = choose|k: int| 0 <= k < then.len() && (#[trigger] then[k]).socket_addr == addr;
    assert(then[k].updated == heard) by {
        if listed(before, addr) {
        } else {
            if k < before.len() {
                assert(before[k].socket_addr == addr);
            }
        }
    }
    assert(then.contains(then[k]));
    lemma_filter_members(then, |p: ReceiverDevice| !p.spec_decayed(now), then[k]);
    let after = alive(then, now);
    let i = choose|i: int| 0 <= i < after.len() && after[i] == then[k];
    assert(after[i].socket_addr == addr);
}

/// The value of a token written as text, if the text is one.
pub uninterp spec fn uuid_value(text: Seq<char>) -> Option<u128>;

/// The text of a token.
pub uninterp spec fn uuid_text(token: u128) -> Seq<char>;

/// `Uuid::parse_str` followed by `Uuid::as_u128`: reads a UUID in any of
/// the forms the `uuid` crate accepts. What it returns depends on the text
/// alone.
#[verifier::external_body]
fn parse_token(text: &str) -> (token: Option<u128>)
    ensures
        token == uuid_value(text@),
{
    match uuid::Uuid::parse_str(text) {
        Ok(id) => Some(id.as_u128()),
        Err(_) => None,
    }
}

/// `Uuid::from_u128` followed by the `Display` of `Uuid`: writes a token the
/// way the `uuid` crate prints a UUID. What it returns depends on the token
/// alone.
#[verifier::external_body]
fn token_text(token: u128) -> (text: String)
    ensures
        text@ == uuid_text(token),
{
    uuid::Uuid::from_u128(token).to_string()
}

/// `Uuid::new_v4` followed by `Uuid::as_u128`: a random token. Nothing is
/// claimed of it.
#[verifier::external_body]
fn fresh_token() -> u128 {
    uuid::Uuid::new_v4().as_u128()
}

/// `std::str::from_utf8`: the text whose bytes the payload holds, where
/// the payload is well-formed UTF-8, and nothing where it is not.
#[verifier::external_body]
fn utf8_text(payload: &[u8]) -> (text: Option<String>)
    ensures
        match text {
            Some(decoded) => valid_utf8(payload@) && encode_utf8(decoded@) == payload@,
            None => !valid_utf8(payload@),
        },
{
    match std::str::from_utf8(payload) {
        Ok(decoded) => Some(decoded.to_string()),
        Err(_) => None,
    }
}

/// The peers that have not decayed at `now`.
fn clean_devices(devices: &Vec<ReceiverDevice>, now: u64) -> (kept: Vec<ReceiverDevice>)
    ensures
        kept@ == alive(devices@, now),
{
    let ghost pred = |p: ReceiverDevice| !p.spec_decayed(now);
    let mut kept: Vec<ReceiverDevice> = Vec::new();
    let mut index: usize = 0;
    proof {
        reveal(Seq::filter);
        assert(devices@.take(0) =~= Seq::<ReceiverDevice>::empty());
    }
    while index < devices.len()
        invariant
            index <= devices.len(),
            kept@ == devices@.take(index as int).filter(pred),
            pred == |p: ReceiverDevice| !p.spec_decayed(now),
        decreases devices.len() - index,
    {
        let device = devices[index];
        proof {
            lemma_filter_step(devices@, pred, index as int);
        }
        if !device.decayed(now) {
            kept.push(device);
        }
        index = index + 1;
    }
    proof {
        assert(devices@.take(devices.len() as int) =~= devices@);
    }
    kept
}

/// The peers with the one at `addr` marked as heard from at `now`, and
/// whether there is one.
fn refresh_device(devices: &Vec<ReceiverDevice>, addr: SocketAddrV4, now: u64) -> (r: (
    Vec<ReceiverDevice>,
    bool,
))
    ensures
        r.0@ == refreshed(devices@, addr, now),
        r.1 == listed(devices@, addr),
{
    let mut out: Vec<ReceiverDevice> = Vec::new();
    let mut found = false;
    let mut index: usize = 0;
    while index < devices.len()
        invariant
            index <= devices.len(),
            out@ == refreshed(devices@.take(index as int), addr, now),
            found == listed(devices@.take(index as int), addr),
        decreases devices.len() - index,
    {
        let mut device = devices[index];
        let ghost before = devices@.take(index as int);
        let ghost after = devices@.take(index + 1);
        if device.socket_addr == addr {
            device.updated(now);
            found = true;
            proof {
                assert(after[index as int].socket_addr == addr);
            }
        } else {
            proof {
                if listed(after, addr) {
                    let i = choose|i: int|
                        0 <= i < after.len() && (#[trigger] after[i]).socket_addr == addr;
                    assert(before[i].socket_addr == addr);
                }
            }
        }
        proof {
            if listed(before, addr) {
                let i = choose|i: int|
                    0 <= i < before.len() && (#[trigger] before[i]).socket_addr == addr;
                assert(after[i].socket_addr == addr);
            }
        }
        out.push(device);
        proof {
            assert(out@ =~= refreshed(after, addr, now));
        }
        index = index + 1;
    }
    proof {
        assert(devices@.take(devices.len() as int) =~= devices@);
    }
    (out, found)
}

/// The peer directory: who has been heard from on the discovery channel,
/// and what this process has learnt of itself there.
#[derive(Debug)]
pub struct Communicate {
    devices: Vec<ReceiverDevice>,
    broadcasting_addr: bool,
    self_id: u128,
    self_addr: Option<SocketAddrV4>,
}

impl View for Communicate {
    type V = Directory;

    closed spec fn view(&self) -> Directory {
        Directory {
            peers: self.devices@,
            self_id: self.self_id,
            self_addr: self.self_addr,
            broadcasting: self.broadcasting_addr,
        }
    }
}

impl Communicate {
    #[verifier::type_invariant]
    spec fn inv(self) -> bool {
        self@.wf()
    }

    /// A directory without peers under a token drawn at random.
    pub fn new() -> (directory: Communicate)
        ensures
            directory@.peers.len() == 0,
            directory@.self_addr is None,
            !directory@.broadcasting,
    {
        Communicate::with_token(fresh_token())
    }

    /// A directory without peers under the given token.
    pub fn with_token(self_id: u128) -> (directory: Communicate)
        ensures
            directory@ == (Directory {
                peers: Seq::empty(),
                self_id,
                self_addr: None,
                broadcasting: false,
            }),
    {
        Communicate { devices: Vec::new(), broadcasting_addr: false, self_id, self_addr: None }
    }

    /// Says whether the announcements are to be started: they are the first
    /// time this is asked, and never again.
    pub fn broadcast_address(&mut self) -> (start: bool)
        ensures
            start == !old(self)@.broadcasting,
            final(self)@ == (Directory { broadcasting: true, ..old(self)@ }),
    {
        proof {
            use_type_invariant(&*self);
        }
        if self.broadcasting_addr {
            return false;
        }
        self.broadcasting_addr = true;
        true
    }

    /// The address under which this process's announcements come back.
    pub fn get_own_ip(&self) -> (own: Option<SocketAddrV4>)
        ensures
            own == self@.self_addr,
    {
        self.self_addr
    }

    /// This process's token.
    pub fn self_id(&self) -> (token: u128)
        ensures
            token == self@.self_id,
    {
        self.self_id
    }

    /// The peers known, in the order in which they were first heard from.
    pub fn devices(&self) -> (peers: Vec<ReceiverDevice>)
        ensures
            peers@ == self@.peers,
            distinct_peers(peers@),
    {
        proof {
            use_type_invariant(&*self);
        }
        let mut peers: Vec<ReceiverDevice> = Vec::new();
        let mut index: usize = 0;
        while index < self.devices.len()
            invariant
                index <= self.devices.len(),
                peers@ == self.devices@.take(index as int),
            decreases self.devices.len() - index,
        {
            peers.push(self.devices[index]);
            proof {
                assert(peers@ =~= self.devices@.take(index + 1));
            }
            index = index + 1;
        }
        proof {
            assert(self.devices@.take(self.devices.len() as int) =~= self.devices@);
        }
        peers
    }

    /// The payload of this process's announcements: its token as text.
    pub fn announcement(&self) -> (text: String)
        ensures
            text@ == uuid_text(self@.self_id),
    {
        token_text(self.self_id)
    }

    /// The addresses to which a frame for all peers goes: every peer's, in
    /// the order of the list. With no peer known there is nowhere to send.
    pub fn send(&self) -> (r: Result<Vec<SocketAddrV4>, CommunicateError>)
        ensures
            match r {
                Ok(targets) => self@.peers.len() > 0 && targets@ == self@.peers.map_values(
                    |p: ReceiverDevice| p.socket_addr,
                ),
                Err(e) => e is ClientNotFound && self@.peers.len() == 0,
            },
    {
        if self.devices.len() == 0 {
            return Err(CommunicateError::ClientNotFound);
        }
        let mut targets: Vec<SocketAddrV4> = Vec::new();
        let mut index: usize = 0;
        while index < self.devices.len()
            invariant
                index <= self.devices.len(),
                targets@ == self.devices@.take(index as int).map_values(
                    |p: ReceiverDevice| p.socket_addr,
                ),
            decreases self.devices.len() - index,
        {
            targets.push(self.devices[index].socket_addr);
            proof {
                assert(targets@ =~= self.devices@.take(index + 1).map_values(
                    |p: ReceiverDevice| p.socket_addr,
                ));
            }
            index = index + 1;
        }
        proof {
            assert(self.devices@.take(self.devices.len() as int) =~= self.devices@);
        }
        Ok(targets)
    }

    /// The address to which a frame for one peer goes: the peer's own, if
    /// the peer is known.
    pub fn send_specific(&self, addr: SocketAddrV4) -> (r: Result<SocketAddrV4, CommunicateError>)
        ensures
            match r {
                Ok(target) => target == addr && listed(self@.peers, addr),
                Err(e) => e is ClientNotFound && !listed(self@.peers, addr),
            },
    {
        let mut index: usize = 0;
        while index < self.devices.len()
            invariant
                index <= self.devices.len(),
                forall|i: int| 0 <= i < index ==> (#[trigger] self.devices@[i]).socket_addr != addr,
            decreases self.devices.len() - index,
        {
            if self.devices[index].socket_addr == addr {
                return Ok(addr);
            }
            index = index + 1;
        }
        Err(CommunicateError::ClientNotFound)
    }

    /// The text of a datagram; there is none where the payload is not
    /// well-formed UTF-8, and such a datagram is dropped.
    pub fn receive(payload: &[u8]) -> (text: Option<String>)
        ensures
            match text {
                Some(decoded) => valid_utf8(payload@) && encode_utf8(decoded@) == payload@,
                None => !valid_utf8(payload@),
            },
    {
        utf8_text(payload)
    }

    /// Takes in a discovery datagram whose payload has been read as a
    /// token. This process's own token teaches it its address, which the
    /// topology is told too. Another token changes the peer list, after
    /// which the topology forgets the peers that are gone and the new list
    /// is returned for those who wait for it.
    pub fn on_announcement(
        &mut self,
        display_manager: &mut DisplayManager,
        token: Option<u128>,
        src: Option<SocketAddrV4>,
        now: u64,
    ) -> (snapshot: Option<Vec<ReceiverDevice>>)
        ensures
            final(self)@ == old(self)@.on_announcement(token, src, now),
            final(self)@.wf(),
            match snapshot {
                Some(peers) => old(self)@.is_foreign(token) && peers@ == final(self)@.peers
                    && final(display_manager)@ == old(display_manager)@.prune(peers@),
                None => !old(self)@.is_foreign(token) && final(display_manager)@ == (if token
                    == Some(old(self)@.self_id) && src is Some {
                    old(display_manager)@.with_own_ip(src->0)
                } else {
                    old(display_manager)@
                }),
            },
    {
        proof {
            use_type_invariant(&*self);
        }
        let id = match token {
            Some(id) => id,
            None => {
                return None;
            },
        };
        if id == self.self_id {
            match src {
                Some(addr) => {
                    display_manager.set_own_ip(addr);
                    self.self_addr = Some(addr);
                },
                None => {},
            }
            return None;
        }
        let kept = clean_devices(&self.devices, now);
        proof {
            lemma_alive_distinct(self.devices@, now);
        }
        let devices = match src {
            Some(addr) => {
                let (mut marked, found) = refresh_device(&kept, addr, now);
                if !found {
                    let mut grown = kept;
                    grown.push(ReceiverDevice::new(addr, now));
                    marked = grown;
                }
                proof {
                    lemma_heard_from_distinct(alive(self.devices@, now), addr, now);
                }
                marked
            },
            None => kept,
        };
        display_manager.filter_clients(&devices);
        self.devices = devices;
        Some(self.devices())
    }

    /// Takes in a discovery datagram: reads its text as a token and goes on
    /// as `on_announcement` does.
    pub fn devices_updater(
        &mut self,
        display_manager: &mut DisplayManager,
        text: &str,
        src: Option<SocketAddrV4>,
        now: u64,
    ) -> (snapshot: Option<Vec<ReceiverDevice>>)
        ensures
            final(self)@ == old(self)@.on_announcement(uuid_value(text@), src, now),
            final(self)@.wf(),
            match snapshot {
                Some(peers) => old(self)@.is_foreign(uuid_value(text@))
                    && peers@ == final(self)@.peers
                    && final(display_manager)@ == old(display_manager)@.prune(peers@),
                None => !old(self)@.is_foreign(uuid_value(text@)) && final(display_manager)@ == (
                if uuid_value(text@) == Some(old(self)@.self_id) && src is Some {
                    old(display_manager)@.with_own_ip(src->0)
                } else {
                    old(display_manager)@
                }),
            },
    {
        let token = parse_token(text);
        self.on_announcement(display_manager, token, src, now)
    }

    /// The periodic sweep: drops the decayed peers, has the topology forget
    /// them, and returns the list that is left for those who wait for it.
    pub fn planned_devices_updates(
        &mut self,
        display_manager: &mut DisplayManager,
        now: u64,
    ) -> (snapshot: Vec<ReceiverDevice>)
        ensures
            final(self)@ == old(self)@.swept(now),
            final(self)@.wf(),
            snapshot@ == final(self)@.peers,
            final(display_manager)@ == old(display_manager)@.prune(snapshot@),
    {
        proof {
            use_type_invariant(&*self);
            lemma_alive_distinct(self.devices@, now);
        }
        let kept = clean_devices(&self.devices, now);
        display_manager.filter_clients(&kept);
        self.devices = kept;
        self.devices()
    }
}

} // verus!
