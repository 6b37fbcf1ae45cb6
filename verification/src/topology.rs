//! The mathematical model of the display topology: machines in a row, each
//! with its monitors in a row, and the coordinate maps between one machine's
//! desktop and the shared flattened space.

use crate::address::{lemma_rank_injective, SocketAddrV4};
use crate::communicate::{listed, ReceiverDevice};
use crate::display::{Client, ClientMousePosition, Display, Edge};
use crate::input::MousePosition;
use crate::filtering::{
    lemma_filter_all, lemma_filter_members, lemma_filter_one_out, lemma_filter_sorted,
};
use crate::order::{
    lemma_place_contains, lemma_sort_of_sorted, lemma_stable_sort, lemma_strictly_sorted_unique,
    place, sorted_by, stable_sort, strictly_sorted_by,
};
use vstd::prelude::*;

verus! {

/// One machine's monitors, in the order in which they are laid out.
pub struct Machine {
    pub client: Client,
    pub displays: Seq<Display>,
}

/// Every known machine from left to right, and the address under which the
/// others see this machine, once it is known.
pub struct Topology {
    pub clients: Seq<Machine>,
    pub own_ip: Option<SocketAddrV4>,
}

/// The summed width of a row of monitors.
pub open spec fn span(displays: Seq<Display>) -> int
    decreases displays.len(),
{
    if displays.len() == 0 {
        0
    } else {
        span(displays.drop_last()) + displays.last().width as int
    }
}

/// The summed width of all monitors of a row of machines.
pub open spec fn total_span(clients: Seq<Machine>) -> int
    decreases clients.len(),
{
    if clients.len() == 0 {
        0
    } else {
        total_span(clients.drop_last()) + span(clients.last().displays)
    }
}

/// The address a machine is ordered by: its own for a peer, `own` for the
/// local machine.
pub open spec fn address_of(client: Client, own: SocketAddrV4) -> SocketAddrV4 {
    match client {
        Client::IsSelf => own,
        Client::IsNetworked(addr) => addr,
    }
}

/// The key by which a machine's monitors are ordered: their ids.
pub open spec fn display_key() -> spec_fn(Display) -> int {
    |d: Display| d.id as int
}

/// The key by which machines are ordered once the local address is `own`.
pub open spec fn machine_key(own: SocketAddrV4) -> spec_fn(Machine) -> int {
    |m: Machine| address_of(m.client, own).spec_rank()
}

/// No two machines of the row carry the same tag.
pub open spec fn distinct_tags(clients: Seq<Machine>) -> bool {
    forall|i: int, j: int|
        0 <= i < clients.len() && 0 <= j < clients.len() && (#[trigger] clients[i]).client == (
        #[trigger] clients[j]).client ==> i == j
}

/// Some machine of the row carries the tag.
pub open spec fn has_tag(clients: Seq<Machine>, tag: Client) -> bool {
    exists|i: int| 0 <= i < clients.len() && (#[trigger] clients[i]).client == tag
}

/// The row without the machines that carry the tag.
pub open spec fn without(clients: Seq<Machine>, tag: Client) -> Seq<Machine> {
    clients.filter(|m: Machine| m.client != tag)
}

/// The edge of a machine's own row of monitors that a column touches: the
/// left one at or before the first monitor's origin, the right one at or
/// beyond the far side of the last monitor.
pub open spec fn horizontal_edge(displays: Seq<Display>, x: int) -> Option<Edge> {
    if displays.len() == 0 {
        None
    } else if x <= displays.first().client_x {
        Some(Edge::Left)
    } else if x >= displays.last().client_x + displays.last().width {
        Some(Edge::Right)
    } else {
        None
    }
}

/// The number is within the range of a coordinate.
pub open spec fn fits_i32(v: int) -> bool {
    i32::MIN <= v <= i32::MAX
}

impl Topology {
    /// At most one entry per tag, hence at most one local entry and one entry
    /// per peer address; and the row is in address order as soon as the
    /// local address is known.
    pub open spec fn wf(self) -> bool {
        &&& distinct_tags(self.clients)
        &&& match self.own_ip {
            Some(own) => sorted_by(self.clients, machine_key(own)),
            None => true,
        }
    }

    /// `(c, k)` names monitor `k` of machine `c`.
    pub open spec fn is_slot(self, c: int, k: int) -> bool {
        0 <= c < self.clients.len() && 0 <= k < self.clients[c].displays.len()
    }

    /// Where monitor `k` of machine `c` begins in the flattened space.
    pub open spec fn offset(self, c: int, k: int) -> int {
        total_span(self.clients.take(c)) + span(self.clients[c].displays.take(k))
    }

    /// Column `x` of the flattened space falls on monitor `k` of machine `c`.
    pub open spec fn covers(self, c: int, k: int, x: int) -> bool {
        &&& self.is_slot(c, k)
        &&& self.offset(c, k) <= x < self.offset(c, k) + self.clients[c].displays[k].width
    }

    /// The position on machine `c`'s own desktop that a global position has
    /// when monitor `k` of that machine covers its column. There is none when
    /// the row lies above the monitor or more than its height below its top,
    /// or when the local coordinates leave the `i32` range.
    pub open spec fn position_on(self, c: int, k: int, global: MousePosition) -> Option<
        ClientMousePosition,
    > {
        let display = self.clients[c].displays[k];
        let x = display.client_x + (global.x - self.offset(c, k));
        let y = display.client_y + global.y;
        if 0 <= global.y <= display.height && fits_i32(x) && fits_i32(y) {
            Some(
                ClientMousePosition {
                    client: self.clients[c].client,
                    mouse_position: MousePosition { x: x as i32, y: y as i32 },
                },
            )
        } else {
            None
        }
    }

    /// The machine that owns a global position, and the position on that
    /// machine's own desktop: the one on the monitor that covers the
    /// position's column, if a monitor does.
    pub open spec fn local_position_of(self, global: MousePosition) -> Option<ClientMousePosition> {
        if exists|c: int, k: int| self.covers(c, k, global.x as int) {
            let (c, k) = choose|c: int, k: int| self.covers(c, k, global.x as int);
            self.position_on(c, k, global)
        } else {
            None
        }
    }

    /// Monitor `k` of machine `c` is a monitor of the local machine on which
    /// the point lies.
    pub open spec fn local_hit(self, c: int, k: int, local: MousePosition) -> bool {
        &&& self.is_slot(c, k)
        &&& self.clients[c].client is IsSelf
        &&& self.clients[c].displays[k].spec_contains(local)
    }

    /// `(c, k)` is the first local monitor, from the left, on which the point
    /// lies.
    pub open spec fn first_local_hit(self, c: int, k: int, local: MousePosition) -> bool {
        &&& self.local_hit(c, k, local)
        &&& forall|c2: int, k2: int|
            (c2 < c || (c2 == c && k2 < k)) ==> !#[trigger] self.local_hit(c2, k2, local)
    }

    /// The global position of a point of the local desktop that lies on
    /// monitor `k` of machine `c`: where the monitor begins, plus the point's
    /// offset into it. There is none when the result leaves the `i32` range.
    pub open spec fn position_from(self, c: int, k: int, local: MousePosition) -> Option<
        MousePosition,
    > {
        let display = self.clients[c].displays[k];
        let x = self.offset(c, k) + (local.x - display.client_x);
        let y = local.y - display.client_y;
        if fits_i32(x) && fits_i32(y) {
            Some(MousePosition { x: x as i32, y: y as i32 })
        } else {
            None
        }
    }

    /// The global position of a point of the local desktop, taken on the
    /// first local monitor on which the point lies, if there is one.
    pub open spec fn global_position_of(self, local: MousePosition) -> Option<MousePosition> {
        if exists|c: int, k: int| self.first_local_hit(c, k, local) {
            let (c, k) = choose|c: int, k: int| self.first_local_hit(c, k, local);
            self.position_from(c, k, local)
        } else {
            None
        }
    }

    /// The edge that column `x` of machine `index`'s desktop touches, where
    /// a neighbour lies beyond it.
    pub open spec fn edge_of(self, x: int, index: int) -> Option<Edge>
        recommends
            0 <= index < self.clients.len(),
    {
        match horizontal_edge(self.clients[index].displays, x) {
            Some(Edge::Left) => if index > 0 {
                Some(Edge::Left)
            } else {
                None
            },
            Some(Edge::Right) => if index < self.clients.len() - 1 {
                Some(Edge::Right)
            } else {
                None
            },
            None => None,
        }
    }

    /// The index of the local machine's entry.
    pub open spec fn own_index(self) -> Option<int> {
        if exists|i: int|
            0 <= i < self.clients.len() && (#[trigger] self.clients[i]).client is IsSelf {
            Some(
                choose|i: int|
                    0 <= i < self.clients.len() && (#[trigger] self.clients[i]).client is IsSelf,
            )
        } else {
            None
        }
    }

    /// The row once `entry` has taken the place of any entry with its tag and
    /// has been put in order, which needs the local address.
    pub open spec fn upsert(self, entry: Machine) -> Topology {
        let replaced = without(self.clients, entry.client).push(entry);
        Topology {
            clients: match self.own_ip {
                Some(own) => stable_sort(replaced, machine_key(own)),
                None => replaced,
            },
            own_ip: self.own_ip,
        }
    }

    /// The row without the peers that are not listed as alive.
    pub open spec fn prune(self, alive: Seq<ReceiverDevice>) -> Topology {
        Topology {
            clients: self.clients.filter(
                |m: Machine|
                    match m.client {
                        Client::IsSelf => true,
                        Client::IsNetworked(addr) => listed(alive, addr),
                    },
            ),
            own_ip: self.own_ip,
        }
    }

    /// The row put in order around the local address `own`.
    pub open spec fn with_own_ip(self, own: SocketAddrV4) -> Topology {
        Topology { clients: stable_sort(self.clients, machine_key(own)), own_ip: Some(own) }
    }

    /// The peers, in their order, that have no entry in the row.
    pub open spec fn missing(self, peers: Seq<ReceiverDevice>) -> Seq<ReceiverDevice> {
        peers.filter(
            |p: ReceiverDevice| !has_tag(self.clients, Client::IsNetworked(p.socket_addr)),
        )
    }
}

/// A row of monitors grows by the width of the monitor added at its end.
pub proof fn lemma_span_step(displays: Seq<Display>, k: int)
    requires
        0 <= k < displays.len(),
    ensures
        span(displays.take(k + 1)) == span(displays.take(k)) + displays[k].width,
        span(displays.take(0)) == 0,
        0 <= span(displays.take(k)),
    decreases k,
{
    assert(displays.take(k + 1).drop_last() =~= displays.take(k));
    if k > 0 {
        lemma_span_step(displays, k - 1);
    }
}

/// The offsets of a row of monitors never decrease, and the whole row spans
/// what its prefix of full length spans.
pub proof fn lemma_span_prefix(displays: Seq<Display>, j: int, k: int)
    requires
        0 <= j <= k <= displays.len(),
    ensures
        0 <= span(displays.take(j)) <= span(displays.take(k)),
        span(displays.take(displays.len() as int)) == span(displays),
    decreases k,
{
    assert(displays.take(displays.len() as int) =~= displays);
    if j == 0 {
        assert(displays.take(0) =~= Seq::<Display>::empty());
    }
    if k > 0 {
        lemma_span_step(displays, k - 1);
        if j < k {
            lemma_span_prefix(displays, j, k - 1);
        }
    }
}

/// A row of machines grows by the span of the machine added at its end.
pub proof fn lemma_total_span_step(clients: Seq<Machine>, c: int)
    requires
        0 <= c < clients.len(),
    ensures
        total_span(clients.take(c + 1)) == total_span(clients.take(c)) + span(clients[c].displays),
        total_span(clients.take(0)) == 0,
        0 <= total_span(clients.take(c)),
    decreases c,
{
    assert(clients.take(c + 1).drop_last() =~= clients.take(c));
    if c > 0 {
        lemma_total_span_step(clients, c - 1);
        lemma_span_prefix(clients[c - 1].displays, 0, clients[c - 1].displays.len() as int);
    }
}

/// The offsets of the machines never decrease from left to right.
pub proof fn lemma_total_span_prefix(clients: Seq<Machine>, b: int, c: int)
    requires
        0 <= b <= c <= clients.len(),
    ensures
        0 <= total_span(clients.take(b)) <= total_span(clients.take(c)),
    decreases c,
{
    if b == 0 {
        assert(clients.take(0) =~= Seq::<Machine>::empty());
    }
    if c > 0 {
        lemma_total_span_step(clients, c - 1);
        lemma_span_prefix(clients[c - 1].displays, 0, clients[c - 1].displays.len() as int);
        if b < c {
            lemma_total_span_prefix(clients, b, c - 1);
        }
    }
}

impl Topology {
    /// A monitor ends, in the flattened space, no later than any monitor
    /// after it begins.
    pub proof fn lemma_offsets_ordered(self, c: int, k: int, c2: int, k2: int)
        requires
            self.is_slot(c, k),
            self.is_slot(c2, k2),
            c < c2 || (c == c2 && k < k2),
        ensures
            0 <= self.offset(c, k),
            self.offset(c, k) + self.clients[c].displays[k].width <= self.offset(c2, k2),
    {
        let row = self.clients[c].displays;
        lemma_span_step(row, k);
        lemma_total_span_prefix(self.clients, 0, c);
        if c == c2 {
            lemma_span_prefix(row, k + 1, k2);
        } else {
            lemma_span_prefix(row, k + 1, row.len() as int);
            lemma_total_span_step(self.clients, c);
            lemma_total_span_prefix(self.clients, c + 1, c2);
            lemma_span_prefix(self.clients[c2].displays, 0, k2);
        }
    }

    /// The monitor that covers a position's column decides its local position.
    pub proof fn lemma_local_position_at(self, c: int, k: int, global: MousePosition)
        requires
            self.covers(c, k, global.x as int),
        ensures
            self.local_position_of(global) == self.position_on(c, k, global),
    {
        let (c2, k2) = choose|c: int, k: int| self.covers(c, k, global.x as int);
        self.lemma_covers_unique(c, k, c2, k2, global.x as int);
    }

    /// The first local monitor that holds a point decides its global position.
    pub proof fn lemma_global_position_at(self, c: int, k: int, local: MousePosition)
        requires
            self.first_local_hit(c, k, local),
        ensures
            self.global_position_of(local) == self.position_from(c, k, local),
    {
        let (c2, k2) = choose|c: int, k: int| self.first_local_hit(c, k, local);
        if c2 < c || (c2 == c && k2 < k) {
            assert(!self.local_hit(c2, k2, local));
        }
        if c < c2 || (c == c2 && k < k2) {
            assert(!self.local_hit(c, k, local));
        }
    }

    /// A position's owner is a machine of the row.
    pub proof fn lemma_owner_is_listed(self, global: MousePosition)
        requires
            self.local_position_of(global) is Some,
        ensures
            has_tag(self.clients, self.local_position_of(global)->0.client),
            self.local_position_of(global)->0.client is IsSelf ==> self.own_index() is Some,
            0 <= global.x,
            0 <= global.y,
    {
        let (c, k) = choose|c: int, k: int| self.covers(c, k, global.x as int);
        assert(self.clients[c].client == self.local_position_of(global)->0.client);
        lemma_total_span_prefix(self.clients, 0, c);
        lemma_span_prefix(self.clients[c].displays, 0, k);
    }

    /// At most one monitor covers a column of the flattened space.
    pub proof fn lemma_covers_unique(self, c: int, k: int, c2: int, k2: int, x: int)
        requires
            self.covers(c, k, x),
            self.covers(c2, k2, x),
        ensures
            c == c2 && k == k2,
    {
        if c < c2 || (c == c2 && k < k2) {
            self.lemma_offsets_ordered(c, k, c2, k2);
        } else if c2 < c || (c2 == c && k2 < k) {
            self.lemma_offsets_ordered(c2, k2, c, k);
        }
    }
}

/// A machine put in front of a row with distinct tags, none of them its own,
/// gives a row with distinct tags.
pub proof fn lemma_cons_distinct(m: Machine, row: Seq<Machine>)
    requires
        distinct_tags(row),
        !has_tag(row, m.client),
    ensures
        distinct_tags(seq![m] + row),
{
    let out = seq![m] + row;
    assert forall|i: int, j: int|
        0 <= i < out.len() && 0 <= j < out.len() && (#[trigger] out[i]).client == (
        #[trigger] out[j]).client implies i == j by {
        if i > 0 {
            assert(out[i] == row[i - 1]);
        }
        if j > 0 {
            assert(out[j] == row[j - 1]);
        }
    }
}

/// A machine appended to a row with distinct tags, none of them its own,
/// gives a row with distinct tags.
pub proof fn lemma_push_distinct(row: Seq<Machine>, m: Machine)
    requires
        distinct_tags(row),
        !has_tag(row, m.client),
    ensures
        distinct_tags(row.push(m)),
{
    let out = row.push(m);
    assert forall|i: int, j: int|
        0 <= i < out.len() && 0 <= j < out.len() && (#[trigger] out[i]).client == (
        #[trigger] out[j]).client implies i == j by {
        if i < row.len() {
            assert(out[i] == row[i]);
        }
        if j < row.len() {
            assert(out[j] == row[j]);
        }
    }
}

/// A row has a tag exactly when it holds a machine with it.
pub proof fn lemma_has_tag_contains(row: Seq<Machine>, tag: Client)
    ensures
        has_tag(row, tag) <==> exists|m: Machine| row.contains(m) && m.client == tag,
{
    if has_tag(row, tag) {
        let i = choose|i: int| 0 <= i < row.len() && (#[trigger] row[i]).client == tag;
        assert(row.contains(row[i]));
    }
    if exists|m: Machine| row.contains(m) && m.client == tag {
        let m = choose|m: Machine| row.contains(m) && m.client == tag;
        let i = choose|i: int| 0 <= i < row.len() && row[i] == m;
        assert(row[i].client == tag);
    }
}

/// Two rows with the same machines have the same tags.
pub proof fn lemma_same_members_same_tags(a: Seq<Machine>, b: Seq<Machine>, tag: Client)
    requires
        forall|m: Machine| a.contains(m) <==> b.contains(m),
    ensures
        has_tag(a, tag) <==> has_tag(b, tag),
{
    lemma_has_tag_contains(a, tag);
    lemma_has_tag_contains(b, tag);
    if has_tag(a, tag) {
        let m = choose|m: Machine| a.contains(m) && m.client == tag;
        assert(b.contains(m));
    }
    if has_tag(b, tag) {
        let m = choose|m: Machine| b.contains(m) && m.client == tag;
        assert(a.contains(m));
    }
}

/// Placing a machine whose tag is new keeps the tags distinct.
pub proof fn lemma_place_distinct(m: Machine, row: Seq<Machine>, key: spec_fn(Machine) -> int)
    requires
        distinct_tags(row),
        !has_tag(row, m.client),
    ensures
        distinct_tags(place(m, row, key)),
    decreases row.len(),
{
    if row.len() == 0 || key(m) <= key(row[0]) {
        lemma_cons_distinct(m, row);
    } else {
        let rest = row.drop_first();
        assert forall|i: int, j: int|
            0 <= i < rest.len() && 0 <= j < rest.len() && (#[trigger] rest[i]).client == (
            #[trigger] rest[j]).client implies i == j by {
            assert(rest[i] == row[i + 1] && rest[j] == row[j + 1]);
        }
        if has_tag(rest, m.client) {
            let i = choose|i: int| 0 <= i < rest.len() && (#[trigger] rest[i]).client == m.client;
            assert(row[i + 1].client == m.client);
        }
        lemma_place_distinct(m, rest, key);
        let placed = place(m, rest, key);
        if has_tag(placed, row[0].client) {
            let i = choose|i: int|
                0 <= i < placed.len() && (#[trigger] placed[i]).client == row[0].client;
            lemma_place_contains(m, rest, key, placed[i]);
            assert(placed.contains(placed[i]));
            if placed[i] == m {
                assert(row[0].client == m.client);
            } else {
                let k = choose|k: int| 0 <= k < rest.len() && rest[k] == placed[i];
                assert(row[k + 1].client == row[0].client);
            }
        }
        lemma_cons_distinct(row[0], placed);
    }
}

/// Sorting keeps the tags distinct.
pub proof fn lemma_sort_distinct(row: Seq<Machine>, key: spec_fn(Machine) -> int)
    requires
        distinct_tags(row),
    ensures
        distinct_tags(stable_sort(row, key)),
    decreases row.len(),
{
    if row.len() > 0 {
        let rest = row.drop_first();
        assert forall|i: int, j: int|
            0 <= i < rest.len() && 0 <= j < rest.len() && (#[trigger] rest[i]).client == (
            #[trigger] rest[j]).client implies i == j by {
            assert(rest[i] == row[i + 1] && rest[j] == row[j + 1]);
        }
        lemma_sort_distinct(rest, key);
        lemma_stable_sort(rest, key);
        lemma_same_members_same_tags(stable_sort(rest, key), rest, row[0].client);
        if has_tag(rest, row[0].client) {
            let i = choose|i: int|
                0 <= i < rest.len() && (#[trigger] rest[i]).client == row[0].client;
            assert(row[i + 1].client == row[0].client);
        }
        lemma_place_distinct(row[0], stable_sort(rest, key), key);
    }
}

/// Filtering keeps the tags distinct.
pub proof fn lemma_filter_distinct(row: Seq<Machine>, pred: spec_fn(Machine) -> bool)
    requires
        distinct_tags(row),
    ensures
        distinct_tags(row.filter(pred)),
    decreases row.len(),
{
    reveal(Seq::filter);
    if row.len() > 0 {
        let rest = row.drop_last();
        let kept = rest.filter(pred);
        assert forall|i: int, j: int|
            0 <= i < rest.len() && 0 <= j < rest.len() && (#[trigger] rest[i]).client == (
            #[trigger] rest[j]).client implies i == j by {
            assert(rest[i] == row[i] && rest[j] == row[j]);
        }
        lemma_filter_distinct(rest, pred);
        if pred(row.last()) {
            if has_tag(kept, row.last().client) {
                let i = choose|i: int|
                    0 <= i < kept.len() && (#[trigger] kept[i]).client == row.last().client;
                lemma_filter_members(rest, pred, kept[i]);
                assert(kept.contains(kept[i]));
                let k = choose|k: int| 0 <= k < rest.len() && rest[k] == kept[i];
                assert(row[k].client == row[row.len() - 1].client);
            }
            lemma_push_distinct(kept, row.last());
        }
    }
}

/// What `without` leaves: the row itself when the tag is absent, the row
/// short of the one entry that carries the tag otherwise; in both cases a
/// row with distinct tags in which the tag does not occur.
pub proof fn lemma_without(row: Seq<Machine>, tag: Client)
    requires
        distinct_tags(row),
    ensures
        !has_tag(row, tag) ==> without(row, tag) == row,
        forall|i: int|
            0 <= i < row.len() && (#[trigger] row[i]).client == tag ==> without(row, tag)
                == row.remove(i),
        distinct_tags(without(row, tag)),
        !has_tag(without(row, tag), tag),
{
    let pred = |m: Machine| m.client != tag;
    if !has_tag(row, tag) {
        lemma_filter_all(row, pred);
    }
    assert forall|i: int| 0 <= i < row.len() && (#[trigger] row[i]).client == tag implies without(
        row,
        tag,
    ) == row.remove(i) by {
        lemma_filter_one_out(row, pred, i);
    }
    lemma_filter_distinct(row, pred);
    if has_tag(without(row, tag), tag) {
        let kept = without(row, tag);
        let i = choose|i: int| 0 <= i < kept.len() && (#[trigger] kept[i]).client == tag;
        lemma_filter_members(row, pred, kept[i]);
        assert(kept.contains(kept[i]));
    }
}

impl Topology {
    /// Taking in an entry keeps the row well formed.
    pub proof fn lemma_upsert_wf(self, entry: Machine)
        requires
            self.wf(),
        ensures
            self.upsert(entry).wf(),
    {
        lemma_without(self.clients, entry.client);
        let replaced = without(self.clients, entry.client).push(entry);
        lemma_push_distinct(without(self.clients, entry.client), entry);
        if let Some(known) = self.own_ip {
            lemma_sort_distinct(replaced, machine_key(known));
            lemma_stable_sort(replaced, machine_key(known));
        }
    }

    /// Dropping peers keeps the row well formed.
    pub proof fn lemma_prune_wf(self, alive: Seq<ReceiverDevice>)
        requires
            self.wf(),
        ensures
            self.prune(alive).wf(),
    {
        let pred = |m: Machine|
            match m.client {
                Client::IsSelf => true,
                Client::IsNetworked(addr) => listed(alive, addr),
            };
        lemma_filter_distinct(self.clients, pred);
        if let Some(known) = self.own_ip {
            lemma_filter_sorted(self.clients, pred, machine_key(known));
        }
    }

    /// Learning the local address keeps the row well formed.
    pub proof fn lemma_with_own_ip_wf(self, own: SocketAddrV4)
        requires
            self.wf(),
        ensures
            self.with_own_ip(own).wf(),
    {
        lemma_sort_distinct(self.clients, machine_key(own));
        lemma_stable_sort(self.clients, machine_key(own));
    }

    /// Pruning keeps the local entry and the peers that are alive, and
    /// nothing else: the local entry survives every pruning, and a peer's
    /// entry survives exactly when the peer is listed as alive.
    pub proof fn law_prune_keeps_the_living(self, alive: Seq<ReceiverDevice>, m: Machine)
        ensures
            self.prune(alive).clients.contains(m) <==> (self.clients.contains(m) && match m.client {
                Client::IsSelf => true,
                Client::IsNetworked(addr) => listed(alive, addr),
            }),
    {
        let pred = |m: Machine|
            match m.client {
                Client::IsSelf => true,
                Client::IsNetworked(addr) => listed(alive, addr),
            };
        lemma_filter_members(self.clients, pred, m);
    }

    /// Once the row is in order around the local address, putting it in
    /// order around that address again changes nothing.
    pub proof fn law_order_is_stable(self, own: SocketAddrV4)
        ensures
            self.with_own_ip(own).with_own_ip(own) == self.with_own_ip(own),
    {
        lemma_stable_sort(self.clients, machine_key(own));
        lemma_sort_of_sorted(stable_sort(self.clients, machine_key(own)), machine_key(own));
    }

    /// No edge is reported on a side on which no neighbour lies.
    pub proof fn law_edge_needs_neighbour(self, x: int, index: int)
        requires
            0 <= index < self.clients.len(),
        ensures
            index == 0 ==> self.edge_of(x, index) != Some(Edge::Left),
            index == self.clients.len() - 1 ==> self.edge_of(x, index) != Some(Edge::Right),
    {
    }

    /// The row after the entries have been taken in one after the other.
    pub open spec fn upsert_all(self, entries: Seq<Machine>) -> Topology
        decreases entries.len(),
    {
        if entries.len() == 0 {
            self
        } else {
            self.upsert_all(entries.drop_last()).upsert(entries.last())
        }
    }

    /// No peer of the row has the address `own`.
    pub open spec fn apart_from(clients: Seq<Machine>, own: SocketAddrV4) -> bool {
        forall|i: int|
            0 <= i < clients.len() ==> (#[trigger] clients[i]).client != Client::IsNetworked(own)
    }

    /// The machines of the row after an entry was taken in: the entry, and
    /// the machines with another tag that were there before.
    pub proof fn lemma_upsert_members(self, entry: Machine, m: Machine)
        requires
            self.wf(),
        ensures
            self.upsert(entry).clients.contains(m) <==> (m == entry || (self.clients.contains(m)
                && m.client != entry.client)),
    {
        let pred = |m: Machine| m.client != entry.client;
        let kept = without(self.clients, entry.client);
        let replaced = kept.push(entry);
        lemma_filter_members(self.clients, pred, m);
        assert(replaced.contains(m) <==> (m == entry || kept.contains(m))) by {
            if kept.contains(m) {
                let i = choose|i: int| 0 <= i < kept.len() && kept[i] == m;
                assert(replaced[i] == m);
            }
            if m == entry {
                assert(replaced[kept.len() as int] == m);
            }
            if replaced.contains(m) {
                let i = choose|i: int| 0 <= i < replaced.len() && replaced[i] == m;
                if i < kept.len() {
                    assert(kept[i] == m);
                }
            }
        }
        if let Some(known) = self.own_ip {
            lemma_stable_sort(replaced, machine_key(known));
        }
    }

    /// What holds of the row after a run of entries was taken in.
    pub proof fn lemma_upsert_all(self, entries: Seq<Machine>, own: SocketAddrV4)
        requires
            self.wf(),
            self.own_ip == Some(own),
            Self::apart_from(self.clients, own),
            Self::apart_from(entries, own),
            distinct_tags(entries),
        ensures
            self.upsert_all(entries).wf(),
            self.upsert_all(entries).own_ip == Some(own),
            Self::apart_from(self.upsert_all(entries).clients, own),
            forall|m: Machine| #[trigger]
                self.upsert_all(entries).clients.contains(m) <==> (entries.contains(m) || (
                self.clients.contains(m) && !has_tag(entries, m.client))),
        decreases entries.len(),
    {
        if entries.len() > 0 {
            let rest = entries.drop_last();
            let last = entries.last();
            assert forall|i: int, j: int|
                0 <= i < rest.len() && 0 <= j < rest.len() && (#[trigger] rest[i]).client == (
                #[trigger] rest[j]).client implies i == j by {
                assert(rest[i] == entries[i] && rest[j] == entries[j]);
            }
            assert forall|i: int| 0 <= i < rest.len() implies (#[trigger] rest[i]).client
                != Client::IsNetworked(own) by {
                assert(rest[i] == entries[i]);
            }
            self.lemma_upsert_all(rest, own);
            let mid = self.upsert_all(rest);
            let out = mid.upsert(last);
            mid.lemma_upsert_wf(last);
            assert(last == entries[entries.len() - 1]);
            assert forall|i: int| 0 <= i < out.clients.len() implies (
            #[trigger] out.clients[i]).client != Client::IsNetworked(own) by {
                let m = out.clients[i];
                assert(out.clients.contains(m));
                mid.lemma_upsert_members(last, m);
                if m != last {
                    let k = choose|k: int| 0 <= k < mid.clients.len() && mid.clients[k] == m;
                    assert(mid.clients[k].client != Client::IsNetworked(own));
                }
            }
            assert forall|m: Machine| #[trigger]
                out.clients.contains(m) <==> (entries.contains(m) || (self.clients.contains(m)
                    && !has_tag(entries, m.client))) by {
                mid.lemma_upsert_members(last, m);
                assert(mid.clients.contains(m) <==> (rest.contains(m) || (self.clients.contains(m)
                    && !has_tag(rest, m.client))));
                if rest.contains(m) {
                    let i = choose|i: int| 0 <= i < rest.len() && rest[i] == m;
                    assert(entries[i] == m);
                    assert(entries[i].client != entries[entries.len() - 1].client);
                }
                if entries.contains(m) && m != last {
                    let i = choose|i: int| 0 <= i < entries.len() && entries[i] == m;
                    assert(rest[i] == m);
                }
                if has_tag(rest, m.client) {
                    let i = choose|i: int|
                        0 <= i < rest.len() && (#[trigger] rest[i]).client == m.client;
                    assert(entries[i].client == m.client);
                }
                if has_tag(entries, m.client) && m.client != last.client {
                    let i = choose|i: int|
                        0 <= i < entries.len() && (#[trigger] entries[i]).client == m.client;
                    assert(rest[i].client == m.client);
                }
            }
        }
    }

    /// A well-formed row in which no peer has the local address is strictly
    /// ordered.
    pub proof fn lemma_strict_order(self, own: SocketAddrV4)
        requires
            self.wf(),
            self.own_ip == Some(own),
            Self::apart_from(self.clients, own),
        ensures
            strictly_sorted_by(self.clients, machine_key(own)),
    {
        let key = machine_key(own);
        assert forall|i: int, j: int| 0 <= i < j < self.clients.len() implies key(self.clients[i])
            < key(self.clients[j]) by {
            let a = self.clients[i];
            let b = self.clients[j];
            assert(key(a) <= key(b));
            if key(a) == key(b) {
                lemma_rank_injective(address_of(a.client, own), address_of(b.client, own));
                assert(a.client == b.client);
            }
        }
    }

    /// Whatever the order in which a set of peers' layouts arrives, the row
    /// ends up the same: for a row that knows the local address, and entries
    /// of peers whose addresses differ from each other and from the local
    /// one, two runs that hold the same entries lead to the same row.
    pub proof fn law_upsert_order_converges(self, first: Seq<Machine>, second: Seq<Machine>)
        requires
            self.wf(),
            self.own_ip is Some,
            Self::apart_from(self.clients, self.own_ip->0),
            Self::apart_from(first, self.own_ip->0),
            distinct_tags(first),
            distinct_tags(second),
            forall|m: Machine| first.contains(m) <==> second.contains(m),
        ensures
            self.upsert_all(first) == self.upsert_all(second),
    {
        let own = self.own_ip->0;
        assert forall|i: int| 0 <= i < second.len() implies (#[trigger] second[i]).client
            != Client::IsNetworked(own) by {
            assert(second.contains(second[i]));
            let k = choose|k: int| 0 <= k < first.len() && first[k] == second[i];
            assert(first[k].client != Client::IsNetworked(own));
        }
        self.lemma_upsert_all(first, own);
        self.lemma_upsert_all(second, own);
        let a = self.upsert_all(first);
        let b = self.upsert_all(second);
        a.lemma_strict_order(own);
        b.lemma_strict_order(own);
        assert forall|m: Machine| a.clients.contains(m) <==> b.clients.contains(m) by {
            lemma_same_members_same_tags(first, second, m.client);
        }
        lemma_strictly_sorted_unique(a.clients, b.clients, machine_key(own));
    }

    /// A position that belongs to the local machine comes back unchanged
    /// when it is mapped to the local desktop and back, provided the local
    /// machine has a single monitor.
    pub proof fn law_coordinate_round_trip(self, global: MousePosition)
        requires
            self.wf(),
            self.local_position_of(global) is Some,
            self.local_position_of(global)->0.client is IsSelf,
            forall|c: int|
                0 <= c < self.clients.len() && (#[trigger] self.clients[c]).client is IsSelf
                    ==> self.clients[c].displays.len() == 1,
        ensures
            self.global_position_of(self.local_position_of(global)->0.mouse_position) == Some(
                global,
            ),
    {
        let (c, k) = choose|c: int, k: int| self.covers(c, k, global.x as int);
        let local = self.local_position_of(global)->0.mouse_position;
        assert(self.local_position_of(global) == self.position_on(c, k, global));
        assert(self.clients[c].client is IsSelf);
        assert(k == 0);
        assert(self.local_hit(c, k, local));
        assert forall|c2: int, k2: int|
            (c2 < c || (c2 == c && k2 < k)) implies !#[trigger] self.local_hit(c2, k2, local) by {
            if self.local_hit(c2, k2, local) {
                assert(self.clients[c2].client == self.clients[c].client);
            }
        }
        self.lemma_global_position_at(c, k, local);
    }
}

} // verus!