//! The routing table: for each destination one entry, with the cost to
//! reach it and the link to send on.

use crate::addr::VirtualIp;
use crate::protocol::rip::{RipEntry, HOST_MASK, INFINITY};
use vstd::prelude::*;

verus! {

/// The largest number of entries: as many as a routing message can carry
/// in one datagram.
pub const MAX_ROUTES: usize = 5459;

/// One entry of the table.
#[derive(Clone, Copy, Debug, PartialEq, Eq, Structural)]
pub struct Route {
    pub dst: VirtualIp,
    /// The number of hops, from 0 to 16; 16 stands for unreachable.
    pub cost: u32,
    pub next_hop: VirtualIp,
    /// The link that the route was learned on; `None` for a local interface.
    pub link: Option<usize>,
    pub last_update_time: u64,
    pub is_local: bool,
}

/// The table.
pub struct RouteTable {
    pub routes: Vec<Route>,
}

/// The index of the first entry for `dst` at or after `i`, or the length.
pub open spec fn route_from(routes: Seq<Route>, dst: VirtualIp, i: int) -> int
    decreases routes.len() - i,
{
    if i < 0 || i >= routes.len() {
        routes.len() as int
    } else if routes[i].dst == dst {
        i
    } else {
        route_from(routes, dst, i + 1)
    }
}

/// The index of the entry for `dst`, if there is one.
pub open spec fn route_index(routes: Seq<Route>, dst: VirtualIp) -> Option<int> {
    if route_from(routes, dst, 0) < routes.len() {
        Some(route_from(routes, dst, 0))
    } else {
        None
    }
}

/// Whether no two entries are for one destination.
pub open spec fn distinct_destinations(routes: Seq<Route>) -> bool {
    forall|i: int, j: int|
        0 <= i < j < routes.len() ==> (#[trigger] routes[i]).dst != (#[trigger] routes[j]).dst
}

/// Whether every entry is as an entry may be: a cost of at most 16, and a
/// local interface at cost 0 without a link.
pub open spec fn entries_valid(routes: Seq<Route>) -> bool {
    forall|i: int|
        0 <= i < routes.len() ==> (#[trigger] routes[i]).cost <= INFINITY && (routes[i].is_local
            <==> routes[i].link is None) && (routes[i].is_local ==> routes[i].cost == 0)
}

/// The cost of a route that a neighbour advertises at `cost`: one more, but
/// at most 16.
pub open spec fn cost_via(cost: u32) -> u32 {
    if cost >= INFINITY - 1 {
        INFINITY
    } else {
        (cost + 1) as u32
    }
}

/// Whether an entry has not been refreshed for longer than `max_age`.
pub open spec fn is_stale(r: Route, now: u64, max_age: u64) -> bool {
    now - r.last_update_time > max_age
}

/// Whether an advertisement replaces the entry `r`: never a local interface;
/// else where it lowers the cost, comes on the link that the entry was
/// learned on, or finds the entry stale.
pub open spec fn replaces(r: Route, link: usize, new_cost: u32, now: u64, max_age: u64) -> bool {
    !r.is_local && (new_cost < r.cost || r.link == Some(link) || is_stale(r, now, max_age))
}

/// The entry that an advertisement of `dst` at `cost`, heard on `link`
/// from `next_hop` at `now`, stands for.
pub open spec fn learned(dst: VirtualIp, cost: u32, link: usize, next_hop: VirtualIp, now: u64) -> Route {
    Route {
        dst,
        cost: cost_via(cost),
        next_hop,
        link: Some(link),
        last_update_time: now,
        is_local: false,
    }
}

/// The table after one advertised entry: an entry that it replaces is
/// replaced; an unknown destination is added where it is reachable and the
/// table has room; anything else stays.
pub open spec fn spec_apply_one(
    routes: Seq<Route>,
    link: usize,
    next_hop: VirtualIp,
    e: RipEntry,
    now: u64,
    max_age: u64,
) -> Seq<Route> {
    match route_index(routes, e.address) {
        Some(i) => if replaces(routes[i], link, cost_via(e.cost), now, max_age) {
            routes.update(i, learned(e.address, e.cost, link, next_hop, now))
        } else {
            routes
        },
        None => if cost_via(e.cost) < INFINITY && routes.len() < MAX_ROUTES {
            routes.push(learned(e.address, e.cost, link, next_hop, now))
        } else {
            routes
        },
    }
}

/// The table after the advertised entries `entries`, taken in order.
pub open spec fn spec_apply_update(
    routes: Seq<Route>,
    link: usize,
    next_hop: VirtualIp,
    entries: Seq<RipEntry>,
    now: u64,
    max_age: u64,
) -> Seq<Route>
    decreases entries.len(),
{
    if entries.len() == 0 {
        routes
    } else {
        spec_apply_one(
            spec_apply_update(routes, link, next_hop, entries.drop_last(), now, max_age),
            link,
            next_hop,
            entries.last(),
            now,
            max_age,
        )
    }
}

/// Whether the cost to any destination changes while the advertised entries
/// `entries` are taken in order.
pub open spec fn spec_update_changed(
    routes: Seq<Route>,
    link: usize,
    next_hop: VirtualIp,
    entries: Seq<RipEntry>,
    now: u64,
    max_age: u64,
) -> bool
    decreases entries.len(),
{
    if entries.len() == 0 {
        false
    } else {
        let before = spec_apply_update(routes, link, next_hop, entries.drop_last(), now, max_age);
        spec_update_changed(routes, link, next_hop, entries.drop_last(), now, max_age)
            || spec_cost_changed(
            before,
            spec_apply_one(before, link, next_hop, entries.last(), now, max_age),
            entries.last().address,
        )
    }
}

/// The route of a local interface with the address `vip`.
pub open spec fn local_route(vip: VirtualIp, now: u64) -> Route {
    Route { dst: vip, cost: 0, next_hop: vip, link: None, last_update_time: now, is_local: true }
}

/// The table after the route of a local interface has been added: an entry
/// for the address becomes that route; else the route is added where the
/// table has room.
pub open spec fn spec_add_local(routes: Seq<Route>, vip: VirtualIp, now: u64) -> Seq<Route> {
    match route_index(routes, vip) {
        Some(i) => routes.update(i, local_route(vip, now)),
        None => if routes.len() < MAX_ROUTES {
            routes.push(local_route(vip, now))
        } else {
            routes
        },
    }
}

/// What the table says of one entry on the link `link`: the entry's cost,
/// but 16 for what was learned on that very link.
pub open spec fn advertised(r: Route, link: usize) -> RipEntry {
    RipEntry {
        cost: if r.link == Some(link) {
            INFINITY
        } else {
            r.cost
        },
        address: r.dst,
        mask: HOST_MASK,
    }
}

/// What the table says on the link `link`: every entry, in order.
pub open spec fn spec_snapshot(routes: Seq<Route>, link: usize) -> Seq<RipEntry> {
    Seq::new(routes.len(), |i: int| advertised(routes[i], link))
}

/// Whether the sweep at `now` takes an entry out: it was learned, and it
/// has not been refreshed for longer than twice `max_age`.
pub open spec fn expired(r: Route, now: u64, max_age: u64) -> bool {
    !r.is_local && now - r.last_update_time > 2 * max_age
}

/// An entry after the sweep at `now`: one that was learned and has not been
/// refreshed for longer than `max_age` is unreachable.
pub open spec fn aged(r: Route, now: u64, max_age: u64) -> Route {
    if !r.is_local && is_stale(r, now, max_age) {
        Route { cost: INFINITY, ..r }
    } else {
        r
    }
}

/// The table after the sweep at `now`.
pub open spec fn spec_expire(routes: Seq<Route>, now: u64, max_age: u64) -> Seq<Route>
    decreases routes.len(),
{
    if routes.len() == 0 {
        routes
    } else if expired(routes.last(), now, max_age) {
        spec_expire(routes.drop_last(), now, max_age)
    } else {
        spec_expire(routes.drop_last(), now, max_age).push(aged(routes.last(), now, max_age))
    }
}

/// An entry after the link `link` has gone down: what was learned on it
/// is unreachable.
pub open spec fn without_link(r: Route, link: usize) -> Route {
    if r.link == Some(link) {
        Route { cost: INFINITY, ..r }
    } else {
        r
    }
}

pub proof fn lemma_route_from(routes: Seq<Route>, dst: VirtualIp, i: int)
    requires
        0 <= i <= routes.len(),
    ensures
        i <= route_from(routes, dst, i) <= routes.len(),
        forall|k: int| i <= k < route_from(routes, dst, i) ==> (#[trigger] routes[k]).dst != dst,
        route_from(routes, dst, i) < routes.len() ==> routes[route_from(routes, dst, i)].dst == dst,
    decreases routes.len() - i,
{
    if i < routes.len() && routes[i].dst != dst {
        lemma_route_from(routes, dst, i + 1);
    }
}

/// One advertised entry leaves the table well-formed.
pub proof fn lemma_apply_one_wf(
    routes: Seq<Route>,
    link: usize,
    next_hop: VirtualIp,
    e: RipEntry,
    now: u64,
    max_age: u64,
)
    requires
        distinct_destinations(routes),
        entries_valid(routes),
        routes.len() <= MAX_ROUTES,
    ensures
        distinct_destinations(spec_apply_one(routes, link, next_hop, e, now, max_age)),
        entries_valid(spec_apply_one(routes, link, next_hop, e, now, max_age)),
        spec_apply_one(routes, link, next_hop, e, now, max_age).len() <= MAX_ROUTES,
{
    lemma_route_from(routes, e.address, 0);
    let after = spec_apply_one(routes, link, next_hop, e, now, max_age);
    assert forall|i: int, j: int| 0 <= i < j < after.len() implies (#[trigger] after[i]).dst != (
    #[trigger] after[j]).dst by {
        if i < routes.len() {
            assert(after[i].dst == routes[i].dst);
        }
        if j < routes.len() {
            assert(after[j].dst == routes[j].dst);
        }
    }
    assert forall|i: int| 0 <= i < after.len() implies (#[trigger] after[i]).cost <= INFINITY && (
    after[i].is_local <==> after[i].link is None) && (after[i].is_local ==> after[i].cost == 0) by {
        if i < routes.len() && after[i] == routes[i] {
            assert(routes[i].cost <= INFINITY);
        }
    }
}

impl RouteTable {
    /// No two entries are for one destination, every entry is as an entry
    /// may be, and the table fits one routing message.
    pub open spec fn wf(&self) -> bool {
        &&& distinct_destinations(self.routes@)
        &&& entries_valid(self.routes@)
        &&& self.routes@.len() <= MAX_ROUTES
    }

    /// An empty table.
    pub fn new() -> (t: Self)
        ensures
            t.wf(),
            t.routes@.len() == 0,
    {
        RouteTable { routes: Vec::new() }
    }

    /// The index of the entry for `dst`.
    pub fn index_of(&self, dst: VirtualIp) -> (r: Option<usize>)
        ensures
            match r {
                Some(i) => route_index(self.routes@, dst) == Some(i as int) && i
                    < self.routes@.len() && self.routes@[i as int].dst == dst,
                None => route_index(self.routes@, dst) is None && forall|k: int|
                    0 <= k < self.routes@.len() ==> (#[trigger] self.routes@[k]).dst != dst,
            },
    {
        let mut i: usize = 0;
        proof {
            lemma_route_from(self.routes@, dst, 0);
        }
        while i < self.routes.len()
            invariant
                i <= self.routes@.len(),
                route_from(self.routes@, dst, i as int) == route_from(self.routes@, dst, 0),
                forall|k: int| 0 <= k < i ==> (#[trigger] self.routes@[k]).dst != dst,
            decreases self.routes@.len() - i,
        {
            if self.routes[i].dst == dst {
                return Some(i);
            }
            i += 1;
        }
        None
    }

    /// Adds the route of a local interface with the address `vip`, at cost
    /// 0. Where the table has an entry for `vip`, the entry becomes that
    /// route. Says whether the table has the route afterwards; it has not
    /// where the table is full.
    pub fn add_local(&mut self, vip: VirtualIp, now: u64) -> (added: bool)
        requires
            old(self).wf(),
        ensures
            final(self).wf(),
            final(self).routes@ == spec_add_local(old(self).routes@, vip, now),
            added == (route_index(old(self).routes@, vip) is Some || old(self).routes@.len()
                < MAX_ROUTES),
    {
        let r = Route {
            dst: vip,
            cost: 0,
            next_hop: vip,
            link: None,
            last_update_time: now,
            is_local: true,
        };
        match self.index_of(vip) {
            Some(i) => {
                self.routes.set(i, r);
                true
            },
            None => {
                if self.routes.len() < MAX_ROUTES {
                    self.routes.push(r);
                    true
                } else {
                    false
                }
            },
        }
    }

    /// Where to send a datagram for `dst`: the link and the next hop of the
    /// entry for exactly `dst`, where that entry was learned on a link and
    /// is reachable.
    pub fn lookup(&self, dst: VirtualIp) -> (r: Option<(usize, VirtualIp)>)
        ensures
            r == spec_lookup(self.routes@, dst),
    {
        match self.index_of(dst) {
            Some(i) => {
                let e = self.routes[i];
                match e.link {
                    Some(link) => if e.cost < INFINITY {
                        Some((link, e.next_hop))
                    } else {
                        None
                    },
                    None => None,
                }
            },
            None => None,
        }
    }

    /// Whether `dst` is the address of a local interface.
    pub fn is_local(&self, dst: VirtualIp) -> (r: bool)
        ensures
            r == spec_is_local(self.routes@, dst),
    {
        match self.index_of(dst) {
            Some(i) => self.routes[i].is_local,
            None => false,
        }
    }

    fn cost_through(cost: u32) -> (c: u32)
        ensures
            c == cost_via(cost),
    {
        if cost >= INFINITY - 1 {
            INFINITY
        } else {
            cost + 1
        }
    }

    /// Takes one advertised entry, heard on `link` from `next_hop` at
    /// `now`. Says whether the cost to the destination changed.
    #[verifier::rlimit(30)]
    pub fn apply_one(
        &mut self,
        link: usize,
        next_hop: VirtualIp,
        e: &RipEntry,
        now: u64,
        max_age: u64,
    ) -> (changed: bool)
        requires
            old(self).wf(),
        ensures
            final(self).wf(),
            final(self).routes@
                == spec_apply_one(old(self).routes@, link, next_hop, *e, now, max_age),
            changed == spec_cost_changed(old(self).routes@, final(self).routes@, e.address),
    {
        proof {
            lemma_apply_one_wf(self.routes@, link, next_hop, *e, now, max_age);
            lemma_route_from(self.routes@, e.address, 0);
        }
        let new_cost = Self::cost_through(e.cost);
        let fresh = Route {
            dst: e.address,
            cost: new_cost,
            next_hop,
            link: Some(link),
            last_update_time: now,
            is_local: false,
        };
        match self.index_of(e.address) {
            Some(i) => {
                let r = self.routes[i];
                let same_link = match r.link {
                    Some(l) => l == link,
                    None => false,
                };
                let stale = now > r.last_update_time && now - r.last_update_time > max_age;
                if !r.is_local && (new_cost < r.cost || same_link || stale) {
                    self.routes.set(i, fresh);
                    proof {
                        lemma_route_from(self.routes@, e.address, 0);
                        let j = route_from(self.routes@, e.address, 0);
                        assert(self.routes@[i as int] == fresh);
                        assert(route_from(old(self).routes@, e.address, 0) == i);
                        if j < i {
                            assert(self.routes@[j] == old(self).routes@[j]);
                            assert(old(self).routes@[j].dst != e.address);
                        }
                        assert(j == i);
                        assert(route_index(self.routes@, e.address) == Some(i as int));
                    }
                    r.cost != new_cost
                } else {
                    false
                }
            },
            None => {
                if new_cost < INFINITY && self.routes.len() < MAX_ROUTES {
                    self.routes.push(fresh);
                    proof {
                        lemma_route_from(self.routes@, e.address, 0);
                        assert(forall|k: int|
                            0 <= k < old(self).routes@.len() ==> (#[trigger] self.routes@[k])
                                == old(self).routes@[k]);
                        let n = old(self).routes@.len() as int;
                        let j = route_from(self.routes@, e.address, 0);
                        assert(self.routes@[n] == fresh);
                        if j < n {
                            assert(old(self).routes@[j].dst != e.address);
                        }
                        assert(route_index(self.routes@, e.address) == Some(n));
                    }
                    true
                } else {
                    false
                }
            },
        }
    }

    /// Takes the entries of a routing message, heard on `learned_from_link`
    /// from `next_hop` at `now`, in order. Says whether the cost to any
    /// destination changed.
    pub fn apply_update(
        &mut self,
        learned_from_link: usize,
        next_hop: VirtualIp,
        entries: &[RipEntry],
        now: u64,
        max_age: u64,
    ) -> (changed: bool)
        requires
            old(self).wf(),
        ensures
            final(self).wf(),
            final(self).routes@ == spec_apply_update(
                old(self).routes@,
                learned_from_link,
                next_hop,
                entries@,
                now,
                max_age,
            ),
            changed == spec_update_changed(
                old(self).routes@,
                learned_from_link,
                next_hop,
                entries@,
                now,
                max_age,
            ),
    {
        let mut changed = false;
        let mut i: usize = 0;
        assert(entries@.take(0) =~= Seq::empty());
        while i < entries.len()
            invariant
                i <= entries@.len(),
                self.wf(),
                self.routes@ == spec_apply_update(
                    old(self).routes@,
                    learned_from_link,
                    next_hop,
                    entries@.take(i as int),
                    now,
                    max_age,
                ),
                changed == spec_update_changed(
                    old(self).routes@,
                    learned_from_link,
                    next_hop,
                    entries@.take(i as int),
                    now,
                    max_age,
                ),
            decreases entries@.len() - i,
        {
            assert(entries@.take(i + 1).drop_last() == entries@.take(i as int));
            let c = self.apply_one(learned_from_link, next_hop, &entries[i], now, max_age);
            changed = changed || c;
            i += 1;
        }
        assert(entries@.take(i as int) == entries@);
        changed
    }

    /// What to say on the link `link_index`: every entry at its cost, but
    /// at 16 what was learned on that very link (split horizon with poison
    /// reverse).
    pub fn snapshot_for(&self, link_index: usize) -> (entries: Vec<RipEntry>)
        requires
            self.wf(),
        ensures
            entries@ == spec_snapshot(self.routes@, link_index),
            entries@.len() <= MAX_ROUTES,
    {
        let mut entries: Vec<RipEntry> = Vec::new();
        let mut i: usize = 0;
        while i < self.routes.len()
            invariant
                i <= self.routes@.len(),
                entries@ == spec_snapshot(self.routes@, link_index).take(i as int),
            decreases self.routes@.len() - i,
        {
            let r = self.routes[i];
            let poisoned = match r.link {
                Some(l) => l == link_index,
                None => false,
            };
            entries.push(
                RipEntry {
                    cost: if poisoned {
                        INFINITY
                    } else {
                        r.cost
                    },
                    address: r.dst,
                    mask: HOST_MASK,
                },
            );
            i += 1;
            assert(entries@ =~= spec_snapshot(self.routes@, link_index).take(i as int));
        }
        assert(entries@ =~= spec_snapshot(self.routes@, link_index));
        entries
    }

    /// Sweeps the table at `now`: what was learned and has not been
    /// refreshed for longer than `max_age` becomes unreachable, and what has
    /// not been refreshed for longer than twice `max_age` leaves the table.
    pub fn expire(&mut self, now: u64, max_age: u64)
        requires
            old(self).wf(),
        ensures
            final(self).wf(),
            final(self).routes@ == spec_expire(old(self).routes@, now, max_age),
    {
        let mut kept: Vec<Route> = Vec::new();
        let mut i: usize = 0;
        assert(self.routes@.take(0) =~= Seq::empty());
        while i < self.routes.len()
            invariant
                i <= self.routes@.len(),
                self.routes@ == old(self).routes@,
                kept@ == spec_expire(self.routes@.take(i as int), now, max_age),
            decreases self.routes@.len() - i,
        {
            assert(self.routes@.take(i + 1).drop_last() == self.routes@.take(i as int));
            let r = self.routes[i];
            let age: u64 = if now > r.last_update_time {
                now - r.last_update_time
            } else {
                0
            };
            let gone = !r.is_local && match max_age.checked_mul(2) {
                Some(limit) => age > limit,
                None => false,
            };
            if !gone {
                if !r.is_local && age > max_age {
                    kept.push(Route { cost: INFINITY, ..r });
                } else {
                    kept.push(r);
                }
            }
            i += 1;
        }
        assert(self.routes@.take(i as int) == self.routes@);
        proof {
            lemma_expire_wf(self.routes@, now, max_age);
        }
        self.routes = kept;
    }

    /// Notes that the link `link` has gone down: what was learned on it
    /// becomes unreachable at once, and stays in the table to be advertised
    /// as such.
    pub fn link_down(&mut self, link: usize)
        requires
            old(self).wf(),
        ensures
            final(self).wf(),
            final(self).routes@ == old(self).routes@.map_values(|r: Route| without_link(r, link)),
    {
        let mut i: usize = 0;
        let ghost target = self.routes@.map_values(|r: Route| without_link(r, link));
        while i < self.routes.len()
            invariant
                i <= self.routes@.len(),
                self.routes@.len() == old(self).routes@.len(),
                target == old(self).routes@.map_values(|r: Route| without_link(r, link)),
                forall|k: int| 0 <= k < i ==> self.routes@[k] == target[k],
                forall|k: int| i <= k < self.routes@.len()
                    ==> self.routes@[k] == old(self).routes@[k],
            decreases self.routes@.len() - i,
        {
            let r = self.routes[i];
            let via = match r.link {
                Some(l) => l == link,
                None => false,
            };
            if via {
                self.routes.set(i, Route { cost: INFINITY, ..r });
            }
            i += 1;
        }
        assert(self.routes@ =~= target);
        proof {
            assert forall|a: int, b: int| 0 <= a < b < target.len() implies (#[trigger] target[a]).dst
                != (#[trigger] target[b]).dst by {
                assert(old(self).routes@[a].dst != old(self).routes@[b].dst);
            }
            assert forall|a: int| 0 <= a < target.len() implies (#[trigger] target[a]).cost
                <= INFINITY && (target[a].is_local <==> target[a].link is None) && (
            target[a].is_local ==> target[a].cost == 0) by {
                assert(old(self).routes@[a].cost <= INFINITY);
            }
        }
    }
}

/// Where the table sends a datagram for `dst`.
pub open spec fn spec_lookup(routes: Seq<Route>, dst: VirtualIp) -> Option<(usize, VirtualIp)> {
    match route_index(routes, dst) {
        Some(i) => if routes[i].link is Some && routes[i].cost < INFINITY {
            Some((routes[i].link->0, routes[i].next_hop))
        } else {
            None
        },
        None => None,
    }
}

/// Whether `dst` is the address of a local interface.
pub open spec fn spec_is_local(routes: Seq<Route>, dst: VirtualIp) -> bool {
    match route_index(routes, dst) {
        Some(i) => routes[i].is_local,
        None => false,
    }
}

/// The cost at which a table reaches `dst`; 16 for a destination that it
/// does not know.
pub open spec fn cost_to(routes: Seq<Route>, dst: VirtualIp) -> u32 {
    match route_index(routes, dst) {
        Some(i) => routes[i].cost,
        None => INFINITY,
    }
}

/// Whether the cost to `dst` differs between two tables.
pub open spec fn spec_cost_changed(before: Seq<Route>, after: Seq<Route>, dst: VirtualIp) -> bool {
    cost_to(before, dst) != cost_to(after, dst)
}

/// The sweep keeps the order of the entries that stay, ages each of them,
/// and leaves the table well-formed.
#[verifier::rlimit(40)]
pub proof fn lemma_expire_wf(routes: Seq<Route>, now: u64, max_age: u64)
    requires
        distinct_destinations(routes),
        entries_valid(routes),
        routes.len() <= MAX_ROUTES,
    ensures
        distinct_destinations(spec_expire(routes, now, max_age)),
        entries_valid(spec_expire(routes, now, max_age)),
        spec_expire(routes, now, max_age).len() <= routes.len(),
        forall|k: int|
            0 <= k < spec_expire(routes, now, max_age).len() ==> exists|j: int|
                0 <= j < routes.len() && !expired(routes[j], now, max_age)
                    && (#[trigger] spec_expire(
                    routes,
                    now,
                    max_age,
                )[k]) == aged(routes[j], now, max_age),
    decreases routes.len(),
{
    if routes.len() > 0 {
        let front = routes.drop_last();
        assert forall|i: int, j: int| 0 <= i < j < front.len() implies (#[trigger] front[i]).dst != (
        #[trigger] front[j]).dst by {
            assert(routes[i].dst != routes[j].dst);
        }
        assert forall|i: int| 0 <= i < front.len() implies (#[trigger] front[i]).cost <= INFINITY && (
        front[i].is_local <==> front[i].link is None) && (front[i].is_local ==> front[i].cost
            == 0) by {
            assert(routes[i].cost <= INFINITY);
        }
        lemma_expire_wf(front, now, max_age);
        let before = spec_expire(front, now, max_age);
        let after = spec_expire(routes, now, max_age);
        assert forall|k: int| 0 <= k < after.len() implies exists|j: int|
            0 <= j < routes.len() && !expired(routes[j], now, max_age) && (#[trigger] after[k])
                == aged(routes[j], now, max_age) by {
            if k < before.len() {
                let j = choose|j: int|
                    0 <= j < front.len() && !expired(front[j], now, max_age) && before[k] == aged(
                        front[j],
                        now,
                        max_age,
                    );
                assert(routes[j] == front[j]);
            } else {
                assert(after[k] == aged(routes[routes.len() - 1], now, max_age));
            }
        }
        assert forall|i: int, j: int| 0 <= i < j < after.len() implies (#[trigger] after[i]).dst != (
        #[trigger] after[j]).dst by {
            if j < before.len() {
            } else {
                let m = choose|m: int|
                    0 <= m < front.len() && !expired(front[m], now, max_age) && before[i] == aged(
                        front[m],
                        now,
                        max_age,
                    );
                assert(routes[m].dst != routes[routes.len() - 1].dst);
            }
        }
        assert forall|i: int| 0 <= i < after.len() implies (#[trigger] after[i]).cost <= INFINITY && (
        after[i].is_local <==> after[i].link is None) && (after[i].is_local ==> after[i].cost
            == 0) by {
            if i < before.len() {
            } else {
                assert(routes[routes.len() - 1].cost <= INFINITY);
            }
        }
    }
}

/// A table never holds two entries for one destination: of a well-formed
/// table any two entries differ in their destinations, and every operation
/// of the table keeps it well-formed.
pub proof fn lemma_one_entry_per_destination(t: RouteTable, i: int, j: int)
    requires
        t.wf(),
        0 <= i < t.routes@.len(),
        0 <= j < t.routes@.len(),
        i != j,
    ensures
        t.routes@[i].dst != t.routes@[j].dst,
{
    if i < j {
        assert(t.routes@[i].dst != t.routes@[j].dst);
    } else {
        assert(t.routes@[j].dst != t.routes@[i].dst);
    }
}

/// Taking the entries of a routing message keeps the table well-formed.
pub proof fn lemma_apply_update_wf(
    routes: Seq<Route>,
    link: usize,
    next_hop: VirtualIp,
    entries: Seq<RipEntry>,
    now: u64,
    max_age: u64,
)
    requires
        distinct_destinations(routes),
        entries_valid(routes),
        routes.len() <= MAX_ROUTES,
    ensures
        distinct_destinations(spec_apply_update(routes, link, next_hop, entries, now, max_age)),
        entries_valid(spec_apply_update(routes, link, next_hop, entries, now, max_age)),
        spec_apply_update(routes, link, next_hop, entries, now, max_age).len() <= MAX_ROUTES,
    decreases entries.len(),
{
    if entries.len() > 0 {
        lemma_apply_update_wf(routes, link, next_hop, entries.drop_last(), now, max_age);
        lemma_apply_one_wf(
            spec_apply_update(routes, link, next_hop, entries.drop_last(), now, max_age),
            link,
            next_hop,
            entries.last(),
            now,
            max_age,
        );
    }
}

/// Split horizon: what is said on a link never gives the true cost of a
/// destination that was learned on that link. Such a destination is said at
/// 16, every other one at its cost, and each entry of the table is said once,
/// for its own destination.
pub proof fn lemma_split_horizon(routes: Seq<Route>, link: usize, k: int)
    requires
        0 <= k < routes.len(),
    ensures
        spec_snapshot(routes, link).len() == routes.len(),
        spec_snapshot(routes, link)[k].address == routes[k].dst,
        routes[k].link == Some(link) ==> spec_snapshot(routes, link)[k].cost == INFINITY,
        routes[k].link != Some(link) ==> spec_snapshot(routes, link)[k].cost == routes[k].cost,
        routes[k].is_local && entries_valid(routes) ==> spec_snapshot(routes, link)[k].cost == 0,
{
}

/// One hop of convergence: when a neighbour says that it reaches `e.address`
/// at a cost below 15, and the address is not one of this node's own, then
/// after the entry has been taken this node reaches the address at a
/// finite cost, at most one more than the neighbour's, provided that the
/// table knew the address or had room for it.
pub proof fn lemma_advertised_route_is_learned(
    routes: Seq<Route>,
    link: usize,
    next_hop: VirtualIp,
    e: RipEntry,
    now: u64,
    max_age: u64,
)
    requires
        distinct_destinations(routes),
        entries_valid(routes),
        e.cost < INFINITY - 1,
        !spec_is_local(routes, e.address),
        route_index(routes, e.address) is Some || routes.len() < MAX_ROUTES,
    ensures
        cost_to(spec_apply_one(routes, link, next_hop, e, now, max_age), e.address) <= e.cost + 1,
        cost_to(spec_apply_one(routes, link, next_hop, e, now, max_age), e.address) < INFINITY,
{
    lemma_route_from(routes, e.address, 0);
    let after = spec_apply_one(routes, link, next_hop, e, now, max_age);
    lemma_route_from(after, e.address, 0);
    match route_index(routes, e.address) {
        Some(i) => {
            let j = route_from(after, e.address, 0);
            assert(after[i].dst == e.address);
            if j < i {
                assert(after[j] == routes[j]);
                assert(routes[j].dst != e.address);
            }
            assert(j == i);
        },
        None => {
            let n = routes.len() as int;
            let j = route_from(after, e.address, 0);
            assert(after[n].dst == e.address);
            if j < n {
                assert(after[j] == routes[j]);
                assert(routes[j].dst != e.address);
            }
            assert(j == n);
        },
    }
}

/// Withdrawal at the link: after a link has gone down, every entry that
/// was learned on it is unreachable, and every other entry is as it was.
pub proof fn lemma_link_down_prunes(routes: Seq<Route>, link: usize, k: int)
    requires
        0 <= k < routes.len(),
    ensures
        routes.map_values(|r: Route| without_link(r, link)).len() == routes.len(),
        routes[k].link == Some(link) ==> routes.map_values(|r: Route| without_link(r, link))[k].cost
            == INFINITY,
        routes[k].link != Some(link) ==> routes.map_values(|r: Route| without_link(r, link))[k]
            == routes[k],
        routes.map_values(|r: Route| without_link(r, link))[k].dst == routes[k].dst,
{
}

/// Withdrawal by age: after the sweep at `now`, no entry that was learned
/// and has not been refreshed for longer than `max_age` is reachable, and
/// none that has not been refreshed for longer than twice `max_age` is left.
pub proof fn lemma_expire_prunes(routes: Seq<Route>, now: u64, max_age: u64, k: int)
    requires
        distinct_destinations(routes),
        entries_valid(routes),
        routes.len() <= MAX_ROUTES,
        0 <= k < spec_expire(routes, now, max_age).len(),
    ensures
        ({
            let r = spec_expire(routes, now, max_age)[k];
            &&& !r.is_local && is_stale(r, now, max_age) ==> r.cost == INFINITY
            &&& !expired(r, now, max_age)
        }),
{
    lemma_expire_wf(routes, now, max_age);
    let after = spec_expire(routes, now, max_age);
    let j = choose|j: int|
        0 <= j < routes.len() && !expired(routes[j], now, max_age) && after[k] == aged(
            routes[j],
            now,
            max_age,
        );
    assert(after[k] == aged(routes[j], now, max_age));
}

/// An advertised entry for one destination leaves the cost to every other
/// destination as it is, and makes no destination local that was not.
pub proof fn lemma_apply_one_elsewhere(
    routes: Seq<Route>,
    link: usize,
    next_hop: VirtualIp,
    e: RipEntry,
    now: u64,
    max_age: u64,
    dst: VirtualIp,
)
    requires
        e.address != dst,
    ensures
        route_index(spec_apply_one(routes, link, next_hop, e, now, max_age), dst) == route_index(
            routes,
            dst,
        ),
        cost_to(spec_apply_one(routes, link, next_hop, e, now, max_age), dst) == cost_to(
            routes,
            dst,
        ),
        spec_is_local(spec_apply_one(routes, link, next_hop, e, now, max_age), dst)
            == spec_is_local(routes, dst),
{
    let after = spec_apply_one(routes, link, next_hop, e, now, max_age);
    lemma_route_from(routes, e.address, 0);
    lemma_route_from(routes, dst, 0);
    lemma_route_from(after, dst, 0);
    let i = route_from(routes, dst, 0);
    let j = route_from(after, dst, 0);
    if i < routes.len() {
        assert(after[i].dst == dst);
    }
    if j < after.len() {
        if j < routes.len() {
            assert(routes[j].dst == after[j].dst || after[j].dst == e.address);
        } else {
            assert(after[j].dst == e.address);
        }
    }
    if j < i {
        assert(routes[j].dst != dst);
    }
    if i < j {
        assert(after[i].dst != dst);
    }
}

/// One round of convergence: a node hears what a neighbour says on the
/// link between them. If the neighbour reaches a destination at a cost
/// below 15 and did not learn it on that very link, and the destination is
/// not an address of the hearing node, then afterwards the hearing node
/// reaches the destination at a finite cost, at most one more than the
/// neighbour's, provided that its table has room for what it hears. So each
/// round of advertisements carries every route one hop further from where
/// it begins.
pub proof fn lemma_round_of_convergence(
    hearer: Seq<Route>,
    speaker: Seq<Route>,
    link_at_hearer: usize,
    link_at_speaker: usize,
    next_hop: VirtualIp,
    k: int,
    now: u64,
    max_age: u64,
)
    requires
        distinct_destinations(hearer),
        entries_valid(hearer),
        distinct_destinations(speaker),
        0 <= k < speaker.len(),
        speaker[k].cost < INFINITY - 1,
        speaker[k].link != Some(link_at_speaker),
        !spec_is_local(hearer, speaker[k].dst),
        hearer.len() + speaker.len() <= MAX_ROUTES,
    ensures
        cost_to(
            spec_apply_update(
                hearer,
                link_at_hearer,
                next_hop,
                spec_snapshot(speaker, link_at_speaker),
                now,
                max_age,
            ),
            speaker[k].dst,
        ) <= speaker[k].cost + 1,
        ({
            let heard = spec_apply_update(
                hearer,
                link_at_hearer,
                next_hop,
                spec_snapshot(speaker, link_at_speaker),
                now,
                max_age,
            );
            &&& distinct_destinations(heard)
            &&& entries_valid(heard)
            &&& heard.len() <= hearer.len() + speaker.len()
        }),
{
    let said = spec_snapshot(speaker, link_at_speaker);
    lemma_heard_prefix(hearer, speaker, link_at_hearer, link_at_speaker, next_hop, k, now, max_age, said.len() as int);
    assert(said.take(said.len() as int) == said);
}

/// The state of the hearing node after the first `n` entries of what the
/// neighbour says.
#[verifier::rlimit(40)]
proof fn lemma_heard_prefix(
    hearer: Seq<Route>,
    speaker: Seq<Route>,
    link_at_hearer: usize,
    link_at_speaker: usize,
    next_hop: VirtualIp,
    k: int,
    now: u64,
    max_age: u64,
    n: int,
)
    requires
        distinct_destinations(hearer),
        entries_valid(hearer),
        distinct_destinations(speaker),
        0 <= k < speaker.len(),
        speaker[k].cost < INFINITY - 1,
        speaker[k].link != Some(link_at_speaker),
        !spec_is_local(hearer, speaker[k].dst),
        hearer.len() + speaker.len() <= MAX_ROUTES,
        0 <= n <= speaker.len(),
    ensures
        ({
            let heard = spec_apply_update(
                hearer,
                link_at_hearer,
                next_hop,
                spec_snapshot(speaker, link_at_speaker).take(n),
                now,
                max_age,
            );
            &&& distinct_destinations(heard)
            &&& entries_valid(heard)
            &&& heard.len() <= hearer.len() + n
            &&& !spec_is_local(heard, speaker[k].dst)
            &&& n > k ==> cost_to(heard, speaker[k].dst) <= speaker[k].cost + 1
        }),
    decreases n,
{
    let said = spec_snapshot(speaker, link_at_speaker);
    let dst = speaker[k].dst;
    if n == 0 {
        assert(said.take(0) =~= Seq::<RipEntry>::empty());
    } else {
        lemma_heard_prefix(hearer, speaker, link_at_hearer, link_at_speaker, next_hop, k, now, max_age, n - 1);
        let before = spec_apply_update(
            hearer,
            link_at_hearer,
            next_hop,
            said.take(n - 1),
            now,
            max_age,
        );
        let e = said[n - 1];
        assert(said.take(n).drop_last() == said.take(n - 1));
        assert(said.take(n).last() == e);
        let heard = spec_apply_one(before, link_at_hearer, next_hop, e, now, max_age);
        assert(spec_apply_update(hearer, link_at_hearer, next_hop, said.take(n), now, max_age)
            == heard);
        assert(e == advertised(speaker[n - 1], link_at_speaker));
        lemma_apply_one_wf(before, link_at_hearer, next_hop, e, now, max_age);
        lemma_route_from(before, e.address, 0);
        assert(heard.len() <= before.len() + 1);
        if n - 1 == k {
            assert(e.address == dst && e.cost == speaker[k].cost);
            lemma_advertised_route_is_learned(before, link_at_hearer, next_hop, e, now, max_age);
            lemma_local_stays(before, link_at_hearer, next_hop, e, now, max_age);
        } else {
            assert(speaker[n - 1].dst != dst) by {
                if n - 1 < k {
                    assert(speaker[n - 1].dst != speaker[k].dst);
                } else {
                    assert(speaker[k].dst != speaker[n - 1].dst);
                }
            }
            lemma_apply_one_elsewhere(before, link_at_hearer, next_hop, e, now, max_age, dst);
        }
    }
}

/// An advertised entry makes no destination local, and none that was local
/// anything else.
pub proof fn lemma_local_stays(
    routes: Seq<Route>,
    link: usize,
    next_hop: VirtualIp,
    e: RipEntry,
    now: u64,
    max_age: u64,
)
    requires
        distinct_destinations(routes),
    ensures
        spec_is_local(spec_apply_one(routes, link, next_hop, e, now, max_age), e.address)
            == spec_is_local(routes, e.address),
{
    let after = spec_apply_one(routes, link, next_hop, e, now, max_age);
    lemma_route_from(routes, e.address, 0);
    lemma_route_from(after, e.address, 0);
    let i = route_from(routes, e.address, 0);
    let j = route_from(after, e.address, 0);
    if i < routes.len() {
        assert(after[i].dst == e.address);
        if j < i {
            assert(after[j] == routes[j]);
        }
        assert(j == i);
    } else {
        if j < routes.len() {
            assert(after[j] == routes[j]);
            assert(routes[j].dst != e.address);
        }
    }
}

/// Whether the table reaches nothing over the link `link`: every entry
/// that was learned on it is unreachable.
pub open spec fn none_reached_over(routes: Seq<Route>, link: usize) -> bool {
    forall|i: int|
        0 <= i < routes.len() && (#[trigger] routes[i]).link == Some(link) ==> routes[i].cost
            == INFINITY
}

/// An advertised entry that is heard on one link leaves the table
/// reaching nothing over another link over which it reached nothing.
pub proof fn lemma_apply_one_elsewhere_pruned(
    routes: Seq<Route>,
    link: usize,
    other: usize,
    next_hop: VirtualIp,
    e: RipEntry,
    now: u64,
    max_age: u64,
)
    requires
        none_reached_over(routes, link),
        other != link,
    ensures
        none_reached_over(spec_apply_one(routes, other, next_hop, e, now, max_age), link),
{
    lemma_route_from(routes, e.address, 0);
    let after = spec_apply_one(routes, other, next_hop, e, now, max_age);
    assert forall|i: int| 0 <= i < after.len() && (#[trigger] after[i]).link == Some(
        link,
    ) implies after[i].cost == INFINITY by {
        if i < routes.len() && after[i] == routes[i] {
            assert(routes[i].link == Some(link));
        }
    }
}

/// Withdrawal lasts: once a link has gone down, the table reaches nothing
/// over it, and that stays so through every later sweep and through all that
/// is heard on other links. A destination that was reached over the link can
/// become reachable again only by another link. (Nothing is heard on the
/// link itself while it is down: what arrives there is let go.)
pub proof fn lemma_down_link_stays_pruned(
    routes: Seq<Route>,
    link: usize,
    other: usize,
    next_hop: VirtualIp,
    entries: Seq<RipEntry>,
    now: u64,
    max_age: u64,
)
    requires
        distinct_destinations(routes),
        entries_valid(routes),
        routes.len() <= MAX_ROUTES,
        other != link,
    ensures
        none_reached_over(routes.map_values(|r: Route| without_link(r, link)), link),
        none_reached_over(routes, link) ==> none_reached_over(
            spec_expire(routes, now, max_age),
            link,
        ),
        none_reached_over(routes, link) ==> none_reached_over(
            spec_apply_update(routes, other, next_hop, entries, now, max_age),
            link,
        ),
    decreases entries.len(),
{
    if none_reached_over(routes, link) {
        lemma_expire_wf(routes, now, max_age);
        let swept = spec_expire(routes, now, max_age);
        assert forall|i: int| 0 <= i < swept.len() && (#[trigger] swept[i]).link == Some(
            link,
        ) implies swept[i].cost == INFINITY by {
            let j = choose|j: int|
                0 <= j < routes.len() && !expired(routes[j], now, max_age) && swept[i] == aged(
                    routes[j],
                    now,
                    max_age,
                );
            assert(routes[j].link == Some(link));
        }
        if entries.len() > 0 {
            lemma_down_link_stays_pruned(
                routes,
                link,
                other,
                next_hop,
                entries.drop_last(),
                now,
                max_age,
            );
            lemma_apply_one_elsewhere_pruned(
                spec_apply_update(routes, other, next_hop, entries.drop_last(), now, max_age),
                link,
                other,
                next_hop,
                entries.last(),
                now,
                max_age,
            );
        }
    }
}

/// In a table without two entries for one destination, an entry is found
/// under its destination.
pub proof fn lemma_index_of_route(routes: Seq<Route>, k: int)
    requires
        distinct_destinations(routes),
        0 <= k < routes.len(),
    ensures
        route_index(routes, routes[k].dst) == Some(k),
{
    lemma_route_from(routes, routes[k].dst, 0);
    let j = route_from(routes, routes[k].dst, 0);
    if j < k {
        assert(routes[j].dst != routes[k].dst);
    }
}

/// Looking a destination up goes by the destinations alone.
pub proof fn lemma_route_by_destinations(a: Seq<Route>, b: Seq<Route>, dst: VirtualIp, i: int)
    requires
        a.len() == b.len(),
        forall|k: int| 0 <= k < a.len() ==> (#[trigger] a[k]).dst == (#[trigger] b[k]).dst,
    ensures
        route_from(a, dst, i) == route_from(b, dst, i),
    decreases a.len() - i,
{
    if 0 <= i < a.len() && a[i].dst != dst {
        lemma_route_by_destinations(a, b, dst, i + 1);
    }
}

/// What the sweep does not take out is in the table afterwards, aged.
pub proof fn lemma_expire_keeps(routes: Seq<Route>, now: u64, max_age: u64, j: int)
    requires
        0 <= j < routes.len(),
        !expired(routes[j], now, max_age),
    ensures
        exists|k: int|
            0 <= k < spec_expire(routes, now, max_age).len() && #[trigger] spec_expire(
                routes,
                now,
                max_age,
            )[k] == aged(routes[j], now, max_age),
    decreases routes.len(),
{
    let front = routes.drop_last();
    let before = spec_expire(front, now, max_age);
    let after = spec_expire(routes, now, max_age);
    if j < routes.len() - 1 {
        lemma_expire_keeps(front, now, max_age, j);
        let k = choose|k: int|
            0 <= k < before.len() && #[trigger] before[k] == aged(front[j], now, max_age);
        assert(front[j] == routes[j]);
        if expired(routes.last(), now, max_age) {
            assert(after[k] == aged(routes[j], now, max_age));
        } else {
            assert(after[k] == before[k]);
            assert(after[k] == aged(routes[j], now, max_age));
        }
    } else {
        let k = before.len() as int;
        assert(after[k] == aged(routes[j], now, max_age));
    }
}

/// The routes of the local interfaces stay: neither what is heard from a
/// neighbour, nor a sweep, nor a link that goes down, nor the route of
/// another interface takes the route of an interface out of the table or
/// changes it.
pub proof fn lemma_local_routes_stay(
    routes: Seq<Route>,
    dst: VirtualIp,
    link: usize,
    next_hop: VirtualIp,
    entries: Seq<RipEntry>,
    now: u64,
    max_age: u64,
    vip: VirtualIp,
)
    requires
        distinct_destinations(routes),
        entries_valid(routes),
        routes.len() <= MAX_ROUTES,
        spec_is_local(routes, dst),
    ensures
        spec_is_local(spec_apply_update(routes, link, next_hop, entries, now, max_age), dst),
        spec_is_local(spec_expire(routes, now, max_age), dst),
        spec_is_local(routes.map_values(|r: Route| without_link(r, link)), dst),
        spec_is_local(spec_add_local(routes, vip, now), dst),
        route_index(routes, vip) is Some || routes.len() < MAX_ROUTES ==> spec_is_local(
            spec_add_local(routes, vip, now),
            vip,
        ),
    decreases entries.len(),
{
    lemma_route_from(routes, dst, 0);
    let i = route_index(routes, dst)->0;
    // what is heard
    if entries.len() > 0 {
        lemma_local_routes_stay(routes, dst, link, next_hop, entries.drop_last(), now, max_age, vip);
        let before = spec_apply_update(routes, link, next_hop, entries.drop_last(), now, max_age);
        lemma_apply_update_wf(routes, link, next_hop, entries.drop_last(), now, max_age);
        if entries.last().address == dst {
            lemma_local_stays(before, link, next_hop, entries.last(), now, max_age);
        } else {
            lemma_apply_one_elsewhere(before, link, next_hop, entries.last(), now, max_age, dst);
        }
    }
    // the sweep
    lemma_expire_wf(routes, now, max_age);
    lemma_expire_keeps(routes, now, max_age, i);
    let swept = spec_expire(routes, now, max_age);
    let k = choose|k: int| 0 <= k < swept.len() && #[trigger] swept[k] == aged(routes[i], now, max_age);
    lemma_index_of_route(swept, k);
    // a link that goes down
    let pruned = routes.map_values(|r: Route| without_link(r, link));
    lemma_route_by_destinations(pruned, routes, dst, 0);
    assert(pruned[i] == routes[i]);
    // the route of an interface
    lemma_route_from(routes, vip, 0);
    let added = spec_add_local(routes, vip, now);
    match route_index(routes, vip) {
        Some(v) => {
            lemma_route_by_destinations(added, routes, dst, 0);
            lemma_route_by_destinations(added, routes, vip, 0);
            assert(added[v] == local_route(vip, now));
            if v != i {
                assert(added[i] == routes[i]);
            }
        },
        None => {
            if routes.len() < MAX_ROUTES {
                lemma_route_from(added, dst, 0);
                lemma_route_from(added, vip, 0);
                let n = routes.len() as int;
                assert(added[n] == local_route(vip, now));
                assert(added[i] == routes[i]);
                let jd = route_from(added, dst, 0);
                if jd < i {
                    assert(added[jd] == routes[jd]);
                    assert(routes[jd].dst != dst);
                }
                let jv = route_from(added, vip, 0);
                if jv < n {
                    assert(added[jv] == routes[jv]);
                    assert(routes[jv].dst != vip);
                }
            }
        },
    }
}

/// After the route of an interface has been added, the table holds it,
/// where the table knew the address or had room.
pub proof fn lemma_added_is_local(routes: Seq<Route>, vip: VirtualIp, now: u64)
    requires
        distinct_destinations(routes),
        route_index(routes, vip) is Some || routes.len() < MAX_ROUTES,
    ensures
        spec_is_local(spec_add_local(routes, vip, now), vip),
{
    lemma_route_from(routes, vip, 0);
    let added = spec_add_local(routes, vip, now);
    lemma_route_from(added, vip, 0);
    match route_index(routes, vip) {
        Some(v) => {
            lemma_route_by_destinations(added, routes, vip, 0);
        },
        None => {
            let n = routes.len() as int;
            assert(added[n] == local_route(vip, now));
            let jv = route_from(added, vip, 0);
            if jv < n {
                assert(added[jv] == routes[jv]);
                assert(routes[jv].dst != vip);
            }
        },
    }
}

/// Whether the table's entry for `dst` is one that it learned on `link`.
pub open spec fn learned_over(routes: Seq<Route>, dst: VirtualIp, link: usize) -> bool {
    match route_index(routes, dst) {
        Some(i) => routes[i].link == Some(link),
        None => false,
    }
}

/// An advertised entry for one destination leaves the entry of every other
/// destination as it is.
pub proof fn lemma_apply_one_elsewhere_same(
    routes: Seq<Route>,
    link: usize,
    next_hop: VirtualIp,
    e: RipEntry,
    now: u64,
    max_age: u64,
    dst: VirtualIp,
)
    requires
        e.address != dst,
        route_index(routes, dst) is Some,
    ensures
        route_index(spec_apply_one(routes, link, next_hop, e, now, max_age), dst) == route_index(
            routes,
            dst,
        ),
        spec_apply_one(routes, link, next_hop, e, now, max_age)[route_index(routes, dst)->0]
            == routes[route_index(routes, dst)->0],
{
    let after = spec_apply_one(routes, link, next_hop, e, now, max_age);
    lemma_apply_one_elsewhere(routes, link, next_hop, e, now, max_age, dst);
    lemma_route_from(routes, e.address, 0);
    lemma_route_from(routes, dst, 0);
    let i = route_index(routes, dst)->0;
    assert(routes[i].dst == dst);
    match route_index(routes, e.address) {
        Some(x) => {
            assert(routes[x].dst == e.address);
            assert(x != i);
        },
        None => {},
    }
}

/// A withdrawal is heard: a node that reaches `dst` by a route that it
/// learned on a link, and then hears on that link that the neighbour does
/// not reach `dst` (at 16, or at 15, which is one hop short of it), does not
/// reach `dst` afterwards either. So the loss of a route goes from node to
/// node with the advertisements; and a node that hears nothing at all
/// loses the route by its age.
pub proof fn lemma_withdrawal_is_heard(
    routes: Seq<Route>,
    link: usize,
    next_hop: VirtualIp,
    entries: Seq<RipEntry>,
    now: u64,
    max_age: u64,
    k: int,
)
    requires
        distinct_destinations(routes),
        entries_valid(routes),
        routes.len() <= MAX_ROUTES,
        0 <= k < entries.len(),
        entries[k].cost >= INFINITY - 1,
        learned_over(routes, entries[k].address, link),
        forall|j: int| k < j < entries.len() ==> (#[trigger] entries[j]).address != entries[k].address,
    ensures
        cost_to(spec_apply_update(routes, link, next_hop, entries, now, max_age), entries[k].address)
            == INFINITY,
        learned_over(
            spec_apply_update(routes, link, next_hop, entries, now, max_age),
            entries[k].address,
            link,
        ),
    decreases entries.len(),
{
    let dst = entries[k].address;
    let before = spec_apply_update(routes, link, next_hop, entries.drop_last(), now, max_age);
    let e = entries.last();
    let after = spec_apply_one(before, link, next_hop, e, now, max_age);
    lemma_apply_update_wf(routes, link, next_hop, entries.drop_last(), now, max_age);
    if k == entries.len() - 1 {
        lemma_update_stays_on_link(routes, link, next_hop, entries.drop_last(), now, max_age, dst);
        lemma_route_from(before, dst, 0);
        lemma_route_from(after, dst, 0);
        let i = route_index(before, dst)->0;
        assert(before[i].dst == dst);
        assert(after[i].dst == dst);
        let j = route_from(after, dst, 0);
        if j < i {
            assert(after[j] == before[j]);
            assert(before[j].dst != dst);
        }
        assert(j == i);
    } else {
        lemma_withdrawal_is_heard(routes, link, next_hop, entries.drop_last(), now, max_age, k);
        assert(entries.drop_last()[k] == entries[k]);
        assert(e.address != dst);
        lemma_apply_one_elsewhere_same(before, link, next_hop, e, now, max_age, dst);
    }
}

/// A route that was learned on a link is a route learned on that link
/// still after what is heard on the link.
pub proof fn lemma_update_stays_on_link(
    routes: Seq<Route>,
    link: usize,
    next_hop: VirtualIp,
    entries: Seq<RipEntry>,
    now: u64,
    max_age: u64,
    dst: VirtualIp,
)
    requires
        learned_over(routes, dst, link),
    ensures
        learned_over(spec_apply_update(routes, link, next_hop, entries, now, max_age), dst, link),
    decreases entries.len(),
{
    if entries.len() > 0 {
        lemma_update_stays_on_link(routes, link, next_hop, entries.drop_last(), now, max_age, dst);
        let before = spec_apply_update(routes, link, next_hop, entries.drop_last(), now, max_age);
        let e = entries.last();
        let after = spec_apply_one(before, link, next_hop, e, now, max_age);
        if e.address != dst {
            lemma_apply_one_elsewhere_same(before, link, next_hop, e, now, max_age, dst);
        } else {
            lemma_route_from(before, dst, 0);
            lemma_route_from(after, dst, 0);
            let i = route_index(before, dst)->0;
            assert(before[i].dst == dst);
            assert(after[i].dst == dst);
            let j = route_from(after, dst, 0);
            if j < i {
                assert(after[j] == before[j]);
                assert(before[j].dst != dst);
            }
            assert(j == i);
        }
    }
}

/// Whether the table does not reach `dst` by a route that it learned on
/// `link`.
pub open spec fn not_reached_over(routes: Seq<Route>, dst: VirtualIp, link: usize) -> bool {
    match route_index(routes, dst) {
        Some(i) => routes[i].link != Some(link),
        None => true,
    }
}

/// What is heard on one link makes no route one that was learned on
/// another.
pub proof fn lemma_update_keeps_away(
    routes: Seq<Route>,
    link: usize,
    other: usize,
    next_hop: VirtualIp,
    entries: Seq<RipEntry>,
    now: u64,
    max_age: u64,
    dst: VirtualIp,
)
    requires
        not_reached_over(routes, dst, link),
        other != link,
    ensures
        not_reached_over(spec_apply_update(routes, other, next_hop, entries, now, max_age), dst, link),
    decreases entries.len(),
{
    if entries.len() > 0 {
        lemma_update_keeps_away(routes, link, other, next_hop, entries.drop_last(), now, max_age, dst);
        let before = spec_apply_update(routes, other, next_hop, entries.drop_last(), now, max_age);
        let e = entries.last();
        let after = spec_apply_one(before, other, next_hop, e, now, max_age);
        lemma_route_from(before, e.address, 0);
        lemma_route_from(before, dst, 0);
        lemma_route_from(after, dst, 0);
        if e.address != dst {
            lemma_apply_one_elsewhere(before, other, next_hop, e, now, max_age, dst);
            if route_index(after, dst) is Some {
                let i = route_index(after, dst)->0;
                assert(after[i].dst == dst);
                assert(after[i] == before[i]);
            }
        } else if route_index(after, dst) is Some {
            let i = route_index(after, dst)->0;
            assert(after[i].dst == dst);
            match route_index(before, dst) {
                Some(x) => {
                    assert(before[x].dst == dst);
                    assert(after[x].dst == dst);
                    if i < x {
                        assert(after[i] == before[i]);
                        assert(before[i].dst != dst);
                    }
                    if x < i {
                        assert(after[x].dst != dst);
                    }
                    assert(i == x);
                },
                None => {
                    if i < before.len() {
                        assert(after[i] == before[i]);
                        assert(before[i].dst != dst);
                    }
                },
            }
        }
    }
}

/// A row of nodes, each joined to the next by one link.
pub struct Row {
    /// The table of each node, from one end of the row to the other.
    pub tables: Seq<Seq<Route>>,
    /// At each node, the link to the next node.
    pub onward: Seq<usize>,
    /// At each node after the first, the link to the node before it; under
    /// the index of that node.
    pub back: Seq<usize>,
    /// The address under which each node is heard by the next.
    pub addresses: Seq<VirtualIp>,
}

/// The entries of the first `n + 1` tables of a row, counted together.
pub open spec fn entries_up_to(tables: Seq<Seq<Route>>, n: nat) -> nat
    decreases n,
{
    if n == 0 {
        tables[0].len()
    } else {
        tables[n as int].len() + entries_up_to(tables, (n - 1) as nat)
    }
}

/// The table of the node `n` of a row after the nodes before it have
/// spoken in turn, each to the next: the first says its table as it is, and
/// each of the others says what its table has become by what it heard.
pub open spec fn told_along(row: Row, now: u64, max_age: u64, n: nat) -> Seq<Route>
    decreases n,
{
    if n == 0 {
        row.tables[0]
    } else {
        spec_apply_update(
            row.tables[n as int],
            row.back[n - 1],
            row.addresses[n - 1],
            spec_snapshot(told_along(row, now, max_age, (n - 1) as nat), row.onward[n - 1]),
            now,
            max_age,
        )
    }
}

/// Whether a row is ready to carry the route to `dst`, an address of its
/// first node, to its node `n`: the tables are well-formed and have room
/// for what they hear, no node has the address but the first, at every node
/// between the ends the link onward is another than the link back, and no
/// node reaches `dst` by a route that it learned on its link onward.
pub open spec fn carries(row: Row, dst: VirtualIp, n: nat) -> bool {
    &&& n < row.tables.len()
    &&& n <= row.onward.len()
    &&& n <= row.back.len()
    &&& n <= row.addresses.len()
    &&& entries_up_to(row.tables, n) <= MAX_ROUTES
    &&& spec_is_local(row.tables[0], dst)
    &&& forall|j: int|
        0 <= j <= n ==> distinct_destinations(#[trigger] row.tables[j]) && entries_valid(
            row.tables[j],
        )
    &&& forall|j: int| 1 <= j <= n ==> !spec_is_local(#[trigger] row.tables[j], dst)
    &&& forall|j: int|
        1 <= j < n ==> row.back[j - 1] != #[trigger] row.onward[j] && not_reached_over(
            row.tables[j],
            dst,
            row.onward[j],
        )
}

/// Convergence along a row: once each node has said its table to the next,
/// in turn from the node that has the address `dst`, the node `n` hops away
/// reaches `dst` at a cost of at most `n`, which is finite for every
/// destination within 15 hops. With each round of advertisements the route
/// gets one node further, and where each node speaks as soon as its table
/// has changed, one round is enough.
pub proof fn lemma_route_travels_along_a_row(row: Row, dst: VirtualIp, now: u64, max_age: u64, n: nat)
    requires
        carries(row, dst, n),
        n < INFINITY,
    ensures
        cost_to(told_along(row, now, max_age, n), dst) <= n,
        cost_to(told_along(row, now, max_age, n), dst) < INFINITY,
        distinct_destinations(told_along(row, now, max_age, n)),
        entries_valid(told_along(row, now, max_age, n)),
        told_along(row, now, max_age, n).len() <= entries_up_to(row.tables, n),
        n < row.onward.len() && (n > 0 ==> row.back[n - 1] != row.onward[n as int]
            && not_reached_over(row.tables[n as int], dst, row.onward[n as int]))
            ==> not_reached_over(told_along(row, now, max_age, n), dst, row.onward[n as int]),
    decreases n,
{
    if n == 0 {
        lemma_route_from(row.tables[0], dst, 0);
        assert(row.tables[0][route_index(row.tables[0], dst)->0].link is None);
    } else {
        let m = (n - 1) as nat;
        assert(carries(row, dst, m)) by {
            assert(entries_up_to(row.tables, n) == row.tables[n as int].len() + entries_up_to(
                row.tables,
                m,
            ));
        }
        lemma_route_travels_along_a_row(row, dst, now, max_age, m);
        let speaker = told_along(row, now, max_age, m);
        let hearer = row.tables[n as int];
        lemma_route_from(speaker, dst, 0);
        let k = route_index(speaker, dst)->0;
        assert(speaker[k].dst == dst);
        assert(speaker[k].cost <= m);
        assert(not_reached_over(speaker, dst, row.onward[m as int])) by {
            if m > 0 {
                assert(row.back[m - 1] != row.onward[m as int]);
                assert(not_reached_over(row.tables[m as int], dst, row.onward[m as int]));
            }
        }
        assert(distinct_destinations(hearer) && entries_valid(hearer));
        assert(!spec_is_local(hearer, dst));
        lemma_round_of_convergence(
            hearer,
            speaker,
            row.back[m as int],
            row.onward[m as int],
            row.addresses[m as int],
            k,
            now,
            max_age,
        );
        if n < row.onward.len() && row.back[n - 1] != row.onward[n as int] && not_reached_over(
            hearer,
            dst,
            row.onward[n as int],
        ) {
            lemma_update_keeps_away(
                hearer,
                row.onward[n as int],
                row.back[m as int],
                row.addresses[m as int],
                spec_snapshot(speaker, row.onward[m as int]),
                now,
                max_age,
                dst,
            );
        }
    }
}

} // verus!
