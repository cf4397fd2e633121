//! Routes from tunnel addresses to transport sessions, with striped selection
//! among the workers of one address.
use vstd::prelude::*;
use crate::addr::{Ipv4, ipv4_text};
use crate::server::net_setup::{TunnelNetwork, network};
use crate::packet::{PacketClass, dst_ipv4, extract_dst_ipv4};
use crate::text::chars_of;
use vstd::arithmetic::div_mod::{
    lemma_fundamental_div_mod, lemma_fundamental_div_mod_converse,
};

verus! {

/// Identifier of a transport session.
pub type SessionId = u64;

/// Identifier of one registration of a session.
pub type RegistrationId = u64;

/// Number of a worker within its device.
pub type WorkerId = u16;

/// Packets of the latency class that go to one path before the next is taken.
pub const LATENCY_STRIPE_PACKET_CHUNK: usize = 1;

/// Packets of the priority class that go to one path before the next is taken.
pub const PRIORITY_STRIPE_PACKET_CHUNK: usize = 1;

/// Packets of the bulk class that go to one path before the next is taken.
pub const BULK_STRIPE_PACKET_CHUNK: usize = 2;

/// Number of host keys of a /24 network.
pub const ROUTE_KEYS: usize = 256;

/// Where packets of one worker go.
#[derive(Clone, Copy, Debug, PartialEq, Eq, Structural)]
pub struct RouteEndpoint {
    pub session_id: SessionId,
    pub registration_id: RegistrationId,
    pub worker_id: WorkerId,
    pub slot: usize,
}

/// A starting point among the candidates of one key.
#[derive(Clone, Copy, Debug, PartialEq, Eq, Structural)]
pub struct RouteSelection {
    start: usize,
    len: usize,
}

impl RouteSelection {
    #[verifier::type_invariant]
    closed spec fn inv(self) -> bool {
        self.start < self.len
    }

    /// Index of the candidate that was selected first.
    pub closed spec fn first(self) -> nat {
        self.start as nat
    }

    /// Number of candidates.
    pub closed spec fn count(self) -> nat {
        self.len as nat
    }

    /// Number of candidates.
    pub fn len(self) -> (r: usize)
        ensures
            r == self.count(),
    {
        self.len
    }
}

/// Rotation state of one traffic class.
#[derive(Clone, Copy, Debug, PartialEq, Eq, Structural)]
pub struct LocalStripeCursor {
    pub next: usize,
    pub remaining: usize,
    pub path_count: usize,
}

/// Rotation state of the three traffic classes.
#[derive(Clone, Copy, Debug, PartialEq, Eq, Structural)]
pub struct LocalStripedScheduler {
    pub latency: LocalStripeCursor,
    pub priority: LocalStripeCursor,
    pub bulk: LocalStripeCursor,
}

/// How many packets of a class go to one path in a row.
pub open spec fn chunk_of(class: PacketClass) -> nat {
    match class {
        PacketClass::Latency => LATENCY_STRIPE_PACKET_CHUNK as nat,
        PacketClass::Priority => PRIORITY_STRIPE_PACKET_CHUNK as nat,
        PacketClass::Bulk => BULK_STRIPE_PACKET_CHUNK as nat,
    }
}

/// The cursor that a scheduler keeps for a class.
pub open spec fn cursor_of(s: LocalStripedScheduler, class: PacketClass) -> LocalStripeCursor {
    match class {
        PacketClass::Latency => s.latency,
        PacketClass::Priority => s.priority,
        PacketClass::Bulk => s.bulk,
    }
}

/// The scheduler with the cursor of one class replaced.
pub open spec fn with_cursor(
    s: LocalStripedScheduler,
    class: PacketClass,
    c: LocalStripeCursor,
) -> LocalStripedScheduler {
    match class {
        PacketClass::Latency => LocalStripedScheduler { latency: c, ..s },
        PacketClass::Priority => LocalStripedScheduler { priority: c, ..s },
        PacketClass::Bulk => LocalStripedScheduler { bulk: c, ..s },
    }
}

/// A rotation that has not begun.
pub open spec fn idle_cursor() -> LocalStripeCursor {
    LocalStripeCursor { next: 0, remaining: 0, path_count: 0 }
}

/// A scheduler none of whose rotations has begun.
pub open spec fn idle_scheduler() -> LocalStripedScheduler {
    LocalStripedScheduler {
        latency: idle_cursor(),
        priority: idle_cursor(),
        bulk: idle_cursor(),
    }
}

/// The cursor as a selection among `count` paths sees it: a rotation over another
/// number of paths starts over.
pub open spec fn cursor_for(c: LocalStripeCursor, count: usize) -> LocalStripeCursor {
    if c.path_count != count {
        LocalStripeCursor { next: 0, remaining: 0, path_count: count }
    } else {
        c
    }
}

/// The cursor after one selection among `count` paths.
pub open spec fn cursor_after(
    c: LocalStripeCursor,
    count: usize,
    chunk: nat,
) -> LocalStripeCursor {
    let f = cursor_for(c, count);
    let left = (if f.remaining == 0 {
        chunk
    } else {
        f.remaining as nat
    }) - 1;
    LocalStripeCursor {
        next: if left != 0 {
            f.next
        } else if f.next + 1 == count {
            0
        } else {
            (f.next + 1) as usize
        },
        remaining: left as usize,
        path_count: count,
    }
}

/// The cursor points at one of its paths.
pub open spec fn cursor_wf(c: LocalStripeCursor, chunk: nat) -> bool {
    &&& c.path_count > 0 ==> c.next < c.path_count
    &&& c.remaining <= chunk
}

impl LocalStripedScheduler {
    /// Each cursor points at one of its paths.
    pub open spec fn wf(self) -> bool {
        &&& cursor_wf(self.latency, chunk_of(PacketClass::Latency))
        &&& cursor_wf(self.priority, chunk_of(PacketClass::Priority))
        &&& cursor_wf(self.bulk, chunk_of(PacketClass::Bulk))
    }

    /// A scheduler that has selected nothing yet.
    pub fn new() -> (r: Self)
        ensures
            r == idle_scheduler(),
            r.wf(),
    {
        let idle = LocalStripeCursor { next: 0, remaining: 0, path_count: 0 };
        LocalStripedScheduler { latency: idle, priority: idle, bulk: idle }
    }

    /// Selects the next path of a class among `count` paths.
    pub fn select(&mut self, count: usize, class: PacketClass) -> (r: Option<usize>)
        requires
            old(self).wf(),
        ensures
            final(self).wf(),
            count == 0 ==> r is None && *final(self) == *old(self),
            count > 0 ==> {
                &&& r == Some(cursor_for(cursor_of(*old(self), class), count).next)
                &&& cursor_for(cursor_of(*old(self), class), count).next < count
                &&& *final(self) == with_cursor(
                    *old(self),
                    class,
                    cursor_after(cursor_of(*old(self), class), count, chunk_of(class)),
                )
            },
    {
        if count == 0 {
            return None;
        }
        let (mut cursor, chunk): (LocalStripeCursor, usize) = match class {
            PacketClass::Latency => (self.latency, LATENCY_STRIPE_PACKET_CHUNK),
            PacketClass::Priority => (self.priority, PRIORITY_STRIPE_PACKET_CHUNK),
            PacketClass::Bulk => (self.bulk, BULK_STRIPE_PACKET_CHUNK),
        };
        if cursor.path_count != count {
            cursor.path_count = count;
            cursor.next = 0;
            cursor.remaining = 0;
        }
        if cursor.remaining == 0 {
            cursor.remaining = chunk;
        }
        let selected: usize = cursor.next;
        cursor.remaining = cursor.remaining - 1;
        if cursor.remaining == 0 {
            cursor.next = cursor.next + 1;
            if cursor.next == count {
                cursor.next = 0;
            }
        }
        match class {
            PacketClass::Latency => {
                self.latency = cursor;
            },
            PacketClass::Priority => {
                self.priority = cursor;
            },
            PacketClass::Bulk => {
                self.bulk = cursor;
            },
        }
        Some(selected)
    }
}

/// The cursor after `k` selections among `count` paths.
pub open spec fn cursor_run(
    c: LocalStripeCursor,
    count: usize,
    chunk: nat,
    k: nat,
) -> LocalStripeCursor
    decreases k,
{
    if k == 0 {
        c
    } else {
        cursor_after(cursor_run(c, count, chunk, (k - 1) as nat), count, chunk)
    }
}

/// How many packets of its path a cursor has passed.
pub open spec fn cursor_offset(c: LocalStripeCursor, chunk: nat) -> nat {
    if c.remaining == 0 {
        0
    } else {
        (chunk - c.remaining) as nat
    }
}

/// Where a cursor stands in its round: how many selections lie before it.
pub open spec fn cursor_position(c: LocalStripeCursor, chunk: nat) -> nat {
    c.next as nat * chunk + cursor_offset(c, chunk)
}

proof fn lemma_cursor_run(c: LocalStripeCursor, count: usize, chunk: nat, k: nat)
    requires
        count > 0,
        0 < chunk <= usize::MAX,
        cursor_wf(c, chunk),
    ensures
        ({
            let f = cursor_for(cursor_run(c, count, chunk, k), count);
            let s = cursor_position(cursor_for(c, count), chunk) + k;
            &&& f.next == (s as int / chunk as int) % (count as int)
            &&& cursor_offset(f, chunk) == s as int % chunk as int
            &&& f.remaining <= chunk
        }),
    decreases k,
{
    let ch = chunk as int;
    let n = count as int;
    let start = cursor_for(c, count);
    let first = cursor_position(start, chunk) as int;
    if k == 0 {
        let o = cursor_offset(start, chunk) as int;
        assert(0 <= o < ch);
        assert(first == ch * (start.next as int) + o) by (nonlinear_arith)
            requires
                first == start.next as int * ch + o,
        ;
        lemma_fundamental_div_mod_converse(first, ch, start.next as int, o);
        assert(start.next as int % n == start.next as int) by {
            vstd::arithmetic::div_mod::lemma_small_mod(start.next as nat, count as nat);
        }
    } else {
        lemma_cursor_run(c, count, chunk, (k - 1) as nat);
        let p = first + k - 1;
        let q = p / ch;
        let r = p % ch;
        lemma_fundamental_div_mod(p, ch);
        assert(0 <= r < ch) by {
            vstd::arithmetic::div_mod::lemma_mod_bound(p, ch);
        }
        assert(q >= 0) by {
            vstd::arithmetic::div_mod::lemma_div_pos_is_pos(p, ch);
        }
        let a = q / n;
        let b = q % n;
        lemma_fundamental_div_mod(q, n);
        assert(0 <= b < n) by {
            vstd::arithmetic::div_mod::lemma_mod_bound(q, n);
        }
        if r + 1 == ch {
            assert(p + 1 == ch * (q + 1)) by (nonlinear_arith)
                requires
                    p == ch * q + r,
                    r + 1 == ch,
            ;
            lemma_fundamental_div_mod_converse(p + 1, ch, q + 1, 0);
            if b + 1 == n {
                assert(q + 1 == n * (a + 1)) by (nonlinear_arith)
                    requires
                        q == n * a + b,
                        b + 1 == n,
                ;
                lemma_fundamental_div_mod_converse(q + 1, n, a + 1, 0);
            } else {
                assert(q + 1 == a * n + (b + 1)) by (nonlinear_arith)
                    requires
                        q == n * a + b,
                ;
                lemma_fundamental_div_mod_converse(q + 1, n, a, b + 1);
            }
        } else {
            lemma_fundamental_div_mod_converse(p + 1, ch, q, r + 1);
        }
    }
}

/// Striping is a rotation: among a constant number of paths, selection number `k` from
/// now on takes path `((p + k) / chunk) % count`, where `p` is the present position in
/// the round. After a change of the number of paths that position is zero.
pub proof fn law_striping_rotates(c: LocalStripeCursor, count: usize, class: PacketClass, k: nat)
    requires
        count > 0,
        cursor_wf(c, chunk_of(class)),
    ensures
        cursor_for(cursor_run(c, count, chunk_of(class), k), count).next == ((cursor_position(
            cursor_for(c, count),
            chunk_of(class),
        ) + k) / chunk_of(class)) % (count as nat),
        c.path_count != count ==> cursor_position(cursor_for(c, count), chunk_of(class)) == 0,
{
    lemma_cursor_run(c, count, chunk_of(class), k);
}

/// How many of the next `k` selections among `count` paths take `path`.
pub open spec fn times_taken(
    c: LocalStripeCursor,
    count: usize,
    chunk: nat,
    path: nat,
    k: nat,
) -> nat
    decreases k,
{
    if k == 0 {
        0
    } else {
        times_taken(c, count, chunk, path, (k - 1) as nat) + (if cursor_for(
            cursor_run(c, count, chunk, (k - 1) as nat),
            count,
        ).next == path {
            1nat
        } else {
            0nat
        })
    }
}

/// How many of the first `x` places of a rotation belong to `path`.
spec fn places_before(count: int, chunk: int, path: int, x: int) -> int {
    let y = x % (count * chunk) - path * chunk;
    x / (count * chunk) * chunk + (if y <= 0 {
        0
    } else if y >= chunk {
        chunk
    } else {
        y
    })
}

/// Each place of a rotation belongs to the path that its position names.
proof fn lemma_place(count: int, chunk: int, path: int, x: int)
    requires
        0 < count,
        0 < chunk,
        0 <= path < count,
        0 <= x,
    ensures
        places_before(count, chunk, path, x + 1) == places_before(count, chunk, path, x) + (if (x
            / chunk) % count == path {
            1int
        } else {
            0int
        }),
{
    let n = count * chunk;
    assert(n > 0) by (nonlinear_arith)
        requires
            0 < count,
            0 < chunk,
            n == count * chunk,
    ;
    let a = x / n;
    let y = x % n;
    lemma_fundamental_div_mod(x, n);
    vstd::arithmetic::div_mod::lemma_mod_bound(x, n);
    let q = y / chunk;
    let r = y % chunk;
    lemma_fundamental_div_mod(y, chunk);
    vstd::arithmetic::div_mod::lemma_mod_bound(y, chunk);
    assert(0 <= q < count) by (nonlinear_arith)
        requires
            y == chunk * q + r,
            0 <= r < chunk,
            0 <= y < count * chunk,
            0 < chunk,
    ;
    assert(x == chunk * (count * a + q) + r) by (nonlinear_arith)
        requires
            x == n * a + y,
            n == count * chunk,
            y == chunk * q + r,
    ;
    lemma_fundamental_div_mod_converse(x, chunk, count * a + q, r);
    lemma_fundamental_div_mod_converse(count * a + q, count, a, q);
    assert(q == path ==> 0 <= y - path * chunk < chunk) by (nonlinear_arith)
        requires
            y == chunk * q + r,
            0 <= r < chunk,
    ;
    assert(q < path ==> y < path * chunk) by (nonlinear_arith)
        requires
            y == chunk * q + r,
            0 <= r < chunk,
    ;
    assert(q > path ==> y >= path * chunk + chunk) by (nonlinear_arith)
        requires
            y == chunk * q + r,
            0 <= r < chunk,
    ;
    assert(path * chunk + chunk <= n && path * chunk >= 0) by (nonlinear_arith)
        requires
            0 <= path < count,
            0 < chunk,
            n == count * chunk,
    ;
    if y + 1 == n {
        assert(x + 1 == n * (a + 1)) by (nonlinear_arith)
            requires
                x == n * a + y,
                y + 1 == n,
        ;
        lemma_fundamental_div_mod_converse(x + 1, n, a + 1, 0);
        assert((a + 1) * chunk == a * chunk + chunk) by (nonlinear_arith);
    } else {
        lemma_fundamental_div_mod_converse(x + 1, n, a, y + 1);
    }
}

proof fn lemma_times_taken(c: LocalStripeCursor, count: usize, chunk: nat, path: nat, k: nat)
    requires
        0 < chunk <= usize::MAX,
        cursor_wf(c, chunk),
        path < count,
    ensures
        ({
            let s = cursor_position(cursor_for(c, count), chunk) as int;
            times_taken(c, count, chunk, path, k) == places_before(
                count as int,
                chunk as int,
                path as int,
                s + k,
            ) - places_before(count as int, chunk as int, path as int, s)
        }),
    decreases k,
{
    if k > 0 {
        let s = cursor_position(cursor_for(c, count), chunk) as int;
        lemma_times_taken(c, count, chunk, path, (k - 1) as nat);
        lemma_cursor_run(c, count, chunk, (k - 1) as nat);
        lemma_place(count as int, chunk as int, path as int, s + k - 1);
    }
}

/// Striping is even: wherever a rotation stands, the next `count * chunk` selections take
/// each of the `count` paths `chunk` times.
pub proof fn law_striping_is_even(
    c: LocalStripeCursor,
    count: usize,
    class: PacketClass,
    path: nat,
)
    requires
        cursor_wf(c, chunk_of(class)),
        path < count,
    ensures
        times_taken(c, count, chunk_of(class), path, count as nat * chunk_of(class)) == chunk_of(
            class,
        ),
{
    let chunk = chunk_of(class);
    let n = count as int * chunk as int;
    let s = cursor_position(cursor_for(c, count), chunk) as int;
    assert(n > 0) by (nonlinear_arith)
        requires
            count > 0,
            chunk > 0,
            n == count as int * chunk as int,
    ;
    lemma_times_taken(c, count, chunk, path, count as nat * chunk);
    lemma_fundamental_div_mod(s, n);
    vstd::arithmetic::div_mod::lemma_mod_bound(s, n);
    assert(s + n == n * (s / n + 1) + s % n) by (nonlinear_arith)
        requires
            s == n * (s / n) + s % n,
    ;
    lemma_fundamental_div_mod_converse(s + n, n, s / n + 1, s % n);
    assert((s / n + 1) * chunk as int == s / n * chunk as int + chunk as int) by (nonlinear_arith);
}

/// The classes rotate independently: a selection of one class leaves the cursors
/// of the others alone.
pub proof fn law_classes_independent(
    s: LocalStripedScheduler,
    class: PacketClass,
    other: PacketClass,
    c: LocalStripeCursor,
)
    requires
        class != other,
    ensures
        cursor_of(with_cursor(s, class, c), other) == cursor_of(s, other),
        cursor_of(with_cursor(s, class, c), class) == c,
{
}

// ---------------------------------------------------------------------------
// The endpoints of one address
// ---------------------------------------------------------------------------

/// In increasing order of worker, with each worker and each registration once.
pub open spec fn endpoints_wf(eps: Seq<RouteEndpoint>) -> bool {
    &&& forall|i: int, j: int|
        0 <= i < j < eps.len() ==> (#[trigger] eps[i]).worker_id < (#[trigger] eps[j]).worker_id
    &&& forall|i: int, j: int|
        0 <= i < j < eps.len() ==> (#[trigger] eps[i]).registration_id != (
        #[trigger] eps[j]).registration_id
}

/// Neither the worker nor the registration of `e`.
pub open spec fn unrelated(c: RouteEndpoint, e: RouteEndpoint) -> bool {
    c.registration_id != e.registration_id && c.worker_id != e.worker_id
}

/// The endpoints after `e` is registered: it takes the place of what had its
/// worker or its registration.
pub open spec fn registered(eps: Seq<RouteEndpoint>, e: RouteEndpoint) -> Seq<RouteEndpoint> {
    eps.filter(|c: RouteEndpoint| unrelated(c, e) && c.worker_id < e.worker_id).push(e)
        + eps.filter(|c: RouteEndpoint| unrelated(c, e) && c.worker_id > e.worker_id)
}

/// The endpoints without a registration.
pub open spec fn unregistered(eps: Seq<RouteEndpoint>, id: RegistrationId) -> Seq<RouteEndpoint> {
    eps.filter(|c: RouteEndpoint| c.registration_id != id)
}

/// The endpoints with the slot of one session's registration replaced.
pub open spec fn with_slot(
    eps: Seq<RouteEndpoint>,
    session: SessionId,
    id: RegistrationId,
    slot: usize,
) -> Seq<RouteEndpoint> {
    Seq::new(
        eps.len(),
        |i: int|
            if eps[i].session_id == session && eps[i].registration_id == id {
                RouteEndpoint { slot, ..eps[i] }
            } else {
                eps[i]
            },
    )
}

/// A filtered sequence keeps the order of its items.
proof fn lemma_filter_order(
    eps: Seq<RouteEndpoint>,
    p: spec_fn(RouteEndpoint) -> bool,
)
    requires
        endpoints_wf(eps),
    ensures
        endpoints_wf(eps.filter(p)),
        forall|c: RouteEndpoint| #[trigger]
            eps.filter(p).contains(c) ==> eps.contains(c) && p(c),
        forall|c: RouteEndpoint| #[trigger]
            eps.contains(c) ==> p(c) ==> eps.filter(p).contains(c),
    decreases eps.len(),
{
    reveal(Seq::filter);
    let f = eps.filter(p);
    if eps.len() > 0 {
        let d = eps.drop_last();
        let last = eps.last();
        lemma_filter_order(d, p);
        let g = d.filter(p);
        assert forall|c: RouteEndpoint| g.contains(c) implies c.worker_id < last.worker_id
            && c.registration_id != last.registration_id by {
            assert(d.contains(c));
            let i = choose|i: int| 0 <= i < d.len() && d[i] == c;
            assert(eps[i] == c);
            assert(eps[eps.len() - 1] == last);
        }
        assert(eps =~= d.push(last));
        assert forall|c: RouteEndpoint| #[trigger] f.contains(c) implies eps.contains(c) && p(
            c,
        ) by {
            let i = choose|i: int| 0 <= i < f.len() && f[i] == c;
            if p(last) && i == f.len() - 1 {
                assert(eps[eps.len() - 1] == c);
            } else {
                assert(g[i] == c);
                assert(g.contains(c));
                let k = choose|k: int| 0 <= k < d.len() && d[k] == c;
                assert(eps[k] == c);
            }
        }
        assert forall|c: RouteEndpoint| #[trigger] eps.contains(c) && p(c) implies f.contains(
            c,
        ) by {
            let k = choose|k: int| 0 <= k < eps.len() && eps[k] == c;
            if k < d.len() {
                assert(d[k] == c);
                assert(d.contains(c));
                assert(g.contains(c));
                let i = choose|i: int| 0 <= i < g.len() && g[i] == c;
                assert(f[i] == c);
            } else {
                assert(f[f.len() - 1] == c);
            }
        }
        if p(last) {
            assert(f == g.push(last));
            assert forall|i: int, j: int| 0 <= i < j < f.len() implies (#[trigger] f[i]).worker_id
                < (#[trigger] f[j]).worker_id && f[i].registration_id != f[j].registration_id by {
                assert(g.contains(g[i]));
            }
        }
    } else {
        assert(f =~= Seq::<RouteEndpoint>::empty());
    }
}

/// Registration keeps the order, keeps every unrelated endpoint, and leaves exactly
/// the new endpoint for its worker and for its registration.
pub proof fn law_register_replaces_one_worker(eps: Seq<RouteEndpoint>, e: RouteEndpoint)
    requires
        endpoints_wf(eps),
    ensures
        endpoints_wf(registered(eps, e)),
        forall|c: RouteEndpoint| #[trigger]
            registered(eps, e).contains(c) <==> c == e || (eps.contains(c) && unrelated(c, e)),
{
    let pl = |c: RouteEndpoint| unrelated(c, e) && c.worker_id < e.worker_id;
    let pg = |c: RouteEndpoint| unrelated(c, e) && c.worker_id > e.worker_id;
    lemma_filter_order(eps, pl);
    lemma_filter_order(eps, pg);
    let l = eps.filter(pl);
    let g = eps.filter(pg);
    let r = registered(eps, e);
    assert(r == l.push(e) + g);
    assert forall|i: int, j: int| 0 <= i < j < r.len() implies (#[trigger] r[i]).worker_id < (
    #[trigger] r[j]).worker_id by {
        if i < l.len() {
            assert(l.contains(l[i]));
        }
        if j > l.len() {
            assert(g.contains(g[j - l.len() - 1]));
        }
    }
    assert forall|i: int, j: int| 0 <= i < j < r.len() implies (#[trigger] r[i]).registration_id
        != (#[trigger] r[j]).registration_id by {
        if i < l.len() && j > l.len() {
            assert(l.contains(l[i]) && g.contains(g[j - l.len() - 1]));
            let x = choose|x: int| 0 <= x < eps.len() && eps[x] == l[i];
            let y = choose|y: int| 0 <= y < eps.len() && eps[y] == g[j - l.len() - 1];
            assert(x != y);
            if x < y {
                assert(eps[x].registration_id != eps[y].registration_id);
            } else {
                assert(eps[y].registration_id != eps[x].registration_id);
            }
        } else if i < l.len() {
            assert(l.contains(l[i]));
        } else if j > l.len() {
            assert(g.contains(g[j - l.len() - 1]));
        }
    }
    assert forall|c: RouteEndpoint| #[trigger] r.contains(c) <==> c == e || (eps.contains(c)
        && unrelated(c, e)) by {
        if r.contains(c) {
            let i = choose|i: int| 0 <= i < r.len() && r[i] == c;
            if i < l.len() {
                assert(l[i] == c);
                assert(l.contains(c));
            } else if i > l.len() {
                assert(g[i - l.len() - 1] == c);
                assert(g.contains(c));
            }
        }
        if c == e {
            assert(r[l.len() as int] == e);
        } else if eps.contains(c) && unrelated(c, e) {
            if c.worker_id < e.worker_id {
                assert(l.contains(c));
                let i = choose|i: int| 0 <= i < l.len() && l[i] == c;
                assert(r[i] == c);
            } else {
                assert(g.contains(c));
                let i = choose|i: int| 0 <= i < g.len() && g[i] == c;
                assert(r[l.len() + 1 + i] == c);
            }
        }
    }
}

/// Removal is exact: only the endpoint with that registration goes, and its
/// siblings stay in their order.
pub proof fn law_unregister_is_exact(eps: Seq<RouteEndpoint>, id: RegistrationId)
    requires
        endpoints_wf(eps),
    ensures
        endpoints_wf(unregistered(eps, id)),
        forall|c: RouteEndpoint| #[trigger]
            unregistered(eps, id).contains(c) <==> eps.contains(c) && c.registration_id != id,
        unregistered(unregistered(eps, id), id) == unregistered(eps, id),
        (forall|c: RouteEndpoint| eps.contains(c) ==> c.registration_id != id) ==> unregistered(
            eps,
            id,
        ) == eps,
{
    let p = |c: RouteEndpoint| c.registration_id != id;
    lemma_filter_order(eps, p);
    let f = unregistered(eps, id);
    lemma_filter_all(f, p);
    if forall|c: RouteEndpoint| eps.contains(c) ==> c.registration_id != id {
        lemma_filter_all(eps, p);
    }
}

proof fn lemma_filter_all(eps: Seq<RouteEndpoint>, p: spec_fn(RouteEndpoint) -> bool)
    requires
        forall|c: RouteEndpoint| #[trigger] eps.contains(c) ==> p(c),
    ensures
        eps.filter(p) == eps,
    decreases eps.len(),
{
    reveal(Seq::filter);
    if eps.len() > 0 {
        let d = eps.drop_last();
        assert forall|c: RouteEndpoint| #[trigger] d.contains(c) implies p(c) by {
            let i = choose|i: int| 0 <= i < d.len() && d[i] == c;
            assert(eps[i] == c);
            assert(eps.contains(c));
        }
        lemma_filter_all(d, p);
        assert(eps.contains(eps[eps.len() - 1]));
        assert(eps.filter(p) =~= eps);
    } else {
        assert(eps.filter(p) =~= eps);
    }
}

/// A replaced transport can be removed late without touching its successor:
/// removing the old registration after the new one took over its worker changes
/// nothing.
pub proof fn law_stale_unregister_keeps_replacement(
    eps: Seq<RouteEndpoint>,
    stale: RouteEndpoint,
    e: RouteEndpoint,
)
    requires
        endpoints_wf(eps),
        eps.contains(stale),
        stale.worker_id == e.worker_id,
        stale.registration_id != e.registration_id,
    ensures
        unregistered(registered(eps, e), stale.registration_id) == registered(eps, e),
{
    law_register_replaces_one_worker(eps, e);
    let r = registered(eps, e);
    assert forall|c: RouteEndpoint| r.contains(c) implies c.registration_id
        != stale.registration_id by {
        if c != e {
            assert(eps.contains(c) && unrelated(c, e));
            let x = choose|x: int| 0 <= x < eps.len() && eps[x] == c;
            let y = choose|y: int| 0 <= y < eps.len() && eps[y] == stale;
            assert(x != y);
            if x < y {
                assert(eps[x].registration_id != eps[y].registration_id);
            } else {
                assert(eps[y].registration_id != eps[x].registration_id);
            }
        }
    }
    law_unregister_is_exact(r, stale.registration_id);
}

/// The endpoints of one tunnel address with their rotation.
pub struct RouteGroup {
    pub endpoints: Vec<RouteEndpoint>,
    pub scheduler: LocalStripedScheduler,
}

/// The candidate at `offset` from a selection: the candidates in rotation order.
pub open spec fn candidate(
    eps: Seq<RouteEndpoint>,
    first: nat,
    count: nat,
    offset: nat,
) -> Option<RouteEndpoint> {
    let index = if first + offset >= count {
        first + offset - count
    } else {
        (first + offset) as int
    };
    if offset < count && index < eps.len() {
        Some(eps[index])
    } else {
        None
    }
}

impl RouteGroup {
    /// Endpoints in order, rotation in range.
    pub open spec fn wf(&self) -> bool {
        endpoints_wf(self.endpoints@) && self.scheduler.wf()
    }

    /// A group without endpoints.
    pub fn new() -> (r: Self)
        ensures
            r.wf(),
            r.endpoints@ == Seq::<RouteEndpoint>::empty(),
            r.scheduler == idle_scheduler(),
    {
        RouteGroup { endpoints: Vec::new(), scheduler: LocalStripedScheduler::new() }
    }

    /// Adds an endpoint in place of what had its worker or its registration.
    pub fn register(&mut self, endpoint: RouteEndpoint)
        requires
            old(self).wf(),
        ensures
            final(self).wf(),
            final(self).endpoints@ == registered(old(self).endpoints@, endpoint),
            final(self).scheduler == old(self).scheduler,
    {
        let ghost eps = self.endpoints@;
        let ghost pl = |c: RouteEndpoint| unrelated(c, endpoint) && c.worker_id < endpoint.worker_id;
        let ghost pg = |c: RouteEndpoint| unrelated(c, endpoint) && c.worker_id > endpoint.worker_id;
        let mut below: Vec<RouteEndpoint> = Vec::new();
        let mut above: Vec<RouteEndpoint> = Vec::new();
        let mut i: usize = 0;
        proof {
            reveal(Seq::filter);
            assert(eps.take(0) =~= Seq::<RouteEndpoint>::empty());
            assert(below@ =~= eps.take(0).filter(pl));
            assert(above@ =~= eps.take(0).filter(pg));
        }
        while i < self.endpoints.len()
            invariant
                i <= eps.len(),
                self.endpoints@ == eps,
                pl == |c: RouteEndpoint|
                    unrelated(c, endpoint) && c.worker_id < endpoint.worker_id,
                pg == |c: RouteEndpoint|
                    unrelated(c, endpoint) && c.worker_id > endpoint.worker_id,
                below@ == eps.take(i as int).filter(pl),
                above@ == eps.take(i as int).filter(pg),
                self.scheduler == old(self).scheduler,
            decreases eps.len() - i,
        {
            let c = self.endpoints[i];
            proof {
                reveal(Seq::filter);
                assert(eps.take(i as int + 1).drop_last() =~= eps.take(i as int));
                assert(eps.take(i as int + 1).last() == c);
            }
            if c.registration_id != endpoint.registration_id && c.worker_id != endpoint.worker_id {
                if c.worker_id < endpoint.worker_id {
                    below.push(c);
                } else {
                    above.push(c);
                }
            }
            i = i + 1;
        }
        proof {
            assert(eps.take(i as int) =~= eps);
            law_register_replaces_one_worker(eps, endpoint);
        }
        below.push(endpoint);
        below.append(&mut above);
        self.endpoints = below;
    }

    /// Removes the endpoint of a registration; tells whether there was one.
    pub fn unregister(&mut self, registration_id: RegistrationId) -> (r: bool)
        requires
            old(self).wf(),
        ensures
            final(self).wf(),
            final(self).endpoints@ == unregistered(old(self).endpoints@, registration_id),
            final(self).scheduler == old(self).scheduler,
            r == exists|c: RouteEndpoint| #[trigger]
                old(self).endpoints@.contains(c) && c.registration_id == registration_id,
    {
        let ghost eps = self.endpoints@;
        let ghost p = |c: RouteEndpoint| c.registration_id != registration_id;
        let mut kept: Vec<RouteEndpoint> = Vec::new();
        let mut removed = false;
        let mut i: usize = 0;
        proof {
            reveal(Seq::filter);
            assert(eps.take(0) =~= Seq::<RouteEndpoint>::empty());
            assert(kept@ =~= eps.take(0).filter(p));
        }
        while i < self.endpoints.len()
            invariant
                i <= eps.len(),
                self.endpoints@ == eps,
                p == |c: RouteEndpoint| c.registration_id != registration_id,
                kept@ == eps.take(i as int).filter(p),
                self.scheduler == old(self).scheduler,
                removed == exists|j: int|
                    0 <= j < i && (#[trigger] eps[j]).registration_id == registration_id,
            decreases eps.len() - i,
        {
            let c = self.endpoints[i];
            proof {
                reveal(Seq::filter);
                assert(eps.take(i as int + 1).drop_last() =~= eps.take(i as int));
                assert(eps.take(i as int + 1).last() == c);
            }
            if c.registration_id != registration_id {
                kept.push(c);
            } else {
                removed = true;
            }
            i = i + 1;
        }
        proof {
            assert(eps.take(i as int) =~= eps);
            law_unregister_is_exact(eps, registration_id);
            if removed {
                let j = choose|j: int|
                    0 <= j < i && (#[trigger] eps[j]).registration_id == registration_id;
                assert(eps.contains(eps[j]));
            }
        }
        self.endpoints = kept;
        removed
    }

    /// Selects the next candidate of a class.
    pub fn select(&mut self, class: PacketClass) -> (r: Option<RouteEndpoint>)
        requires
            old(self).wf(),
        ensures
            final(self).wf(),
            final(self).endpoints@ == old(self).endpoints@,
            old(self).endpoints@.len() == 0 ==> r is None && final(self).scheduler == old(self).scheduler,
            old(self).endpoints@.len() > 0 ==> {
                let count = old(self).endpoints@.len() as usize;
                let cursor = cursor_of(old(self).scheduler, class);
                &&& r == Some(old(self).endpoints@[cursor_for(cursor, count).next as int])
                &&& final(self).scheduler == with_cursor(
                    old(self).scheduler,
                    class,
                    cursor_after(cursor, count, chunk_of(class)),
                )
            },
    {
        match self.select_window(class) {
            None => None,
            Some(selection) => self.endpoint_at(selection, 0),
        }
    }

    /// Selects where the next packet of a class begins its search.
    pub fn select_window(&mut self, class: PacketClass) -> (r: Option<RouteSelection>)
        requires
            old(self).wf(),
        ensures
            final(self).wf(),
            final(self).endpoints@ == old(self).endpoints@,
            old(self).endpoints@.len() == 0 ==> r is None && final(self).scheduler == old(self).scheduler,
            old(self).endpoints@.len() > 0 ==> {
                let count = old(self).endpoints@.len() as usize;
                let cursor = cursor_of(old(self).scheduler, class);
                &&& r matches Some(s) && s.first() == cursor_for(cursor, count).next && s.count()
                    == count && s.first() < s.count()
                &&& final(self).scheduler == with_cursor(
                    old(self).scheduler,
                    class,
                    cursor_after(cursor, count, chunk_of(class)),
                )
            },
    {
        let len: usize = self.endpoints.len();
        match self.scheduler.select(len, class) {
            None => None,
            Some(start) => Some(RouteSelection { start, len }),
        }
    }

    /// The candidate at `offset` from a selection.
    pub fn endpoint_at(&self, selection: RouteSelection, offset: usize) -> (r: Option<
        RouteEndpoint,
    >)
        ensures
            r == candidate(
                self.endpoints@,
                selection.first(),
                selection.count(),
                offset as nat,
            ),
    {
        proof {
            use_type_invariant(selection);
        }
        if offset >= selection.len {
            return None;
        }
        let tail: usize = selection.len - selection.start;
        let index: usize = if offset >= tail {
            offset - tail
        } else {
            selection.start + offset
        };
        if index < self.endpoints.len() {
            Some(self.endpoints[index])
        } else {
            None
        }
    }

    /// Whether the group has no endpoint.
    pub fn is_empty(&self) -> (r: bool)
        ensures
            r == (self.endpoints@.len() == 0),
    {
        self.endpoints.len() == 0
    }
}

/// From a selection every candidate is reached exactly once: different offsets
/// below the count give different candidates.
pub proof fn law_candidates_cover_all(eps: Seq<RouteEndpoint>, first: nat, x: nat, y: nat)
    requires
        endpoints_wf(eps),
        first < eps.len(),
        x < y < eps.len(),
    ensures
        candidate(eps, first, eps.len(), x) is Some,
        candidate(eps, first, eps.len(), x) != candidate(eps, first, eps.len(), y),
{
    let n = eps.len();
    let ix: int = if first + x >= n {
        first + x - n
    } else {
        (first + x) as int
    };
    let iy: int = if first + y >= n {
        first + y - n
    } else {
        (first + y) as int
    };
    assert(ix != iy);
    if ix < iy {
        assert(eps[ix].worker_id < eps[iy].worker_id);
    } else {
        assert(eps[iy].worker_id < eps[ix].worker_id);
    }
}

// ---------------------------------------------------------------------------
// The table
// ---------------------------------------------------------------------------

/// The routes of a /24 network, keyed by host number.
pub struct RouteTable {
    prefix: [u8; 3],
    groups: Vec<Option<RouteGroup>>,
}

/// The key of an address: its host number, where it lies in the network.
pub open spec fn route_key(prefix: Seq<u8>, ip: Seq<u8>) -> Option<nat> {
    if ip.len() == 4 && ip[0] == prefix[0] && ip[1] == prefix[1] && ip[2] == prefix[2] {
        Some(ip[3] as nat)
    } else {
        None
    }
}

/// The host number of an address of the network.
fn route_index(prefix: &[u8; 3], ip: [u8; 4]) -> (r: Option<usize>)
    ensures
        match r {
            Some(k) => route_key(prefix@, ip@) == Some(k as nat) && k < ROUTE_KEYS,
            None => route_key(prefix@, ip@) is None,
        },
{
    if ip[0] == prefix[0] && ip[1] == prefix[1] && ip[2] == prefix[2] {
        Some(ip[3] as usize)
    } else {
        None
    }
}

/// Whether `r` is what selecting a start for a class and a key gives, and `after` is the
/// table that it leaves: the routes stay, and the rotation of that class moves on.
pub open spec fn window_selected(
    before: RouteTable,
    after: RouteTable,
    key: nat,
    class: PacketClass,
    r: Option<RouteSelection>,
) -> bool {
    let count = before.endpoints(key).len() as usize;
    let cursor = cursor_of(before.scheduler(key), class);
    &&& after.same_but(&before, key)
    &&& after.endpoints(key) == before.endpoints(key)
    &&& if before.endpoints(key).len() == 0 {
        r is None && after.scheduler(key) == before.scheduler(key)
    } else {
        &&& r matches Some(s) && s.first() == cursor_for(cursor, count).next && s.count() == count
            && s.first() < s.count()
        &&& after.scheduler(key) == with_cursor(
            before.scheduler(key),
            class,
            cursor_after(cursor, count, chunk_of(class)),
        )
    }
}

impl RouteTable {
    /// The first three octets of the network.
    pub closed spec fn network_prefix(&self) -> Seq<u8> {
        self.prefix@
    }

    /// The endpoints of a key.
    pub closed spec fn endpoints(&self, key: nat) -> Seq<RouteEndpoint> {
        if key < self.groups@.len() {
            match self.groups@[key as int] {
                Some(group) => group.endpoints@,
                None => Seq::empty(),
            }
        } else {
            Seq::empty()
        }
    }

    /// The rotation of a key.
    pub closed spec fn scheduler(&self, key: nat) -> LocalStripedScheduler {
        if key < self.groups@.len() {
            match self.groups@[key as int] {
                Some(group) => group.scheduler,
                None => idle_scheduler(),
            }
        } else {
            idle_scheduler()
        }
    }

    /// A group for every key that has endpoints, and for no other.
    pub closed spec fn wf(&self) -> bool {
        &&& self.groups@.len() == ROUTE_KEYS
        &&& forall|k: int|
            0 <= k < self.groups@.len() ==> match #[trigger] self.groups@[k] {
                Some(group) => group.wf() && group.endpoints@.len() > 0,
                None => true,
            }
    }

    /// In every state the endpoints of a key are in the order of their workers, no
    /// registration is there twice, and the rotation points at one of them.
    pub proof fn lemma_wf_endpoints(&self, key: nat)
        requires
            self.wf(),
        ensures
            endpoints_wf(self.endpoints(key)),
            self.endpoints(key).len() <= usize::MAX,
            self.scheduler(key).wf(),
    {
        if key < self.groups@.len() {
            if let Some(group) = self.groups@[key as int] {
                assert(group.endpoints.len() == group.endpoints@.len());
            }
        }
    }

    /// Whether the table differs from `other` at most in what `key` holds.
    pub open spec fn same_but(&self, other: &RouteTable, key: nat) -> bool {
        &&& self.network_prefix() == other.network_prefix()
        &&& forall|k: nat|
            k != key ==> #[trigger] self.endpoints(k) == other.endpoints(k) && self.scheduler(k)
                == other.scheduler(k)
    }

    /// Whether the table holds the same routes and rotations as `other`.
    pub open spec fn same_as(&self, other: &RouteTable) -> bool {
        &&& self.network_prefix() == other.network_prefix()
        &&& forall|k: nat| #[trigger]
            self.endpoints(k) == other.endpoints(k) && self.scheduler(k) == other.scheduler(k)
    }

    /// An empty table of the default network.
    pub fn new() -> (r: Self)
        ensures
            r.wf(),
            r.network_prefix() == seq![10u8, 66, 67],
            forall|k: nat| #[trigger]
                r.endpoints(k) == Seq::<RouteEndpoint>::empty() && r.scheduler(k)
                    == idle_scheduler(),
    {
        let net = network();
        RouteTable::for_network(&net)
    }

    /// An empty table of a network.
    pub fn for_network(network: &TunnelNetwork) -> (r: Self)
        ensures
            r.wf(),
            r.network_prefix() == network.prefix@,
            forall|k: nat| #[trigger]
                r.endpoints(k) == Seq::<RouteEndpoint>::empty() && r.scheduler(k)
                    == idle_scheduler(),
    {
        let mut groups: Vec<Option<RouteGroup>> = Vec::new();
        let mut i: usize = 0;
        while i < ROUTE_KEYS
            invariant
                i <= ROUTE_KEYS,
                groups@.len() == i,
                forall|k: int| 0 <= k < groups@.len() ==> #[trigger] groups@[k] is None,
            decreases ROUTE_KEYS - i,
        {
            groups.push(None);
            i = i + 1;
        }
        RouteTable { prefix: network.prefix, groups }
    }

    /// Adds an endpoint for an address; refuses addresses outside the network.
    pub fn register(
        &mut self,
        ip: [u8; 4],
        session_id: SessionId,
        registration_id: RegistrationId,
        worker_id: WorkerId,
        slot: usize,
    ) -> (r: bool)
        requires
            old(self).wf(),
        ensures
            final(self).wf(),
            r == route_key(old(self).network_prefix(), ip@) is Some,
            !r ==> final(self).same_as(old(self)),
            route_key(old(self).network_prefix(), ip@) matches Some(key) ==> {
                &&& final(self).same_but(old(self), key)
                &&& final(self).endpoints(key) == registered(
                    old(self).endpoints(key),
                    (RouteEndpoint { session_id, registration_id, worker_id, slot }),
                )
                &&& final(self).scheduler(key) == old(self).scheduler(key)
            },
    {
        let index: usize = match route_index(&self.prefix, ip) {
            Some(index) => index,
            None => {
                return false;
            },
        };
        let endpoint = RouteEndpoint { session_id, registration_id, worker_id, slot };
        let ghost before = self.groups@;
        let mut taken: Option<RouteGroup> = None;
        core::mem::swap(&mut self.groups[index], &mut taken);
        let mut group = match taken {
            Some(group) => group,
            None => RouteGroup::new(),
        };
        let ghost eps = group.endpoints@;
        group.register(endpoint);
        proof {
            law_register_replaces_one_worker(eps, endpoint);
            assert(registered(eps, endpoint).contains(endpoint));
        }
        self.groups.set(index, Some(group));
        proof {
            assert(eps =~= old(self).endpoints(index as nat));
            assert forall|k: nat| k != index as nat implies #[trigger] self.endpoints(k) == old(self).endpoints(k) && self.scheduler(k) == old(self).scheduler(k) by {
                if k < self.groups@.len() {
                    assert(self.groups@[k as int] == before[k as int]);
                }
            }
        }
        true
    }

    /// Moves the registration of a session to another slot.
    pub fn update_slot(
        &mut self,
        ip: [u8; 4],
        session_id: SessionId,
        registration_id: RegistrationId,
        slot: usize,
    )
        requires
            old(self).wf(),
        ensures
            final(self).wf(),
            route_key(old(self).network_prefix(), ip@) is None ==> final(self).same_as(old(self)),
            route_key(old(self).network_prefix(), ip@) matches Some(key) ==> {
                &&& final(self).same_but(old(self), key)
                &&& final(self).endpoints(key) == with_slot(
                    old(self).endpoints(key),
                    session_id,
                    registration_id,
                    slot,
                )
                &&& final(self).scheduler(key) == old(self).scheduler(key)
            },
    {
        let index: usize = match route_index(&self.prefix, ip) {
            Some(index) => index,
            None => {
                return;
            },
        };
        let ghost before = self.groups@;
        let mut taken: Option<RouteGroup> = None;
        core::mem::swap(&mut self.groups[index], &mut taken);
        let ghost eps = old(self).endpoints(index as nat);
        let mut group = match taken {
            Some(group) => group,
            None => {
                proof {
                    assert(with_slot(eps, session_id, registration_id, slot) =~= eps);
                    assert forall|k: nat| #[trigger] self.endpoints(k) == old(self).endpoints(k)
                        && self.scheduler(k) == old(self).scheduler(k) by {
                        if k < self.groups@.len() {
                            assert(self.groups@[k as int] == before[k as int]);
                        }
                    }
                }
                return;
            },
        };
        let mut i: usize = 0;
        while i < group.endpoints.len()
            invariant_except_break
                i <= group.endpoints@.len(),
                group.endpoints@ == eps,
                endpoints_wf(eps),
                forall|j: int|
                    0 <= j < i ==> !((#[trigger] eps[j]).session_id == session_id
                        && eps[j].registration_id == registration_id),
            invariant
                group.scheduler == old(self).scheduler(index as nat),
            ensures
                group.endpoints@ == with_slot(eps, session_id, registration_id, slot),
            decreases group.endpoints@.len() - i,
        {
            let mut e = group.endpoints[i];
            if e.session_id == session_id && e.registration_id == registration_id {
                e.slot = slot;
                group.endpoints.set(i, e);
                proof {
                    assert forall|j: int| 0 <= j < eps.len() implies #[trigger] group.endpoints@[j]
                        == with_slot(eps, session_id, registration_id, slot)[j] by {
                        if j < i {
                            assert(eps[j].registration_id != eps[i as int].registration_id);
                        } else if j > i {
                            assert(eps[i as int].registration_id != eps[j].registration_id);
                        }
                    }
                    assert(group.endpoints@ =~= with_slot(eps, session_id, registration_id, slot));
                }
                break;
            }
            i = i + 1;
            proof {
                if i == eps.len() {
                    assert(group.endpoints@ =~= with_slot(eps, session_id, registration_id, slot));
                }
            }
        }
        proof {
            let w = with_slot(eps, session_id, registration_id, slot);
            assert forall|a: int, b: int| 0 <= a < b < w.len() implies (#[trigger] w[a]).worker_id
                < (#[trigger] w[b]).worker_id && w[a].registration_id != w[b].registration_id by {
                assert(eps[a].worker_id < eps[b].worker_id);
                assert(eps[a].registration_id != eps[b].registration_id);
            }
        }
        self.groups.set(index, Some(group));
        proof {
            assert forall|k: nat| k != index as nat implies #[trigger] self.endpoints(k) == old(self).endpoints(k) && self.scheduler(k) == old(self).scheduler(k) by {
                if k < self.groups@.len() {
                    assert(self.groups@[k as int] == before[k as int]);
                }
            }
        }
    }

    /// Removes the endpoint of a registration; tells whether there was one.
    pub fn unregister(&mut self, ip: [u8; 4], registration_id: RegistrationId) -> (r: bool)
        requires
            old(self).wf(),
        ensures
            final(self).wf(),
            route_key(old(self).network_prefix(), ip@) is None ==> !r && final(self).same_as(
                old(self),
            ),
            route_key(old(self).network_prefix(), ip@) matches Some(key) ==> {
                &&& r == exists|c: RouteEndpoint| #[trigger]
                    old(self).endpoints(key).contains(c) && c.registration_id == registration_id
                &&& final(self).same_but(old(self), key)
                &&& final(self).endpoints(key) == unregistered(
                    old(self).endpoints(key),
                    registration_id,
                )
                &&& final(self).scheduler(key) == if final(self).endpoints(key).len() == 0 {
                    idle_scheduler()
                } else {
                    old(self).scheduler(key)
                }
            },
    {
        let index: usize = match route_index(&self.prefix, ip) {
            Some(index) => index,
            None => {
                return false;
            },
        };
        let ghost before = self.groups@;
        let ghost eps = self.endpoints(index as nat);
        let mut taken: Option<RouteGroup> = None;
        core::mem::swap(&mut self.groups[index], &mut taken);
        let mut removed = false;
        match taken {
            None => {
                proof {
                    reveal(Seq::filter);
                    assert(eps =~= Seq::<RouteEndpoint>::empty());
                    assert(unregistered(eps, registration_id) =~= eps);
                }
            },
            Some(mut group) => {
                removed = group.unregister(registration_id);
                if !group.is_empty() {
                    self.groups.set(index, Some(group));
                }
            },
        }
        proof {
            assert forall|k: nat| k != index as nat implies #[trigger] self.endpoints(k) == old(self).endpoints(k) && self.scheduler(k) == old(self).scheduler(k) by {
                if k < self.groups@.len() {
                    assert(self.groups@[k as int] == before[k as int]);
                }
            }
            assert(self.endpoints(index as nat) =~= unregistered(eps, registration_id));
        }
        removed
    }

    /// The key of a packet: that of its destination.
    pub fn packet_key(&self, packet: &[u8]) -> (r: Option<usize>)
        ensures
            (match r {
                Some(k) => Some(k as nat),
                None => None,
            }) == match dst_ipv4(packet@) {
                Some(ip) => route_key(self.network_prefix(), ip),
                None => None,
            },
    {
        match extract_dst_ipv4(packet) {
            Some(ip) => route_index(&self.prefix, ip),
            None => None,
        }
    }

    /// The key of an address.
    pub fn tunnel_key(&self, ip: [u8; 4]) -> (r: Option<usize>)
        ensures
            (match r {
                Some(k) => Some(k as nat),
                None => None,
            }) == route_key(self.network_prefix(), ip@),
    {
        route_index(&self.prefix, ip)
    }

    /// Number of endpoints of a key.
    pub fn active_path_count(&self, key: usize) -> (r: usize)
        ensures
            r == self.endpoints(key as nat).len(),
    {
        if key >= self.groups.len() {
            return 0;
        }
        match &self.groups[key] {
            Some(group) => group.endpoints.len(),
            None => 0,
        }
    }

    /// Selects where the next packet of a class for a key begins its search.
    pub fn select_key_window(&mut self, key: usize, class: PacketClass) -> (r: Option<
        RouteSelection,
    >)
        requires
            old(self).wf(),
        ensures
            final(self).wf(),
            window_selected(*old(self), *final(self), key as nat, class, r),
    {
        if key >= self.groups.len() {
            return None;
        }
        let ghost before = self.groups@;
        let mut taken: Option<RouteGroup> = None;
        core::mem::swap(&mut self.groups[key], &mut taken);
        let mut selected: Option<RouteSelection> = None;
        match taken {
            None => {},
            Some(mut group) => {
                selected = group.select_window(class);
                self.groups.set(key, Some(group));
            },
        }
        proof {
            assert forall|k: nat| k != key as nat implies #[trigger] self.endpoints(k) == old(self).endpoints(k) && self.scheduler(k) == old(self).scheduler(k) by {
                if k < self.groups@.len() {
                    assert(self.groups@[k as int] == before[k as int]);
                }
            }
        }
        selected
    }

    /// The candidate of a key at `offset` from a selection.
    pub fn endpoint_at(
        &self,
        key: usize,
        selection: RouteSelection,
        offset: usize,
    ) -> (r: Option<RouteEndpoint>)
        ensures
            r == candidate(
                self.endpoints(key as nat),
                selection.first(),
                selection.count(),
                offset as nat,
            ),
    {
        if key >= self.groups.len() {
            return None;
        }
        match &self.groups[key] {
            Some(group) => group.endpoint_at(selection, offset),
            None => None,
        }
    }

    /// Selects the endpoint for the next packet of a class to an address.
    pub fn select(&mut self, ip: [u8; 4], class: PacketClass) -> (r: Option<RouteEndpoint>)
        requires
            old(self).wf(),
        ensures
            final(self).wf(),
            route_key(old(self).network_prefix(), ip@) is None ==> r is None && final(self).same_as(old(self)),
            route_key(old(self).network_prefix(), ip@) matches Some(key) ==> {
                let count = old(self).endpoints(key).len() as usize;
                let cursor = cursor_of(old(self).scheduler(key), class);
                &&& final(self).same_but(old(self), key)
                &&& final(self).endpoints(key) == old(self).endpoints(key)
                &&& count == 0 ==> r is None && final(self).scheduler(key) == old(self).scheduler(
                    key,
                )
                &&& count > 0 ==> r == Some(
                    old(self).endpoints(key)[cursor_for(cursor, count).next as int],
                ) && final(self).scheduler(key) == with_cursor(
                    old(self).scheduler(key),
                    class,
                    cursor_after(cursor, count, chunk_of(class)),
                )
            },
    {
        match route_index(&self.prefix, ip) {
            None => None,
            Some(index) => {
                proof {
                    if self.groups@[index as int] is Some {
                        let v = self.groups@[index as int].unwrap().endpoints;
                        assert(v@.len() == v.len());
                    }
                }
                match self.select_key_window(index, class) {
                    None => None,
                    Some(selection) => self.endpoint_at(index, selection, 0),
                }
            },
        }
    }

    /// Number of endpoints of an address.
    pub fn stream_count(&self, ip: [u8; 4]) -> (r: usize)
        ensures
            r == match route_key(self.network_prefix(), ip@) {
                Some(key) => self.endpoints(key).len(),
                None => 0,
            },
    {
        match route_index(&self.prefix, ip) {
            Some(index) => self.active_path_count(index),
            None => 0,
        }
    }
}

impl Default for RouteTable {
    fn default() -> (r: Self)
        ensures
            r.wf(),
            r.network_prefix() == seq![10u8, 66, 67],
            forall|k: nat| #[trigger]
                r.endpoints(k) == Seq::<RouteEndpoint>::empty() && r.scheduler(k)
                    == idle_scheduler(),
    {
        RouteTable::new()
    }
}

/// Reads a dotted decimal address.
pub fn parse_ipv4(value: &str) -> (r: Option<[u8; 4]>)
    ensures
        match r {
            Some(octets) => exists|ip: Ipv4| #[trigger]
                ipv4_text(ip) == value@ && ip.octets_spec() == octets@,
            None => forall|ip: Ipv4| value@ != #[trigger] ipv4_text(ip),
        },
{
    let chars = chars_of(value);
    match Ipv4::parse(chars.as_slice()) {
        Some(ip) => Some(ip.octets()),
        None => None,
    }
}

/// A call that selected a start, and what it gave.
pub ghost struct WindowCall {
    pub key: nat,
    pub class: PacketClass,
    pub selection: Option<RouteSelection>,
}

/// Whether the calls, one after the other, led from each table to the next.
pub open spec fn windows_selected(tables: Seq<RouteTable>, calls: Seq<WindowCall>) -> bool {
    &&& tables.len() == calls.len() + 1
    &&& forall|i: int| 0 <= i < tables.len() ==> (#[trigger] tables[i]).wf()
    &&& forall|i: int|
        0 <= i < calls.len() ==> window_selected(
            tables[i],
            tables[i + 1],
            (#[trigger] calls[i]).key,
            calls[i].class,
            calls[i].selection,
        )
}

/// How many of the calls were for a key and a class.
pub open spec fn calls_for(calls: Seq<WindowCall>, key: nat, class: PacketClass) -> nat
    decreases calls.len(),
{
    if calls.len() == 0 {
        0
    } else {
        calls_for(calls.drop_last(), key, class) + (if calls.last().key == key
            && calls.last().class == class {
            1nat
        } else {
            0nat
        })
    }
}

/// How many of those calls gave a selection that starts with the endpoint at `path`.
pub open spec fn starts_with(
    calls: Seq<WindowCall>,
    key: nat,
    class: PacketClass,
    path: nat,
) -> nat
    decreases calls.len(),
{
    if calls.len() == 0 {
        0
    } else {
        starts_with(calls.drop_last(), key, class, path) + (if calls.last().key == key
            && calls.last().class == class && calls.last().selection is Some
            && calls.last().selection->0.first() == path {
            1nat
        } else {
            0nat
        })
    }
}

proof fn lemma_windows(
    tables: Seq<RouteTable>,
    calls: Seq<WindowCall>,
    key: nat,
    class: PacketClass,
    path: nat,
)
    requires
        windows_selected(tables, calls),
        tables[0].endpoints(key).len() > 0,
    ensures
        ({
            let count = tables[0].endpoints(key).len() as usize;
            let first = cursor_of(tables[0].scheduler(key), class);
            let k = calls_for(calls, key, class);
            &&& tables.last().endpoints(key) == tables[0].endpoints(key)
            &&& cursor_of(tables.last().scheduler(key), class) == cursor_run(
                first,
                count,
                chunk_of(class),
                k,
            )
            &&& starts_with(calls, key, class, path) == times_taken(
                first,
                count,
                chunk_of(class),
                path,
                k,
            )
        }),
    decreases calls.len(),
{
    if calls.len() > 0 {
        let n = calls.len() - 1;
        let earlier = tables.drop_last();
        let past = calls.drop_last();
        assert forall|i: int| 0 <= i < past.len() implies window_selected(
            earlier[i],
            earlier[i + 1],
            (#[trigger] past[i]).key,
            past[i].class,
            past[i].selection,
        ) by {
            assert(calls[i] == past[i]);
        }
        assert(windows_selected(earlier, past));
        lemma_windows(earlier, past, key, class, path);
        assert(earlier[0] == tables[0]);
        assert(earlier.last() == tables[n]);
        let call = calls[n];
        assert(window_selected(tables[n], tables[n + 1], call.key, call.class, call.selection));
        if call.key != key {
            assert(tables[n + 1].endpoints(key) == tables[n].endpoints(key));
        }
    }
}

/// Packets take turns: over calls of which as many were for one key and class as make a
/// full round, each endpoint of the key comes first equally often, as often as a path is
/// taken in a row. Calls for other keys and classes in between make no difference, and no
/// call changes the endpoints.
pub proof fn law_windows_take_turns(
    tables: Seq<RouteTable>,
    calls: Seq<WindowCall>,
    key: nat,
    class: PacketClass,
    path: nat,
)
    requires
        windows_selected(tables, calls),
        path < tables[0].endpoints(key).len(),
        calls_for(calls, key, class) == tables[0].endpoints(key).len() * chunk_of(class),
    ensures
        starts_with(calls, key, class, path) == chunk_of(class),
        tables.last().endpoints(key) == tables[0].endpoints(key),
{
    lemma_windows(tables, calls, key, class, path);
    tables[0].lemma_wf_endpoints(key);
    let count = tables[0].endpoints(key).len() as usize;
    law_striping_is_even(cursor_of(tables[0].scheduler(key), class), count, class, path);
}

/// Bulk packets go in pairs down one path, other packets one by one; every class has a
/// cursor of its own, and a new scheduler starts at the first path.
pub proof fn law_stripes_of_the_classes(s: LocalStripedScheduler, count: usize)
    ensures
        chunk_of(PacketClass::Latency) == 1,
        chunk_of(PacketClass::Priority) == 1,
        chunk_of(PacketClass::Bulk) == 2,
        cursor_of(s, PacketClass::Latency) == s.latency,
        cursor_of(s, PacketClass::Priority) == s.priority,
        cursor_of(s, PacketClass::Bulk) == s.bulk,
        cursor_for(idle_cursor(), count).next == 0,
        cursor_of(idle_scheduler(), PacketClass::Bulk) == idle_cursor(),
{
}

/// Whoever registers takes the place of whatever had its worker number or its registration,
/// and stands among the others by its worker number.
pub proof fn law_registration_takes_its_place(
    eps: Seq<RouteEndpoint>,
    e: RouteEndpoint,
    c: RouteEndpoint,
    i: int,
    j: int,
)
    requires
        endpoints_wf(eps),
    ensures
        registered(eps, e).contains(c) <==> c == e || (eps.contains(c) && c.registration_id
            != e.registration_id && c.worker_id != e.worker_id),
        0 <= i < j < registered(eps, e).len() ==> registered(eps, e)[i].worker_id < registered(
            eps,
            e,
        )[j].worker_id,
{
    law_register_replaces_one_worker(eps, e);
    assert(registered(eps, e).contains(c) <==> c == e || (eps.contains(c) && unrelated(c, e)));
}

/// A new slot is noted for the one registration of the session, and nothing else of any
/// endpoint changes.
pub proof fn law_slots_move_alone(
    eps: Seq<RouteEndpoint>,
    session: SessionId,
    id: RegistrationId,
    slot: usize,
    i: int,
)
    requires
        0 <= i < eps.len(),
    ensures
        with_slot(eps, session, id, slot).len() == eps.len(),
        eps[i].session_id == session && eps[i].registration_id == id ==> with_slot(
            eps,
            session,
            id,
            slot,
        )[i].slot == slot,
        eps[i].session_id != session || eps[i].registration_id != id ==> with_slot(
            eps,
            session,
            id,
            slot,
        )[i] == eps[i],
        with_slot(eps, session, id, slot)[i].session_id == eps[i].session_id,
        with_slot(eps, session, id, slot)[i].registration_id == eps[i].registration_id,
        with_slot(eps, session, id, slot)[i].worker_id == eps[i].worker_id,
{
}

/// The candidates of a selection follow each other from the selected one on, round the end.
pub proof fn law_candidates_follow_each_other(eps: Seq<RouteEndpoint>, first: nat, offset: nat)
    requires
        first < eps.len(),
    ensures
        candidate(eps, first, eps.len(), 0) == Some(eps[first as int]),
        offset < eps.len() && first + offset < eps.len() ==> candidate(
            eps,
            first,
            eps.len(),
            offset,
        ) == Some(eps[(first + offset) as int]),
        offset < eps.len() && first + offset >= eps.len() ==> candidate(
            eps,
            first,
            eps.len(),
            offset,
        ) == Some(eps[first + offset - eps.len()]),
        offset >= eps.len() ==> candidate(eps, first, eps.len(), offset) is None,
{
}

/// Packets are routed by the last octet, within the network alone.
pub proof fn law_routes_go_by_the_last_octet(prefix: Seq<u8>, a: u8, b: u8, c: u8, d: u8)
    requires
        prefix.len() == 3,
    ensures
        prefix == seq![a, b, c] ==> route_key(prefix, seq![a, b, c, d]) == Some(d as nat),
        prefix != seq![a, b, c] ==> route_key(prefix, seq![a, b, c, d]) is None,
{
    if prefix[0] == a && prefix[1] == b && prefix[2] == c {
        assert(prefix =~= seq![a, b, c]);
    }
}

} // verus!
