//! Keep-alive bookkeeping: which clients have pinged, when, and which of them
//! have gone silent for longer than the timeout.

use vstd::prelude::*;

verus! {

/// A client's socket address: the IP address as a number (an IPv4 address in
/// its low 32 bits), the port, whether the address is IPv6, and for IPv6 the
/// flow information and scope id (both zero for IPv4). Two addresses are the
/// same client exactly when all five agree.
#[derive(Clone, Copy, Debug, PartialEq, Eq, Structural, Hash)]
pub struct ClientAddr {
    pub ip: u128,
    pub port: u16,
    pub is_v6: bool,
    pub flowinfo: u32,
    pub scope_id: u32,
}

/// What the monitor knows of one client: when it last pinged (nanoseconds on
/// the monitor's clock) and whether its stream is still considered alive.
#[derive(Clone, Copy, Debug, PartialEq, Eq, Structural)]
pub struct ClientConnection {
    pub last_ping: u64,
    pub is_active: bool,
}

/// Nanoseconds in a second.
pub const NANOS_PER_SEC: u128 = 1_000_000_000u128;

/// The time between `last` and `now`, or zero when `now` is earlier
/// (`Instant::duration_since` saturates).
pub open spec fn elapsed(now: u64, last: u64) -> nat {
    if now >= last {
        (now - last) as nat
    } else {
        0
    }
}

/// An active client whose last ping lies more than `timeout_secs` seconds before `now`.
pub open spec fn is_expired(c: ClientConnection, now: u64, timeout_secs: u64) -> bool {
    c.is_active && elapsed(now, c.last_ping) > timeout_secs * 1_000_000_000
}

/// The clients that a check at `now` finds timed out.
pub open spec fn timed_out(
    m: Map<ClientAddr, ClientConnection>,
    now: u64,
    timeout_secs: u64,
) -> Set<ClientAddr> {
    Set::new(|k: ClientAddr| m.contains_key(k) && is_expired(m[k], now, timeout_secs))
}

/// The clients after a check at `now`: the timed-out ones become inactive,
/// all else stays as it was.
pub open spec fn after_check(
    m: Map<ClientAddr, ClientConnection>,
    now: u64,
    timeout_secs: u64,
) -> Map<ClientAddr, ClientConnection> {
    Map::new(
        |k: ClientAddr| m.contains_key(k),
        |k: ClientAddr|
            if is_expired(m[k], now, timeout_secs) {
                ClientConnection { last_ping: m[k].last_ping, is_active: false }
            } else {
                m[k]
            },
    )
}

/// The later of two times.
pub open spec fn max_time(a: u64, b: u64) -> u64 {
    if a >= b {
        a
    } else {
        b
    }
}

/// The record of a client that pinged at `now`.
pub open spec fn fresh_connection(now: u64) -> ClientConnection {
    ClientConnection { last_ping: now, is_active: true }
}

/// The map that a list of entries with distinct keys stands for.
pub open spec fn entries_map(s: Seq<(ClientAddr, ClientConnection)>) -> Map<
    ClientAddr,
    ClientConnection,
>
    decreases s.len(),
{
    if s.len() == 0 {
        Map::empty()
    } else {
        entries_map(s.drop_last()).insert(s.last().0, s.last().1)
    }
}

/// No two entries share a key.
pub open spec fn distinct_keys(s: Seq<(ClientAddr, ClientConnection)>) -> bool {
    forall|i: int, j: int| 0 <= i < j < s.len() ==> #[trigger] s[i].0 != #[trigger] s[j].0
}

/// With distinct keys, the map holds exactly the entries' keys, each with its entry's value.
proof fn lemma_entries_map(s: Seq<(ClientAddr, ClientConnection)>)
    requires
        distinct_keys(s),
    ensures
        forall|k: ClientAddr|
            #[trigger] entries_map(s).contains_key(k) <==> exists|i: int|
                0 <= i < s.len() && #[trigger] s[i].0 == k,
        forall|i: int| 0 <= i < s.len() ==> #[trigger] entries_map(s)[s[i].0] == s[i].1,
    decreases s.len(),
{
    if s.len() > 0 {
        let s1 = s.drop_last();
        assert(distinct_keys(s1)) by {
            assert forall|i: int, j: int| 0 <= i < j < s1.len() implies #[trigger] s1[i].0
                != #[trigger] s1[j].0 by {
                assert(s1[i] == s[i] && s1[j] == s[j]);
            }
        }
        lemma_entries_map(s1);
        assert forall|k: ClientAddr| #[trigger]
            entries_map(s).contains_key(k) implies exists|i: int|
                0 <= i < s.len() && #[trigger] s[i].0 == k by {
            if k == s.last().0 {
                assert(s[s.len() - 1].0 == k);
            } else {
                assert(entries_map(s1).contains_key(k));
                let i = choose|i: int| 0 <= i < s1.len() && #[trigger] s1[i].0 == k;
                assert(s[i] == s1[i]);
            }
        }
        assert forall|k: ClientAddr|
            (exists|i: int| 0 <= i < s.len() && #[trigger] s[i].0 == k) implies #[trigger]
            entries_map(s).contains_key(k) by {
            let i = choose|i: int| 0 <= i < s.len() && #[trigger] s[i].0 == k;
            if i < s.len() - 1 {
                assert(s1[i] == s[i]);
            }
        }
        assert forall|i: int| 0 <= i < s.len() implies #[trigger] entries_map(s)[s[i].0] == s[i].1 by {
            if i < s.len() - 1 {
                assert(s1[i] == s[i]);
                assert(s[i].0 != s[s.len() - 1].0);
            }
        }
    }
}

/// Tracks the last ping of each client and detects those that went silent.
pub struct PingMonitor {
    clients: Vec<(ClientAddr, ClientConnection)>,
    timeout_secs: u64,
    origin: std::time::Instant,
    latest: u64,
}

/// The clock reading that a monitor's times are counted from.
#[verifier::external_type_specification]
#[verifier::external_body]
pub struct ExInstant(std::time::Instant);

/// The current instant (`Instant::now`). Nothing is stated of the reading.
#[verifier::external_body]
fn instant_now() -> std::time::Instant {
    std::time::Instant::now()
}

/// Nanoseconds since `origin` (`Instant::elapsed`), as a 64-bit count.
/// Nothing is stated of the reading: it depends on the clock.
#[verifier::external_body]
fn nanos_since(origin: &std::time::Instant) -> u64 {
    origin.elapsed().as_nanos() as u64
}

impl View for PingMonitor {
    type V = Map<ClientAddr, ClientConnection>;

    closed spec fn view(&self) -> Map<ClientAddr, ClientConnection> {
        entries_map(self.clients@)
    }
}

impl PingMonitor {
    #[verifier::type_invariant]
    closed spec fn keys_distinct(self) -> bool {
        distinct_keys(self.clients@)
    }

    /// The silence, in seconds, after which a client times out.
    pub closed spec fn timeout(&self) -> u64 {
        self.timeout_secs
    }

    /// The latest time the monitor has seen, from its clock or from a caller
    /// (nanoseconds on the monitor's clock). Later clock readings never go below it.
    pub closed spec fn latest(&self) -> u64 {
        self.latest
    }

    /// Creates a monitor with no clients and the given timeout in seconds.
    pub fn new(timeout_secs: u64) -> (m: Self)
        ensures
            m@ == Map::<ClientAddr, ClientConnection>::empty(),
            m.timeout() == timeout_secs,
            m.latest() == 0,
    {
        let m = PingMonitor { clients: Vec::new(), timeout_secs, origin: instant_now(), latest: 0 };
        assert(m@ =~= Map::<ClientAddr, ClientConnection>::empty());
        m
    }

    /// The monitor's clock: nanoseconds since it was created.
    /// The monitor's clock: nanoseconds since it was created, never below a
    /// time it has already seen (an `Instant` never goes back).
    fn now(&mut self) -> (t: u64)
        ensures
            t >= old(self).latest(),
            final(self).latest() == t,
            final(self)@ == old(self)@,
            final(self).timeout() == old(self).timeout(),
    {
        proof {
            use_type_invariant(&*self);
        }
        let reading = nanos_since(&self.origin);
        if reading > self.latest {
            self.latest = reading;
        }
        self.latest
    }

    /// Takes note of a time reported by a caller.
    fn see(&mut self, now: u64)
        ensures
            final(self).latest() == max_time(old(self).latest(), now),
            final(self)@ == old(self)@,
            final(self).timeout() == old(self).timeout(),
    {
        proof {
            use_type_invariant(&*self);
        }
        if now > self.latest {
            self.latest = now;
        }
    }

    /// The position of `addr` among the entries, if it has one.
    fn find(&self, addr: &ClientAddr) -> (r: Option<usize>)
        ensures
            match r {
                Some(i) => i < self.clients@.len() && self.clients@[i as int].0 == *addr,
                None => forall|i: int| 0 <= i < self.clients@.len() ==> #[trigger] self.clients@[i].0 != *addr,
            },
    {
        let mut i: usize = 0;
        while i < self.clients.len()
            invariant
                i <= self.clients@.len(),
                forall|j: int| 0 <= j < i ==> #[trigger] self.clients@[j].0 != *addr,
            decreases self.clients.len() - i,
        {
            if self.clients[i].0 == *addr {
                return Some(i);
            }
            i = i + 1;
        }
        None
    }

    /// Records a ping from `addr` at time `now`: the client becomes active
    /// with that time as its last ping.
    pub fn update_ping_at(&mut self, addr: ClientAddr, now: u64)
        ensures
            final(self)@ == old(self)@.insert(addr, fresh_connection(now)),
            final(self).timeout() == old(self).timeout(),
            final(self).latest() == max_time(old(self).latest(), now),
    {
        proof {
            use_type_invariant(&*self);
            lemma_entries_map(self.clients@);
        }
        let ghost old_map = self@;
        let conn = ClientConnection { last_ping: now, is_active: true };
        match self.find(&addr) {
            Some(i) => {
                let mut clients: Vec<(ClientAddr, ClientConnection)> = Vec::new();
        std::mem::swap(&mut clients, &mut self.clients);
                clients.set(i, (addr, conn));
                proof {
                    assert(distinct_keys(clients@)) by {
                        assert forall|a: int, b: int| 0 <= a < b < clients@.len() implies #[trigger] clients@[a].0
                            != #[trigger] clients@[b].0 by {
                            assert(old(self).clients@[a].0 != old(self).clients@[b].0);
                        }
                    }
                    lemma_entries_map(clients@);
                    assert forall|k: ClientAddr| #[trigger]
                        entries_map(clients@).contains_key(k) == old_map.insert(addr, conn).contains_key(k) by {
                        if entries_map(clients@).contains_key(k) {
                            let j = choose|j: int| 0 <= j < clients@.len() && #[trigger] clients@[j].0 == k;
                            if j != i {
                                assert(old(self).clients@[j].0 == k);
                                assert(old_map.contains_key(k));
                            }
                        }
                        if old_map.insert(addr, conn).contains_key(k) {
                            if k == addr {
                                assert(clients@[i as int].0 == k);
                            } else {
                                assert(old_map.contains_key(k));
                                let j = choose|j: int| 0 <= j < old(self).clients@.len() && #[trigger] old(self).clients@[j].0 == k;
                                assert(clients@[j].0 == k);
                            }
                            assert(entries_map(clients@).contains_key(k));
                        }
                    }
                    assert forall|k: ClientAddr| #[trigger] entries_map(clients@).contains_key(k) implies
                        entries_map(clients@)[k] == old_map.insert(addr, conn)[k] by {
                        let j = choose|j: int| 0 <= j < clients@.len() && #[trigger] clients@[j].0 == k;
                        if j != i {
                            assert(old(self).clients@[j] == clients@[j]);
                        }
                    }
                    assert(entries_map(clients@) =~= old_map.insert(addr, conn));
                }
                self.clients = clients;
            },
            None => {
                let mut clients: Vec<(ClientAddr, ClientConnection)> = Vec::new();
        std::mem::swap(&mut clients, &mut self.clients);
                clients.push((addr, conn));
                proof {
                    assert(clients@.drop_last() =~= old(self).clients@);
                    assert(distinct_keys(clients@)) by {
                        assert forall|a: int, b: int| 0 <= a < b < clients@.len() implies #[trigger] clients@[a].0
                            != #[trigger] clients@[b].0 by {
                            if b == clients@.len() - 1 {
                                assert(clients@[a] == old(self).clients@[a]);
                            } else {
                                assert(old(self).clients@[a].0 != old(self).clients@[b].0);
                            }
                        }
                    }
                }
                self.clients = clients;
            },
        }
        self.see(now);
    }

    /// Records a ping from `addr` now: the client becomes active and its last
    /// ping is the current time.
    pub fn update_ping(&mut self, addr: ClientAddr)
        ensures
            exists|now: u64|
                now >= old(self).latest() && final(self).latest() == now && final(self)@ == old(
                    self,
                )@.insert(addr, #[trigger] fresh_connection(now)),
            final(self).timeout() == old(self).timeout(),
    {
        let now = self.now();
        self.update_ping_at(addr, now);
        assert(final(self)@ == old(self)@.insert(addr, fresh_connection(now)));
    }

    /// Checks at time `now` which active clients have been silent for longer
    /// than the timeout, marks them inactive and returns them.
    pub fn check_timeouts_at(&mut self, now: u64) -> (timed_out_clients: Vec<ClientAddr>)
        ensures
            final(self)@ == after_check(old(self)@, now, old(self).timeout()),
            final(self).timeout() == old(self).timeout(),
            final(self).latest() == max_time(old(self).latest(), now),
            timed_out_clients@.to_set() == timed_out(old(self)@, now, old(self).timeout()),
            timed_out_clients@.no_duplicates(),
    {
        proof {
            use_type_invariant(&*self);
            lemma_entries_map(self.clients@);
        }
        let ghost old_entries = self.clients@;
        let ghost old_map = self@;
        let limit: u128 = (self.timeout_secs as u128) * NANOS_PER_SEC;
        let mut clients: Vec<(ClientAddr, ClientConnection)> = Vec::new();
        std::mem::swap(&mut clients, &mut self.clients);
        let mut result: Vec<ClientAddr> = Vec::new();
        let mut i: usize = 0;
        while i < clients.len()
            invariant
                i <= clients@.len(),
                clients@.len() == old_entries.len(),
                limit == old(self).timeout_secs * 1_000_000_000,
                distinct_keys(old_entries),
                forall|j: int| 0 <= j < clients@.len() ==> #[trigger] clients@[j].0 == old_entries[j].0,
                forall|j: int|
                    0 <= j < i ==> #[trigger] clients@[j].1 == (if is_expired(
                        old_entries[j].1,
                        now,
                        old(self).timeout_secs,
                    ) {
                        ClientConnection { last_ping: old_entries[j].1.last_ping, is_active: false }
                    } else {
                        old_entries[j].1
                    }),
                forall|j: int| i <= j < clients@.len() ==> #[trigger] clients@[j] == old_entries[j],
                forall|k: ClientAddr|
                    #[trigger] result@.contains(k) <==> exists|j: int|
                        0 <= j < i && #[trigger] old_entries[j].0 == k && is_expired(
                            old_entries[j].1,
                            now,
                            old(self).timeout_secs,
                        ),
                result@.no_duplicates(),
            decreases clients.len() - i,
        {
            let (addr, conn) = clients[i];
            let gone: u64 = if now >= conn.last_ping {
                now - conn.last_ping
            } else {
                0
            };
            if conn.is_active && (gone as u128) > limit {
                clients.set(i, (addr, ClientConnection { last_ping: conn.last_ping, is_active: false }));
                proof {
                    assert forall|k: ClientAddr| result@.contains(k) implies k != addr by {
                        let j = choose|j: int|
                            0 <= j < i && #[trigger] old_entries[j].0 == k && is_expired(
                                old_entries[j].1,
                                now,
                                old(self).timeout_secs,
                            );
                        assert(old_entries[j].0 != old_entries[i as int].0);
                    }
                }
                let ghost before = result@;
                result.push(addr);
                proof {
                    assert forall|k: ClientAddr|
                        #[trigger] result@.contains(k) <==> exists|j: int|
                            0 <= j < i + 1 && #[trigger] old_entries[j].0 == k && is_expired(
                                old_entries[j].1,
                                now,
                                old(self).timeout_secs,
                            ) by {
                        if result@.contains(k) {
                            if k != addr {
                                assert(before.contains(k));
                            } else {
                                assert(old_entries[i as int].0 == k);
                            }
                        }
                        if exists|j: int|
                            0 <= j < i + 1 && #[trigger] old_entries[j].0 == k && is_expired(
                                old_entries[j].1,
                                now,
                                old(self).timeout_secs,
                            ) {
                            let j = choose|j: int|
                                0 <= j < i + 1 && #[trigger] old_entries[j].0 == k && is_expired(
                                    old_entries[j].1,
                                    now,
                                    old(self).timeout_secs,
                                );
                            if j < i {
                                assert(before.contains(k));
                                assert(result@[before.index_of(k)] == k);
                            } else {
                                assert(result@[result@.len() - 1] == k);
                            }
                        }
                    }
                    assert(result@.no_duplicates()) by {
                        assert forall|a: int, b: int| 0 <= a < result@.len() && 0 <= b < result@.len() && a != b
                            implies result@[a] != result@[b] by {
                            if a < before.len() && b < before.len() {
                                assert(before[a] == result@[a] && before[b] == result@[b]);
                            } else if a < before.len() {
                                assert(before.contains(result@[a]));
                            } else if b < before.len() {
                                assert(before.contains(result@[b]));
                            }
                        }
                    }
                }
            } else {
                proof {
                    assert forall|k: ClientAddr|
                        #[trigger] result@.contains(k) <==> exists|j: int|
                            0 <= j < i + 1 && #[trigger] old_entries[j].0 == k && is_expired(
                                old_entries[j].1,
                                now,
                                old(self).timeout_secs,
                            ) by {
                        if exists|j: int|
                            0 <= j < i + 1 && #[trigger] old_entries[j].0 == k && is_expired(
                                old_entries[j].1,
                                now,
                                old(self).timeout_secs,
                            ) {
                            let j = choose|j: int|
                                0 <= j < i + 1 && #[trigger] old_entries[j].0 == k && is_expired(
                                    old_entries[j].1,
                                    now,
                                    old(self).timeout_secs,
                                );
                            assert(j != i);
                        }
                    }
                }
            }
            i = i + 1;
        }
        proof {
            assert(distinct_keys(clients@)) by {
                assert forall|a: int, b: int| 0 <= a < b < clients@.len() implies #[trigger] clients@[a].0
                    != #[trigger] clients@[b].0 by {
                    assert(old_entries[a].0 != old_entries[b].0);
                }
            }
            lemma_entries_map(clients@);
            let target = after_check(old_map, now, old(self).timeout_secs);
            assert forall|k: ClientAddr| #[trigger]
                entries_map(clients@).contains_key(k) == target.contains_key(k) by {
                if entries_map(clients@).contains_key(k) {
                    let j = choose|j: int| 0 <= j < clients@.len() && #[trigger] clients@[j].0 == k;
                    assert(old_entries[j].0 == k);
                }
                if old_map.contains_key(k) {
                    let j = choose|j: int| 0 <= j < old_entries.len() && #[trigger] old_entries[j].0 == k;
                    assert(clients@[j].0 == k);
                }
            }
            assert forall|k: ClientAddr| #[trigger] entries_map(clients@).contains_key(k) implies
                entries_map(clients@)[k] == target[k] by {
                let j = choose|j: int| 0 <= j < clients@.len() && #[trigger] clients@[j].0 == k;
                assert(old_entries[j].0 == k);
                assert(old_map[old_entries[j].0] == old_entries[j].1);
            }
            assert(entries_map(clients@) =~= target);
            let expected = timed_out(old_map, now, old(self).timeout_secs);
            assert forall|k: ClientAddr| result@.to_set().contains(k) == expected.contains(k) by {
                if result@.contains(k) {
                    let j = choose|j: int|
                        0 <= j < clients@.len() && #[trigger] old_entries[j].0 == k && is_expired(
                            old_entries[j].1,
                            now,
                            old(self).timeout_secs,
                        );
                    assert(old_map[old_entries[j].0] == old_entries[j].1);
                }
                if expected.contains(k) {
                    let j = choose|j: int| 0 <= j < old_entries.len() && #[trigger] old_entries[j].0 == k;
                    assert(old_map[old_entries[j].0] == old_entries[j].1);
                }
            }
            assert(result@.to_set() =~= expected);
        }
        self.clients = clients;
        self.see(now);
        result
    }

    /// Checks now which active clients have been silent for longer than the
    /// timeout, marks them inactive and returns them.
    pub fn check_timeouts(&mut self) -> (timed_out_clients: Vec<ClientAddr>)
        ensures
            exists|now: u64|
                #![trigger after_check(old(self)@, now, old(self).timeout())]
                now >= old(self).latest() && final(self).latest() == now && final(self)@
                    == after_check(old(self)@, now, old(self).timeout())
                    && timed_out_clients@.to_set() == timed_out(old(self)@, now, old(self).timeout()),
            final(self).timeout() == old(self).timeout(),
            timed_out_clients@.no_duplicates(),
    {
        let now = self.now();
        let r = self.check_timeouts_at(now);
        assert(final(self)@ == after_check(old(self)@, now, old(self).timeout()));
        r
    }

    /// Forgets a client.
    pub fn remove_client(&mut self, addr: &ClientAddr)
        ensures
            final(self)@ == old(self)@.remove(*addr),
            final(self).timeout() == old(self).timeout(),
            final(self).latest() == old(self).latest(),
    {
        proof {
            use_type_invariant(&*self);
            lemma_entries_map(self.clients@);
        }
        let ghost old_map = self@;
        match self.find(addr) {
            None => {
                assert(!old_map.contains_key(*addr));
                assert(old_map.remove(*addr) =~= old_map);
            },
            Some(i) => {
                let mut clients: Vec<(ClientAddr, ClientConnection)> = Vec::new();
        std::mem::swap(&mut clients, &mut self.clients);
                let ghost old_entries = clients@;
                clients.remove(i);
                proof {
                    assert forall|j: int| 0 <= j < clients@.len() implies #[trigger] clients@[j] == (if j < i {
                        old_entries[j]
                    } else {
                        old_entries[j + 1]
                    }) by {}
                    assert(distinct_keys(clients@)) by {
                        assert forall|a: int, b: int| 0 <= a < b < clients@.len() implies #[trigger] clients@[a].0
                            != #[trigger] clients@[b].0 by {
                            let a2 = if a < i { a } else { a + 1 };
                            let b2 = if b < i { b } else { b + 1 };
                            assert(old_entries[a2].0 != old_entries[b2].0);
                        }
                    }
                    lemma_entries_map(clients@);
                    let target = old_map.remove(*addr);
                    assert forall|k: ClientAddr| #[trigger]
                        entries_map(clients@).contains_key(k) == target.contains_key(k) by {
                        if entries_map(clients@).contains_key(k) {
                            let j = choose|j: int| 0 <= j < clients@.len() && #[trigger] clients@[j].0 == k;
                            let j2 = if j < i { j } else { j + 1 };
                            assert(old_entries[j2].0 == k);
                            assert(j2 != i);
                        }
                        if target.contains_key(k) {
                            let j = choose|j: int| 0 <= j < old_entries.len() && #[trigger] old_entries[j].0 == k;
                            assert(j != i);
                            let j2 = if j < i { j } else { j - 1 };
                            assert(clients@[j2].0 == k);
                        }
                    }
                    assert forall|k: ClientAddr| #[trigger] entries_map(clients@).contains_key(k) implies
                        entries_map(clients@)[k] == target[k] by {
                        let j = choose|j: int| 0 <= j < clients@.len() && #[trigger] clients@[j].0 == k;
                        let j2 = if j < i { j } else { j + 1 };
                        assert(old_entries[j2] == clients@[j]);
                        assert(old_map[old_entries[j2].0] == old_entries[j2].1);
                    }
                    assert(entries_map(clients@) =~= target);
                }
                self.clients = clients;
            },
        }
    }

    /// Whether `addr` is known and its stream still alive.
    pub fn is_client_active(&self, addr: &ClientAddr) -> (active: bool)
        ensures
            active == (self@.contains_key(*addr) && self@[*addr].is_active),
    {
        proof {
            use_type_invariant(self);
            lemma_entries_map(self.clients@);
        }
        match self.find(addr) {
            Some(i) => self.clients[i].1.is_active,
            None => false,
        }
    }
}

// ------------------------------------------------------------------
// Laws
// ------------------------------------------------------------------

/// A check made at the moment a client pings never reports that client.
pub proof fn law_fresh_ping_not_timed_out(
    m: Map<ClientAddr, ClientConnection>,
    addr: ClientAddr,
    now: u64,
    timeout_secs: u64,
)
    ensures
        !timed_out(m.insert(addr, fresh_connection(now)), now, timeout_secs).contains(addr),
        m.insert(addr, fresh_connection(now))[addr].is_active,
{
}

/// A client is reported timed out once: no later check, at any time, reports
/// it again unless it pings in between.
pub proof fn law_timed_out_reported_once(
    m: Map<ClientAddr, ClientConnection>,
    now: u64,
    later: u64,
    timeout_secs: u64,
)
    ensures
        timed_out(m, now, timeout_secs).disjoint(
            timed_out(after_check(m, now, timeout_secs), later, timeout_secs),
        ),
{
    let first = timed_out(m, now, timeout_secs);
    let second = timed_out(after_check(m, now, timeout_secs), later, timeout_secs);
    assert forall|k: ClientAddr| first.contains(k) implies !second.contains(k) by {}
}

/// A check neither adds nor forgets clients, and leaves every client it does
/// not report as it was.
pub proof fn law_check_keeps_clients(
    m: Map<ClientAddr, ClientConnection>,
    now: u64,
    timeout_secs: u64,
)
    ensures
        after_check(m, now, timeout_secs).dom() == m.dom(),
        forall|k: ClientAddr|
            m.contains_key(k) && !timed_out(m, now, timeout_secs).contains(k) ==> #[trigger] after_check(
                m,
                now,
                timeout_secs,
            )[k] == m[k],
        forall|k: ClientAddr|
            timed_out(m, now, timeout_secs).contains(k) ==> !(#[trigger] after_check(
                m,
                now,
                timeout_secs,
            )[k]).is_active,
{
    assert(after_check(m, now, timeout_secs).dom() =~= m.dom());
}

/// A client that has been removed is neither active nor ever reported.
pub proof fn law_removed_client_silent(
    m: Map<ClientAddr, ClientConnection>,
    addr: ClientAddr,
    now: u64,
    timeout_secs: u64,
)
    ensures
        !m.remove(addr).contains_key(addr),
        !timed_out(m.remove(addr), now, timeout_secs).contains(addr),
{
}


// ------------------------------------------------------------------
// The history of a monitor
// ------------------------------------------------------------------

/// One call on a monitor, with the clock reading it uses.
pub enum MonitorOp {
    /// `update_ping` for `addr` at `now`.
    Ping { addr: ClientAddr, now: u64 },
    /// `check_timeouts` at `now`.
    Check { now: u64 },
    /// `remove_client` for `addr`.
    Remove { addr: ClientAddr },
}

/// The clients after one call, as the calls' contracts state it.
pub open spec fn apply_op(
    m: Map<ClientAddr, ClientConnection>,
    op: MonitorOp,
    timeout_secs: u64,
) -> Map<ClientAddr, ClientConnection> {
    match op {
        MonitorOp::Ping { addr, now } => m.insert(addr, fresh_connection(now)),
        MonitorOp::Check { now } => after_check(m, now, timeout_secs),
        MonitorOp::Remove { addr } => m.remove(addr),
    }
}

/// The clients of a new monitor after a sequence of calls.
pub open spec fn history(ops: Seq<MonitorOp>, timeout_secs: u64) -> Map<ClientAddr, ClientConnection>
    decreases ops.len(),
{
    if ops.len() == 0 {
        Map::empty()
    } else {
        apply_op(history(ops.drop_last(), timeout_secs), ops.last(), timeout_secs)
    }
}

/// Whether the call at position `i` is a ping from `a`.
pub open spec fn pings(ops: Seq<MonitorOp>, i: int, a: ClientAddr) -> bool {
    ops[i] matches MonitorOp::Ping { addr, .. } && addr == a
}

/// Whether the call at position `i` ends `a`'s activity: it removes `a`, or it
/// is a check whose returned clients include `a`.
pub open spec fn ends_activity(ops: Seq<MonitorOp>, i: int, a: ClientAddr, timeout_secs: u64) -> bool {
    match ops[i] {
        MonitorOp::Remove { addr } => addr == a,
        MonitorOp::Check { now } => timed_out(history(ops.take(i), timeout_secs), now, timeout_secs).contains(a),
        MonitorOp::Ping { .. } => false,
    }
}

/// Whether `a` pinged at some point with no end of its activity since.
pub open spec fn pinged_since_last_end(ops: Seq<MonitorOp>, a: ClientAddr, timeout_secs: u64) -> bool {
    exists|i: int|
        0 <= i < ops.len() && #[trigger] pings(ops, i, a) && forall|j: int|
            i < j < ops.len() ==> !#[trigger] ends_activity(ops, j, a, timeout_secs)
}

/// Whether `a` is active in a client map (what `is_client_active` answers).
pub open spec fn active_in(m: Map<ClientAddr, ClientConnection>, a: ClientAddr) -> bool {
    m.contains_key(a) && m[a].is_active
}

/// Appending a call leaves the earlier calls' ends of activity as they were.
proof fn lemma_ends_activity_prefix(ops: Seq<MonitorOp>, j: int, a: ClientAddr, timeout_secs: u64)
    requires
        ops.len() > 0,
        0 <= j < ops.len() - 1,
    ensures
        ends_activity(ops, j, a, timeout_secs) == ends_activity(ops.drop_last(), j, a, timeout_secs),
{
    assert(ops.take(j) =~= ops.drop_last().take(j));
}

/// A client is active after any sequence of calls on a new monitor exactly when
/// it pinged, and since its last ping was neither removed nor returned by a
/// check.
pub proof fn law_active_iff_pinged_since_last_end(ops: Seq<MonitorOp>, a: ClientAddr, timeout_secs: u64)
    ensures
        active_in(history(ops, timeout_secs), a) == pinged_since_last_end(ops, a, timeout_secs),
    decreases ops.len(),
{
    if ops.len() == 0 {
        return;
    }
    let prev = ops.drop_last();
    let n = ops.len() - 1;
    law_active_iff_pinged_since_last_end(prev, a, timeout_secs);
    let m0 = history(prev, timeout_secs);
    assert(ops.take(n) =~= prev);
    assert forall|j: int| 0 <= j < n implies #[trigger] ends_activity(ops, j, a, timeout_secs)
        == ends_activity(prev, j, a, timeout_secs) by {
        lemma_ends_activity_prefix(ops, j, a, timeout_secs);
    }
    assert forall|j: int| 0 <= j < n implies #[trigger] pings(ops, j, a) == pings(prev, j, a) by {
        assert(ops[j] == prev[j]);
    }
    let last_is_ping = pings(ops, n, a);
    let last_ends = ends_activity(ops, n, a, timeout_secs);
    // Earlier pings count for `ops` exactly when they count for `prev` and the
    // last call does not end the activity.
    if pinged_since_last_end(prev, a, timeout_secs) && !last_ends {
        let i = choose|i: int|
            0 <= i < prev.len() && #[trigger] pings(prev, i, a) && forall|j: int|
                i < j < prev.len() ==> !#[trigger] ends_activity(prev, j, a, timeout_secs);
        assert(pings(ops, i, a));
        assert forall|j: int| i < j < ops.len() implies !#[trigger] ends_activity(ops, j, a, timeout_secs) by {
            if j < n {
                assert(!ends_activity(prev, j, a, timeout_secs));
            }
        }
        assert(pinged_since_last_end(ops, a, timeout_secs));
    }
    if last_is_ping {
        assert(!last_ends);
        assert(pinged_since_last_end(ops, a, timeout_secs));
    }
    if pinged_since_last_end(ops, a, timeout_secs) {
        let i = choose|i: int|
            0 <= i < ops.len() && #[trigger] pings(ops, i, a) && forall|j: int|
                i < j < ops.len() ==> !#[trigger] ends_activity(ops, j, a, timeout_secs);
        if i < n {
            assert(!ends_activity(ops, n, a, timeout_secs));
            assert(pings(prev, i, a));
            assert forall|j: int| i < j < prev.len() implies !#[trigger] ends_activity(prev, j, a, timeout_secs) by {
                assert(!ends_activity(ops, j, a, timeout_secs));
            }
            assert(pinged_since_last_end(prev, a, timeout_secs));
        }
    }
    // So `ops` has such a ping exactly when the last call is a ping from `a`,
    // or `prev` has one and the last call does not end the activity.
    assert(pinged_since_last_end(ops, a, timeout_secs) == (last_is_ping || (pinged_since_last_end(
        prev,
        a,
        timeout_secs,
    ) && !last_ends)));
    match ops.last() {
        MonitorOp::Ping { addr, now } => {
            assert(ops[n] == ops.last());
        },
        MonitorOp::Check { now } => {
            assert(ops[n] == ops.last());
            assert(history(ops, timeout_secs) == after_check(m0, now, timeout_secs));
        },
        MonitorOp::Remove { addr } => {
            assert(ops[n] == ops.last());
        },
    }
}

} // verus!
