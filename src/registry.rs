//! The hub's registry of live peer sessions.
//!
//! The registry maps a peer id to the outbound handle of its connection. It
//! is generic over the handle type: the runtime supplies an ordered channel,
//! and the registry only keeps it, hands it out, and reports which handle is
//! to be told what. Delivery with retry is split into a lookup
//! ([`ClientSenders::outbound_of`]), a retry counter ([`SendRetry`]) and the
//! bookkeeping of the outcome ([`ClientSenders::conclude_send`]).
use crate::envelope::{handshake_bytes, id_fits, Category, Envelope};
use vstd::prelude::*;

verus! {

/// Seconds after the last delivery at which a session counts as stale.
pub const STALE_AFTER_SECS: i64 = 30;

/// Seconds between two sweeps for stale sessions.
pub const SWEEP_INTERVAL_SECS: u64 = 15;

/// Delivery attempts made before a send is reported as failed.
pub const MAX_ATTEMPTS: u32 = 6;

/// Pause between two delivery attempts, in milliseconds.
pub const RETRY_DELAY_MILLIS: u64 = 1000;

/// One live peer: its id, the outbound handle of its connection and the time,
/// in seconds, of the last successful delivery to it.
pub struct ClientSender<H> {
    pub peer: String,
    pub sx: H,
    pub send_time: i64,
}

impl<H> ClientSender<H> {
    pub fn write_time(&mut self, now: i64)
        ensures
            final(self).send_time == now,
            final(self).peer == old(self).peer,
            final(self).sx == old(self).sx,
    {
        self.send_time = now;
    }
}

/// A message that the runtime is to deliver on a handle the registry let go of.
pub struct Notice<H> {
    pub to: H,
    pub envelope: Envelope,
}

pub open spec fn is_stale<H>(s: ClientSender<H>, now: i64) -> bool {
    s.send_time + STALE_AFTER_SECS < now
}

pub open spec fn unique_peers<H>(s: Seq<ClientSender<H>>) -> bool {
    forall|i: int, j: int|
        0 <= i < s.len() && 0 <= j < s.len() && i != j ==> s[i].peer@ != s[j].peer@
}

pub open spec fn has_peer<H>(s: Seq<ClientSender<H>>, id: Seq<char>) -> bool {
    exists|i: int| 0 <= i < s.len() && s[i].peer@ == id
}

/// Position of the session of `id`, if there is one.
pub open spec fn find_peer<H>(s: Seq<ClientSender<H>>, id: Seq<char>) -> Option<int> {
    if has_peer(s, id) {
        Some(choose|i: int| 0 <= i < s.len() && s[i].peer@ == id)
    } else {
        None
    }
}

/// Sessions after registering `peer` with handle `sx`.
pub open spec fn added<H>(s: Seq<ClientSender<H>>, peer: String, sx: H) -> Seq<ClientSender<H>> {
    match find_peer(s, peer@) {
        Some(i) => s.update(i, ClientSender { peer: s[i].peer, sx, send_time: s[i].send_time }),
        None => s.push(ClientSender { peer, sx, send_time: 0 }),
    }
}

/// The handle that registering `id` replaces, if any.
pub open spec fn displaced<H>(s: Seq<ClientSender<H>>, id: Seq<char>) -> Option<H> {
    match find_peer(s, id) {
        Some(i) => Some(s[i].sx),
        None => None,
    }
}

/// Sessions after removing the one of `id`.
pub open spec fn removed<H>(s: Seq<ClientSender<H>>, id: Seq<char>) -> Seq<ClientSender<H>> {
    match find_peer(s, id) {
        Some(i) => s.remove(i),
        None => s,
    }
}

/// Sessions after a delivery to `id` succeeded at time `now`.
pub open spec fn marked<H>(s: Seq<ClientSender<H>>, id: Seq<char>, now: i64) -> Seq<ClientSender<H>> {
    match find_peer(s, id) {
        Some(i) => s.update(i, ClientSender { peer: s[i].peer, sx: s[i].sx, send_time: now }),
        None => s,
    }
}

/// Sessions after a send to `id` ended, delivered or not: a delivery stamps
/// the time, a failure evicts the peer.
pub open spec fn concluded<H>(s: Seq<ClientSender<H>>, id: Seq<char>, delivered: bool, now: i64) -> Seq<
    ClientSender<H>,
> {
    if delivered {
        marked(s, id, now)
    } else {
        removed(s, id)
    }
}

/// Sessions that survive a sweep at time `now`.
pub open spec fn swept<H>(s: Seq<ClientSender<H>>, now: i64) -> Seq<ClientSender<H>> {
    s.filter(|c: ClientSender<H>| !is_stale(c, now))
}

pub open spec fn peer_ids<H>(s: Seq<ClientSender<H>>) -> Seq<Seq<char>> {
    s.map_values(|c: ClientSender<H>| c.peer@)
}

pub open spec fn string_views(v: Seq<String>) -> Seq<Seq<char>> {
    v.map_values(|p: String| p@)
}

/// Ids of the registered peers that `active` does not list, in registry order.
pub open spec fn inactive_ids<H>(s: Seq<ClientSender<H>>, active: Seq<String>) -> Seq<Seq<char>> {
    peer_ids(s).filter(|id: Seq<char>| !string_views(active).contains(id))
}

pub proof fn lemma_find_peer<H>(s: Seq<ClientSender<H>>, id: Seq<char>, i: int)
    requires
        unique_peers(s),
        0 <= i < s.len(),
        s[i].peer@ == id,
    ensures
        find_peer(s, id) == Some(i),
{
}

/// What the retry counter says after one delivery attempt.
#[derive(PartialEq, Eq, Structural, Clone, Copy, Debug)]
pub enum RetryStep {
    /// The attempt succeeded.
    Delivered,
    /// The attempt failed: wait this many milliseconds, then try again.
    RetryAfterMillis(u64),
    /// The attempt failed and was the last one: report failure.
    Exhausted,
}

/// The step after an attempt, given the number of attempts made before it.
pub open spec fn retry_step(made_before: nat, delivered: bool) -> RetryStep {
    if delivered {
        RetryStep::Delivered
    } else if made_before + 1 >= MAX_ATTEMPTS {
        RetryStep::Exhausted
    } else {
        RetryStep::RetryAfterMillis(RETRY_DELAY_MILLIS)
    }
}

/// Counts the delivery attempts of one send.
pub struct SendRetry {
    pub attempts: u32,
}

impl SendRetry {
    pub fn new() -> (r: SendRetry)
        ensures
            r.attempts == 0,
    {
        SendRetry { attempts: 0 }
    }

    /// Records the outcome of one more attempt.
    pub fn after_attempt(&mut self, delivered: bool) -> (r: RetryStep)
        requires
            old(self).attempts < MAX_ATTEMPTS,
        ensures
            final(self).attempts == old(self).attempts + 1,
            r == retry_step(old(self).attempts as nat, delivered),
    {
        let made_before = self.attempts;
        self.attempts = self.attempts + 1;
        if delivered {
            RetryStep::Delivered
        } else if made_before + 1 >= MAX_ATTEMPTS {
            RetryStep::Exhausted
        } else {
            RetryStep::RetryAfterMillis(RETRY_DELAY_MILLIS)
        }
    }
}

pub struct ClientSenders<H> {
    lists: Vec<ClientSender<H>>,
}

impl<H> View for ClientSenders<H> {
    type V = Seq<ClientSender<H>>;

    closed spec fn view(&self) -> Seq<ClientSender<H>> {
        self.lists@
    }
}

impl<H> ClientSenders<H> {
    /// At most one session per peer id.
    pub open spec fn wf(&self) -> bool {
        unique_peers(self@)
    }

    pub fn new() -> (r: Self)
        ensures
            r@ == Seq::<ClientSender<H>>::empty(),
            r.wf(),
    {
        ClientSenders { lists: Vec::new() }
    }

    pub fn len(&self) -> (r: usize)
        ensures
            r == self@.len(),
    {
        self.lists.len()
    }

    fn find(&self, peer: &String) -> (r: Option<usize>)
        requires
            self.wf(),
        ensures
            match r {
                Some(i) => i < self@.len() && self@[i as int].peer@ == peer@ && find_peer(self@, peer@)
                    == Some(i as int),
                None => !has_peer(self@, peer@) && find_peer(self@, peer@) is None,
            },
    {
        let mut i: usize = 0;
        while i < self.lists.len()
            invariant
                self.wf(),
                i <= self.lists@.len(),
                forall|k: int| 0 <= k < i ==> self.lists@[k].peer@ != peer@,
            decreases self.lists@.len() - i,
        {
            if self.lists[i].peer == *peer {
                proof {
                    lemma_find_peer(self@, peer@, i as int);
                }
                return Some(i);
            }
            i += 1;
        }
        None
    }

    /// Whether a session for `peer` is registered.
    pub fn contains(&self, peer: &String) -> (r: bool)
        requires
            self.wf(),
        ensures
            r == has_peer(self@, peer@),
    {
        self.find(peer).is_some()
    }

    /// The session at a position, in registry order.
    pub fn get(&self, index: usize) -> (r: &ClientSender<H>)
        requires
            index < self@.len(),
        ensures
            *r == self@[index as int],
    {
        &self.lists[index]
    }

    /// Registers `peer` on handle `sx`. A peer already present keeps its
    /// session and delivery time but gets the new handle; the old handle is
    /// returned with the `Disconnect` envelope it is to be sent,
    /// best effort.
    pub fn add(&mut self, peer: String, sx: H) -> (r: Option<Notice<H>>)
        requires
            old(self).wf(),
            id_fits(peer@),
        ensures
            final(self).wf(),
            final(self)@ == added(old(self)@, peer, sx),
            r is Some <==> displaced(old(self)@, peer@) is Some,
            r matches Some(n) ==> (Some(n.to) == displaced(old(self)@, peer@)
                && n.envelope.category == Category::Disconnect && n.envelope.payload@
                == handshake_bytes(peer@) && n.envelope.wf()),
    {
        proof {
            lemma_added_unique(self@, peer, sx);
        }
        match self.find(&peer) {
            Some(i) => {
                let envelope = Envelope::disconnect(&peer);
                let old_session = self.lists.remove(i);
                let ClientSender { peer: kept, sx: old_sx, send_time } = old_session;
                self.lists.insert(i, ClientSender { peer: kept, sx, send_time });
                proof {
                    assert(self.lists@ =~= added(old(self)@, peer, sx));
                }
                Some(Notice { to: old_sx, envelope })
            },
            None => {
                self.lists.push(ClientSender { peer, sx, send_time: 0 });
                None
            },
        }
    }

    /// The outbound handle of `peer`, if registered.
    pub fn outbound_of(&self, peer: &String) -> (r: Option<&H>)
        requires
            self.wf(),
        ensures
            match find_peer(self@, peer@) {
                Some(i) => r matches Some(h) && *h == self@[i].sx,
                None => r is None,
            },
    {
        match self.find(peer) {
            Some(i) => Some(&self.lists[i].sx),
            None => None,
        }
    }

    /// Deletes the session of `peer`, if any.
    pub fn remove(&mut self, peer: String)
        requires
            old(self).wf(),
        ensures
            final(self).wf(),
            final(self)@ == removed(old(self)@, peer@),
    {
        match self.find(&peer) {
            Some(i) => {
                self.lists.remove(i);
                proof {
                    assert forall|a: int, b: int|
                        0 <= a < self@.len() && 0 <= b < self@.len() && a != b implies self@[a].peer@
                        != self@[b].peer@ by {
                        let oa = if a < i { a } else { a + 1 };
                        let ob = if b < i { b } else { b + 1 };
                        assert(self@[a] == old(self)@[oa]);
                        assert(self@[b] == old(self)@[ob]);
                    }
                }
            },
            None => {},
        }
    }

    /// Stamps the session of `peer`, if any, with the time of a delivery.
    pub fn mark_sent(&mut self, peer: &String, now: i64)
        requires
            old(self).wf(),
        ensures
            final(self).wf(),
            final(self)@ == marked(old(self)@, peer@, now),
    {
        match self.find(peer) {
            Some(i) => {
                let mut session = self.lists.remove(i);
                session.write_time(now);
                self.lists.insert(i, session);
                proof {
                    assert(self.lists@ =~= marked(old(self)@, peer@, now));
                    assert forall|a: int, b: int|
                        0 <= a < self@.len() && 0 <= b < self@.len() && a != b implies self@[a].peer@
                        != self@[b].peer@ by {
                        assert(self@[a].peer@ == old(self)@[a].peer@);
                        assert(self@[b].peer@ == old(self)@[b].peer@);
                    }
                }
            },
            None => {},
        }
    }

    /// Books the end of a send to `peer`: a delivery stamps the session with
    /// `now`; a failure, once the retries are spent, evicts the peer. Returns
    /// whether the send counts as a success, which a send to a peer that is
    /// not registered always does.
    pub fn conclude_send(&mut self, peer: &String, delivered: bool, now: i64) -> (r: bool)
        requires
            old(self).wf(),
        ensures
            final(self).wf(),
            final(self)@ == concluded(old(self)@, peer@, delivered, now),
            r == (delivered || !has_peer(old(self)@, peer@)),
    {
        let present = self.contains(peer);
        if delivered {
            self.mark_sent(peer, now);
        } else {
            self.remove(peer.clone());
        }
        delivered || !present
    }

    /// Removes every session whose last delivery is more than
    /// [`STALE_AFTER_SECS`] seconds before `now`.
    pub fn check_client_send_time(&mut self, now: i64)
        requires
            old(self).wf(),
        ensures
            final(self).wf(),
            final(self)@ == swept(old(self)@, now),
    {
        let ghost start = self@;
        let mut rest: Vec<ClientSender<H>> = Vec::new();
        std::mem::swap(&mut rest, &mut self.lists);
        let n: usize = rest.len();
        let mut i: usize = 0;
        while rest.len() > 0
            invariant
                n == start.len(),
                i <= n,
                rest@ == start.subrange(i as int, n as int),
                self.lists@ == swept(start.subrange(0, i as int), now),
                unique_peers(start),
                unique_peers(self.lists@),
                forall|k: int|
                    0 <= k < self.lists@.len() ==> exists|j: int|
                        0 <= j < i && #[trigger] self.lists@[k] == start[j],
            decreases rest@.len(),
        {
            let session = rest.remove(0);
            let ghost prefix = start.subrange(0, i as int + 1);
            proof {
                assert(prefix.drop_last() =~= start.subrange(0, i as int));
                assert(prefix.last() == session);
                reveal(Seq::filter);
            }
            if session.send_time as i128 + STALE_AFTER_SECS as i128 >= now as i128 {
                let ghost before = self.lists@;
                self.lists.push(session);
                proof {
                    assert forall|a: int, b: int|
                        0 <= a < self.lists@.len() && 0 <= b < self.lists@.len() && a != b implies
                        self.lists@[a].peer@ != self.lists@[b].peer@ by {
                        if a < before.len() && b < before.len() {
                        } else if a < before.len() {
                            let j = choose|j: int| 0 <= j < i && before[a] == start[j];
                            assert(start[j].peer@ != start[i as int].peer@);
                        } else {
                            let j = choose|j: int| 0 <= j < i && before[b] == start[j];
                            assert(start[j].peer@ != start[i as int].peer@);
                        }
                    }
                    assert forall|k: int| 0 <= k < self.lists@.len() implies exists|j: int|
                        0 <= j < i + 1 && #[trigger] self.lists@[k] == start[j] by {
                        if k < before.len() {
                            let j = choose|j: int| 0 <= j < i && before[k] == start[j];
                            assert(self.lists@[k] == start[j]);
                        } else {
                            assert(self.lists@[k] == start[i as int]);
                        }
                    }
                }
            }
            i += 1;
            proof {
                assert(rest@ =~= start.subrange(i as int, n as int));
            }
        }
        proof {
            assert(start.subrange(0, n as int) =~= start);
        }
    }

    /// Ids of the registered peers that `active` does not list, in registry
    /// order: the peers to be sent an `Expired` envelope.
    pub fn inactive_peers(&self, active: &Vec<String>) -> (r: Vec<String>)
        ensures
            string_views(r@) == inactive_ids(self@, active@),
    {
        let ghost s = self@;
        let mut out: Vec<String> = Vec::new();
        let mut i: usize = 0;
        while i < self.lists.len()
            invariant
                s == self@,
                i <= s.len(),
                string_views(out@) == peer_ids(s.subrange(0, i as int)).filter(
                    |id: Seq<char>| !string_views(active@).contains(id),
                ),
            decreases s.len() - i,
        {
            let listed = list_holds(active, &self.lists[i].peer);
            let ghost ids = peer_ids(s.subrange(0, i as int + 1));
            proof {
                assert(ids.drop_last() =~= peer_ids(s.subrange(0, i as int)));
                assert(ids.last() == s[i as int].peer@);
                reveal(Seq::filter);
            }
            if !listed {
                let ghost before = out@;
                out.push(self.lists[i].peer.clone());
                proof {
                    assert(string_views(out@) =~= string_views(before).push(s[i as int].peer@));
                }
            }
            i += 1;
        }
        proof {
            assert(s.subrange(0, i as int) =~= s);
        }
        out
    }
}

/// Whether `list` holds a string equal to `id`.
fn list_holds(list: &Vec<String>, id: &String) -> (r: bool)
    ensures
        r == string_views(list@).contains(id@),
{
    let mut i: usize = 0;
    while i < list.len()
        invariant
            i <= list@.len(),
            forall|k: int| 0 <= k < i ==> list@[k]@ != id@,
        decreases list@.len() - i,
    {
        if list[i] == *id {
            proof {
                assert(string_views(list@)[i as int] == id@);
            }
            return true;
        }
        i += 1;
    }
    proof {
        assert forall|k: int| 0 <= k < string_views(list@).len() implies string_views(list@)[k]
            != id@ by {
            assert(string_views(list@)[k] == list@[k]@);
        }
    }
    false
}

pub proof fn lemma_added_unique<H>(s: Seq<ClientSender<H>>, peer: String, sx: H)
    requires
        unique_peers(s),
    ensures
        unique_peers(added(s, peer, sx)),
{
    let t = added(s, peer, sx);
    match find_peer(s, peer@) {
        Some(i) => {
            assert forall|a: int, b: int|
                0 <= a < t.len() && 0 <= b < t.len() && a != b implies t[a].peer@ != t[b].peer@ by {
                assert(t[a].peer@ == s[a].peer@);
                assert(t[b].peer@ == s[b].peer@);
            }
        },
        None => {},
    }
}

/// Every element of a filtered sequence comes from the sequence.
proof fn lemma_filter_from<A>(s: Seq<A>, pred: spec_fn(A) -> bool, k: int)
    requires
        0 <= k < s.filter(pred).len(),
    ensures
        s.contains(s.filter(pred)[k]),
    decreases s.len(),
{
    reveal(Seq::filter);
    if s.len() > 0 {
        let sub = s.drop_last().filter(pred);
        if k < sub.len() {
            lemma_filter_from(s.drop_last(), pred, k);
            let j = choose|j: int| 0 <= j < s.drop_last().len() && s.drop_last()[j] == sub[k];
            assert(s[j] == s.filter(pred)[k]);
        } else {
            assert(s[s.len() - 1] == s.filter(pred)[k]);
        }
    }
}

/// Once a peer's session is removed, no session for that peer is left.
pub proof fn lemma_removed_absent<H>(s: Seq<ClientSender<H>>, id: Seq<char>)
    requires
        unique_peers(s),
    ensures
        !has_peer(removed(s, id), id),
{
    match find_peer(s, id) {
        Some(i) => {
            let t = s.remove(i);
            assert forall|j: int| 0 <= j < t.len() implies t[j].peer@ != id by {
                if j < i {
                    assert(t[j] == s[j]);
                } else {
                    assert(t[j] == s[j + 1]);
                }
            }
        },
        None => {},
    }
}

/// Registering the same peer id twice: the first registration displaces
/// nothing; the second displaces exactly the first handle, which is the one
/// told to disconnect; afterwards exactly one session holds the id, and it is
/// bound to the second handle.
pub proof fn lemma_register_twice<H>(
    s: Seq<ClientSender<H>>,
    first: String,
    second: String,
    h1: H,
    h2: H,
)
    requires
        unique_peers(s),
        !has_peer(s, first@),
        second@ == first@,
    ensures
        displaced(s, first@) is None,
        displaced(added(s, first, h1), second@) == Some(h1),
        unique_peers(added(added(s, first, h1), second, h2)),
        ({
            let t = added(added(s, first, h1), second, h2);
            &&& find_peer(t, first@) matches Some(i) && t[i].sx == h2
            &&& forall|j: int, k: int|
                0 <= j < t.len() && 0 <= k < t.len() && t[j].peer@ == first@ && t[k].peer@
                    == first@ ==> j == k
        }),
{
    let s1 = added(s, first, h1);
    lemma_added_unique(s, first, h1);
    assert(s1[s.len() as int].peer@ == first@);
    lemma_find_peer(s1, second@, s.len() as int);
    let t = added(s1, second, h2);
    lemma_added_unique(s1, second, h2);
    assert(t[s.len() as int].peer@ == first@);
    lemma_find_peer(t, first@, s.len() as int);
}

/// A send to a registered peer whose first attempt is accepted: the retry
/// counter reports delivery, the send succeeds, the session stays, and its
/// delivery time becomes `now`.
pub proof fn lemma_send_accepted<H>(s: Seq<ClientSender<H>>, id: Seq<char>, now: i64)
    requires
        unique_peers(s),
        has_peer(s, id),
    ensures
        retry_step(0, true) == RetryStep::Delivered,
        ({
            let t = concluded(s, id, true, now);
            &&& t.len() == s.len()
            &&& unique_peers(t)
            &&& find_peer(t, id) matches Some(i) && t[i].send_time == now && t[i].sx == s[i].sx
        }),
{
    let i = find_peer(s, id)->0;
    let t = concluded(s, id, true, now);
    assert forall|a: int, b: int|
        0 <= a < t.len() && 0 <= b < t.len() && a != b implies t[a].peer@ != t[b].peer@ by {
        assert(t[a].peer@ == s[a].peer@);
        assert(t[b].peer@ == s[b].peer@);
    }
    lemma_find_peer(t, id, i);
}

/// A send to a peer that is not registered finds no handle, succeeds, and
/// leaves the sessions as they were, whatever the delivery outcome booked.
pub proof fn lemma_send_to_absent<H>(s: Seq<ClientSender<H>>, id: Seq<char>, delivered: bool, now: i64)
    requires
        !has_peer(s, id),
    ensures
        find_peer(s, id) is None,
        delivered || !has_peer(s, id),
        concluded(s, id, delivered, now) == s,
{
}

/// A send whose every attempt fails: each of the first five failures asks for
/// a pause of one second and the sixth reports failure, so the send gives up
/// after exactly six attempts and five pauses (5000 ms: at least 5 s and under
/// 7 s); the peer is then no longer registered.
pub proof fn lemma_send_exhausted<H>(s: Seq<ClientSender<H>>, id: Seq<char>, now: i64)
    requires
        unique_peers(s),
    ensures
        forall|k: nat| k < 5 ==> #[trigger] retry_step(k, false) == RetryStep::RetryAfterMillis(1000),
        retry_step(5, false) == RetryStep::Exhausted,
        5000 <= 5 * RETRY_DELAY_MILLIS < 7000,
        !has_peer(concluded(s, id, false, now), id),
{
    lemma_removed_absent(s, id);
}

/// A sweep at `now` removes a session exactly when its last delivery lies
/// more than thirty seconds before `now`: one delivered to 31 s earlier goes,
/// one delivered to 29 s earlier stays.
pub proof fn lemma_sweep_threshold<H>(s: Seq<ClientSender<H>>, now: i64, i: int)
    requires
        unique_peers(s),
        0 <= i < s.len(),
    ensures
        is_stale(s[i], now) ==> !has_peer(swept(s, now), s[i].peer@),
        !is_stale(s[i], now) ==> swept(s, now).contains(s[i]),
        s[i].send_time + 31 == now ==> !has_peer(swept(s, now), s[i].peer@),
        s[i].send_time + 29 == now ==> swept(s, now).contains(s[i]),
{
    let pred = |c: ClientSender<H>| !is_stale(c, now);
    let t = swept(s, now);
    if is_stale(s[i], now) {
        assert forall|j: int| 0 <= j < t.len() implies t[j].peer@ != s[i].peer@ by {
            s.lemma_filter_pred(pred, j);
            lemma_filter_from(s, pred, j);
            let m = choose|m: int| 0 <= m < s.len() && s[m] == t[j];
            if t[j].peer@ == s[i].peer@ {
                assert(m == i);
            }
        }
    } else {
        s.lemma_filter_contains(pred, i);
    }
}

proof fn lemma_filter_no_duplicates<A>(s: Seq<A>, pred: spec_fn(A) -> bool)
    requires
        s.no_duplicates(),
    ensures
        s.filter(pred).no_duplicates(),
    decreases s.len(),
{
    reveal(Seq::filter);
    if s.len() > 0 {
        let rest = s.drop_last();
        let sub = rest.filter(pred);
        lemma_filter_no_duplicates(rest, pred);
        if pred(s.last()) {
            assert forall|k: int| 0 <= k < sub.len() implies sub[k] != s.last() by {
                lemma_filter_from(rest, pred, k);
                let j = choose|j: int| 0 <= j < rest.len() && rest[j] == sub[k];
                assert(s[j] == rest[j]);
            }
            let f = s.filter(pred);
            assert forall|a: int, b: int| 0 <= a < f.len() && 0 <= b < f.len() && a != b implies f[a]
                != f[b] by {
                if a < sub.len() && b < sub.len() {
                    assert(f[a] == sub[a] && f[b] == sub[b]);
                }
            }
        }
    }
}

/// The peers to be told they expired are exactly the registered peers that
/// the active list leaves out, each named once.
pub proof fn lemma_inactive_ids_exact<H>(s: Seq<ClientSender<H>>, active: Seq<String>, id: Seq<char>)
    requires
        unique_peers(s),
    ensures
        inactive_ids(s, active).contains(id) <==> (has_peer(s, id) && !string_views(
            active,
        ).contains(id)),
        inactive_ids(s, active).no_duplicates(),
{
    let pred = |x: Seq<char>| !string_views(active).contains(x);
    let ids = peer_ids(s);
    let f = inactive_ids(s, active);
    assert(ids.no_duplicates()) by {
        assert forall|a: int, b: int| 0 <= a < ids.len() && 0 <= b < ids.len() && a != b implies ids[a]
            != ids[b] by {
            assert(ids[a] == s[a].peer@ && ids[b] == s[b].peer@);
        }
    }
    lemma_filter_no_duplicates(ids, pred);
    if f.contains(id) {
        let k = choose|k: int| 0 <= k < f.len() && f[k] == id;
        ids.lemma_filter_pred(pred, k);
        lemma_filter_from(ids, pred, k);
        let i = choose|i: int| 0 <= i < ids.len() && ids[i] == id;
        assert(s[i].peer@ == id);
    }
    if has_peer(s, id) && pred(id) {
        let i = choose|i: int| 0 <= i < s.len() && s[i].peer@ == id;
        assert(ids[i] == id);
        ids.lemma_filter_contains(pred, i);
    }
}

} // verus!
