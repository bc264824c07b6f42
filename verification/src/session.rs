//! Sessions and the session registry.
//!
//! A session stands for one SSRC stream and owns the set of subscribers the
//! relay replicates that stream to. The registry keys sessions by SSRC and,
//! through a concurrent index, by their 128-bit identifier. Capacity limits
//! (`max_sessions`, `max_fanout_per_session`) and expiry are enforced here.
//!
//! Timestamps are plain milliseconds handed in by the caller; the library
//! never reads a clock itself.

use vstd::prelude::*;
use crate::Addr;
use crate::config::ServerConfig;

verus! {

/// Why an admission call was refused.
#[derive(Clone, Copy, PartialEq, Eq, Structural, Debug)]
pub enum RegistryError {
    /// The registry already holds `max_sessions` sessions.
    AtCapacity,
    /// The session already holds `max_fanout_per_session` subscribers.
    FanoutFull,
    /// No session exists for the given SSRC.
    NoSession,
}

/// A session's 128-bit identifier.
#[derive(Clone, Copy, PartialEq, Eq, Structural, Hash, Debug)]
pub struct SessionId(pub u128);

/// Relies on uuid::Uuid::new_v4 (read as a 128-bit integer) for a fresh
/// random identifier; nothing is promised of the value.
#[verifier::external_body]
fn fresh_uuid_value() -> (r: u128) {
    uuid::Uuid::new_v4().as_u128()
}

impl SessionId {
    /// Draw a fresh random identifier.
    pub fn new() -> Self {
        SessionId(fresh_uuid_value())
    }
}

/// One subscriber of a session: where to send, and per-subscriber bookkeeping.
#[derive(Clone, Copy, PartialEq, Eq, Structural, Debug)]
pub struct Subscriber {
    pub addr: Addr,
    pub joined_at: u64,
    pub last_seq: u16,
    pub packet_count: u64,
}

/// The subscriber entry `add_subscriber` installs.
pub open spec fn spec_fresh_subscriber(addr: Addr, now_ms: u64) -> Subscriber {
    Subscriber { addr, joined_at: now_ms, last_seq: 0, packet_count: 0 }
}

/// Some subscriber in the sequence has this address.
pub open spec fn spec_has_subscriber(subs: Seq<Subscriber>, addr: Addr) -> bool {
    exists|i: int| 0 <= i < subs.len() && subs[i].addr == addr
}

/// The larger of two timestamps.
pub open spec fn spec_max_u64(a: u64, b: u64) -> u64 {
    if a > b {
        a
    } else {
        b
    }
}

/// One SSRC stream: identity, source, subscriber set and counters.
#[derive(Debug, Clone)]
pub struct Session {
    pub id: SessionId,
    pub source_addr: Addr,
    pub ssrc: u32,
    pub subscribers: Vec<Subscriber>,
    pub created_at: u64,
    pub last_activity: u64,
    pub packet_count: u64,
    pub byte_count: u64,
}

/// What `Session::add_subscriber` does: on a known address the entry is
/// replaced afresh; below the fan-out cap a new entry is appended; at the cap
/// nothing changes. Activity is bumped exactly when the call succeeds.
pub open spec fn spec_add_subscriber_effect(
    s_old: Session,
    s_new: Session,
    addr: Addr,
    now_ms: u64,
    max_fanout: int,
    ok: bool,
) -> bool {
    &&& s_new.id == s_old.id
    &&& s_new.source_addr == s_old.source_addr
    &&& s_new.ssrc == s_old.ssrc
    &&& s_new.created_at == s_old.created_at
    &&& s_new.packet_count == s_old.packet_count
    &&& s_new.byte_count == s_old.byte_count
    &&& ok == (spec_has_subscriber(s_old.subscribers@, addr) || s_old.subscribers@.len() < max_fanout)
    &&& if spec_has_subscriber(s_old.subscribers@, addr) {
        &&& s_new.subscribers@.len() == s_old.subscribers@.len()
        &&& (exists|j: int|
            0 <= j < s_old.subscribers@.len() && s_old.subscribers@[j].addr == addr
                && s_new.subscribers@ == s_old.subscribers@.update(
                j,
                spec_fresh_subscriber(addr, now_ms),
            ))
        &&& s_new.last_activity == spec_max_u64(s_old.last_activity, now_ms)
    } else if s_old.subscribers@.len() < max_fanout {
        &&& s_new.subscribers@ == s_old.subscribers@.push(spec_fresh_subscriber(addr, now_ms))
        &&& s_new.last_activity == spec_max_u64(s_old.last_activity, now_ms)
    } else {
        s_new == s_old
    }
}

/// What `Session::remove_subscriber` does: the entry with this address, if
/// any, leaves the set and activity is bumped; otherwise nothing changes.
pub open spec fn spec_remove_subscriber_effect(
    s_old: Session,
    s_new: Session,
    addr: Addr,
    now_ms: u64,
    removed: bool,
) -> bool {
    &&& s_new.id == s_old.id
    &&& s_new.source_addr == s_old.source_addr
    &&& s_new.ssrc == s_old.ssrc
    &&& s_new.created_at == s_old.created_at
    &&& s_new.packet_count == s_old.packet_count
    &&& s_new.byte_count == s_old.byte_count
    &&& removed == spec_has_subscriber(s_old.subscribers@, addr)
    &&& if removed {
        &&& (exists|j: int|
            0 <= j < s_old.subscribers@.len() && s_old.subscribers@[j].addr == addr
                && s_new.subscribers@ == s_old.subscribers@.remove(j))
        &&& s_new.last_activity == spec_max_u64(s_old.last_activity, now_ms)
    } else {
        s_new == s_old
    }
}

/// Locate a subscriber entry by address.
fn find_subscriber(subs: &Vec<Subscriber>, addr: Addr) -> (r: Option<usize>)
    ensures
        match r {
            Some(j) => j < subs@.len() && subs@[j as int].addr == addr,
            None => !spec_has_subscriber(subs@, addr),
        },
{
    let mut j: usize = 0;
    while j < subs.len()
        invariant
            j <= subs@.len(),
            forall|k: int| 0 <= k < j ==> subs@[k].addr != addr,
        decreases subs@.len() - j,
    {
        if subs[j].addr == addr {
            return Some(j);
        }
        j = j + 1;
    }
    None
}

impl Session {
    /// No two subscriber entries share an address.
    pub open spec fn subscribers_distinct(&self) -> bool {
        forall|i: int, j: int|
            0 <= i < j < self.subscribers@.len() ==> self.subscribers@[i].addr
                != self.subscribers@[j].addr
    }

    /// No activity for longer than `timeout_secs` as of `now_ms`.
    pub open spec fn spec_expired(&self, timeout_secs: u64, now_ms: u64) -> bool {
        now_ms - self.last_activity > timeout_secs * 1000
    }

    /// A fresh session: no subscribers, zero counters, created now.
    pub fn new(id: SessionId, source_addr: Addr, ssrc: u32, now_ms: u64) -> (r: Self)
        ensures
            r.id == id,
            r.source_addr == source_addr,
            r.ssrc == ssrc,
            r.subscribers@.len() == 0,
            r.created_at == now_ms,
            r.last_activity == now_ms,
            r.packet_count == 0,
            r.byte_count == 0,
            r.subscribers_distinct(),
    {
        Session {
            id,
            source_addr,
            ssrc,
            subscribers: Vec::new(),
            created_at: now_ms,
            last_activity: now_ms,
            packet_count: 0,
            byte_count: 0,
        }
    }

    /// Admit a subscriber, up to `max_fanout` entries. Re-adding a known
    /// address replaces its entry. Returns whether the subscriber is now in
    /// the set.
    pub fn add_subscriber(&mut self, addr: Addr, now_ms: u64, max_fanout: usize) -> (r: bool)
        requires
            old(self).subscribers_distinct(),
        ensures
            final(self).subscribers_distinct(),
            spec_add_subscriber_effect(*old(self), *final(self), addr, now_ms, max_fanout as int, r),
    {
        match find_subscriber(&self.subscribers, addr) {
            Some(j) => {
                let ghost before = self.subscribers@;
                self.subscribers.remove(j);
                self.subscribers.insert(j, Subscriber { addr, joined_at: now_ms, last_seq: 0, packet_count: 0 });
                assert(self.subscribers@ =~= before.update(j as int, spec_fresh_subscriber(addr, now_ms)));
                self.last_activity = if now_ms > self.last_activity {
                    now_ms
                } else {
                    self.last_activity
                };
                true
            },
            None => {
                if self.subscribers.len() < max_fanout {
                    self.subscribers.push(Subscriber { addr, joined_at: now_ms, last_seq: 0, packet_count: 0 });
                    self.last_activity = if now_ms > self.last_activity {
                        now_ms
                    } else {
                        self.last_activity
                    };
                    true
                } else {
                    false
                }
            },
        }
    }

    /// Drop the subscriber with this address, if present. Returns whether an
    /// entry was removed.
    pub fn remove_subscriber(&mut self, addr: Addr, now_ms: u64) -> (r: bool)
        requires
            old(self).subscribers_distinct(),
        ensures
            final(self).subscribers_distinct(),
            spec_remove_subscriber_effect(*old(self), *final(self), addr, now_ms, r),
    {
        match find_subscriber(&self.subscribers, addr) {
            Some(j) => {
                self.subscribers.remove(j);
                self.last_activity = if now_ms > self.last_activity {
                    now_ms
                } else {
                    self.last_activity
                };
                true
            },
            None => false,
        }
    }

    /// Whether the session sat idle for longer than the timeout.
    pub fn is_expired(&self, timeout_secs: u64, now_ms: u64) -> (r: bool)
        ensures
            r == self.spec_expired(timeout_secs, now_ms),
    {
        if now_ms <= self.last_activity {
            false
        } else if timeout_secs > u64::MAX / 1000 {
            false
        } else {
            now_ms - self.last_activity > timeout_secs * 1000
        }
    }

    /// Bump the activity timestamp; it never moves backwards.
    pub fn record_activity(&mut self, now_ms: u64)
        ensures
            final(self).last_activity == spec_max_u64(old(self).last_activity, now_ms),
            old(self).last_activity <= final(self).last_activity,
            final(self).id == old(self).id,
            final(self).source_addr == old(self).source_addr,
            final(self).ssrc == old(self).ssrc,
            final(self).subscribers@ == old(self).subscribers@,
            final(self).created_at == old(self).created_at,
            final(self).packet_count == old(self).packet_count,
            final(self).byte_count == old(self).byte_count,
    {
        self.last_activity = if now_ms > self.last_activity {
            now_ms
        } else {
            self.last_activity
        };
    }
}

/// Declares dashmap's concurrent map so its values can stand in fields.
#[verifier::external_type_specification]
#[verifier::external_body]
#[verifier::reject_recursive_types(K)]
#[verifier::reject_recursive_types(V)]
#[verifier::reject_recursive_types(S)]
pub struct ExDashMap<K, V, S>(dashmap::DashMap<K, V, S>);

/// The concurrent index from SSRC to session identifier.
pub type SsrcIndex = dashmap::DashMap<u32, u128>;

/// The entries a concurrent SSRC index holds, as a map from SSRC to session
/// identifier.
pub uninterp spec fn ssrc_index_view(m: SsrcIndex) -> Map<u32, u128>;

/// Relies on dashmap::DashMap::new: the new map is empty.
#[verifier::external_body]
fn ssrc_index_new() -> (r: SsrcIndex)
    ensures
        (ssrc_index_view(r) == Map::<u32, u128>::empty()),
{
    dashmap::DashMap::new()
}

/// Relies on dashmap::DashMap::insert: afterwards the key maps to the value;
/// other keys are untouched.
#[verifier::external_body]
fn ssrc_index_insert(m: &mut SsrcIndex, key: u32, value: u128)
    ensures
        ssrc_index_view(*final(m)) == ssrc_index_view(*old(m)).insert(key, value),
{
    m.insert(key, value);
}

/// Relies on dashmap::DashMap::get: returns the value the key maps to, if
/// the key is present.
#[verifier::external_body]
fn ssrc_index_get(m: &SsrcIndex, key: u32) -> (r: Option<u128>)
    ensures
        r == if ssrc_index_view(*m).contains_key(key) {
            Some(ssrc_index_view(*m)[key])
        } else {
            None::<u128>
        },
{
    m.get(&key).map(|v| *v)
}

/// Relies on dashmap::DashMap::remove: afterwards the key maps to nothing;
/// other keys are untouched.
#[verifier::external_body]
fn ssrc_index_remove(m: &mut SsrcIndex, key: u32)
    ensures
        ssrc_index_view(*final(m)) == ssrc_index_view(*old(m)).remove(key),
{
    m.remove(&key);
}

/// Some session in the sequence carries this SSRC.
pub open spec fn spec_has_ssrc(s: Seq<Session>, ssrc: u32) -> bool {
    exists|i: int| 0 <= i < s.len() && s[i].ssrc == ssrc
}

/// Some session in the sequence carries this identifier.
pub open spec fn spec_has_id(s: Seq<Session>, id: u128) -> bool {
    exists|i: int| 0 <= i < s.len() && s[i].id.0 == id
}

/// Sessions carry pairwise distinct SSRCs and identifiers, and each holds a
/// well-formed subscriber set within the fan-out cap.
pub open spec fn sessions_wf(s: Seq<Session>, max_fanout: int) -> bool {
    &&& forall|i: int, j: int|
        0 <= i < j < s.len() ==> s[i].ssrc != s[j].ssrc && s[i].id.0 != s[j].id.0
    &&& forall|i: int|
        0 <= i < s.len() ==> (#[trigger] s[i]).subscribers_distinct() && s[i].subscribers@.len()
            <= max_fanout
}

/// The SSRC index and the session sequence agree: every session is indexed
/// under its SSRC, and every indexed SSRC belongs to a session.
pub open spec fn index_coherent(s: Seq<Session>, m: Map<u32, u128>) -> bool {
    &&& forall|i: int|
        0 <= i < s.len() ==> m.contains_key((#[trigger] s[i]).ssrc) && m[s[i].ssrc] == s[i].id.0
    &&& forall|k: u32| #[trigger] m.contains_key(k) ==> spec_has_ssrc(s, k)
}

/// The session registry: sessions in insertion order, plus a concurrent
/// index from SSRC to session identifier for the hot lookup path.
pub struct SessionManager {
    pub config: ServerConfig,
    pub sessions: Vec<Session>,
    pub ssrc_index: SsrcIndex,
}

impl SessionManager {
    /// Registry invariant: within capacity, sessions distinct and well
    /// formed, both indices mutually consistent.
    pub open spec fn wf(&self) -> bool {
        &&& self.sessions@.len() <= self.config.max_sessions
        &&& sessions_wf(self.sessions@, self.config.max_fanout_per_session as int)
        &&& index_coherent(self.sessions@, ssrc_index_view(self.ssrc_index))
    }

    /// An empty registry under this configuration.
    pub fn new(config: ServerConfig) -> (r: Self)
        ensures
            r.wf(),
            r.sessions@.len() == 0,
            r.config == config,
    {
        SessionManager { config, sessions: Vec::new(), ssrc_index: ssrc_index_new() }
    }

    /// Locate a session's position by identifier.
    fn find_by_id(&self, id: u128) -> (r: Option<usize>)
        ensures
            match r {
                Some(i) => i < self.sessions@.len() && self.sessions@[i as int].id.0 == id,
                None => !spec_has_id(self.sessions@, id),
            },
    {
        let mut i: usize = 0;
        while i < self.sessions.len()
            invariant
                i <= self.sessions@.len(),
                forall|k: int| 0 <= k < i ==> self.sessions@[k].id.0 != id,
            decreases self.sessions@.len() - i,
        {
            if self.sessions[i].id.0 == id {
                return Some(i);
            }
            i = i + 1;
        }
        None
    }

    /// Locate a session's position by SSRC.
    fn find_by_ssrc(&self, ssrc: u32) -> (r: Option<usize>)
        ensures
            match r {
                Some(i) => i < self.sessions@.len() && self.sessions@[i as int].ssrc == ssrc,
                None => !spec_has_ssrc(self.sessions@, ssrc),
            },
    {
        let mut i: usize = 0;
        while i < self.sessions.len()
            invariant
                i <= self.sessions@.len(),
                forall|k: int| 0 <= k < i ==> self.sessions@[k].ssrc != ssrc,
            decreases self.sessions@.len() - i,
        {
            if self.sessions[i].ssrc == ssrc {
                return Some(i);
            }
            i = i + 1;
        }
        None
    }

    /// Install a session under a caller-supplied identifier. Idempotent per
    /// SSRC. Refused at capacity, and refused without effect when the
    /// identifier is already taken by a live session.
    pub fn create_session_with_id(
        &mut self,
        source_addr: Addr,
        ssrc: u32,
        id: u128,
        now_ms: u64,
    ) -> (r: Result<SessionId, RegistryError>)
        requires
            old(self).wf(),
        ensures
            final(self).wf(),
            final(self).config == old(self).config,
            spec_has_ssrc(old(self).sessions@, ssrc) ==> {
                &&& final(self).sessions@ == old(self).sessions@
                &&& ssrc_index_view(final(self).ssrc_index) == ssrc_index_view(
                    old(self).ssrc_index,
                )
                &&& (exists|i: int|
                    0 <= i < old(self).sessions@.len() && old(self).sessions@[i].ssrc == ssrc && r
                        == Ok::<SessionId, RegistryError>(old(self).sessions@[i].id))
            },
            !spec_has_ssrc(old(self).sessions@, ssrc) && (old(self).sessions@.len() >= old(self).config.max_sessions || spec_has_id(old(self).sessions@, id)) ==> {
                &&& r == Err::<SessionId, RegistryError>(RegistryError::AtCapacity)
                &&& final(self).sessions@ == old(self).sessions@
                &&& ssrc_index_view(final(self).ssrc_index) == ssrc_index_view(
                    old(self).ssrc_index,
                )
            },
            !spec_has_ssrc(old(self).sessions@, ssrc) && old(self).sessions@.len() < old(self).config.max_sessions && !spec_has_id(old(self).sessions@, id) ==> {
                &&& r == Ok::<SessionId, RegistryError>(SessionId(id))
                &&& final(self).sessions@.len() == old(self).sessions@.len() + 1
                &&& (forall|i: int|
                    0 <= i < old(self).sessions@.len() ==> final(self).sessions@[i] == old(self).sessions@[i])
                &&& ({
                    let s = final(self).sessions@.last();
                    &&& s.id == SessionId(id)
                    &&& s.source_addr == source_addr
                    &&& s.ssrc == ssrc
                    &&& s.subscribers@.len() == 0
                    &&& s.created_at == now_ms
                    &&& s.last_activity == now_ms
                    &&& s.packet_count == 0
                    &&& s.byte_count == 0
                })
                &&& ssrc_index_view(final(self).ssrc_index) == ssrc_index_view(
                    old(self).ssrc_index,
                ).insert(ssrc, id)
            },
    {
        match self.find_by_ssrc(ssrc) {
            Some(i) => Ok(self.sessions[i].id),
            None => {
                if self.sessions.len() >= self.config.max_sessions {
                    return Err(RegistryError::AtCapacity);
                }
                if let Some(_) = self.find_by_id(id) {
                    return Err(RegistryError::AtCapacity);
                }
                let session = Session::new(SessionId(id), source_addr, ssrc, now_ms);
                self.sessions.push(session);
                ssrc_index_insert(&mut self.ssrc_index, ssrc, id);
                assert forall|k: u32|
                    ssrc_index_view(self.ssrc_index).contains_key(k) implies spec_has_ssrc(
                    self.sessions@,
                    k,
                ) by {
                    if k == ssrc {
                        assert(self.sessions@[self.sessions@.len() - 1].ssrc == ssrc);
                    } else {
                        assert(ssrc_index_view(old(self).ssrc_index).contains_key(k));
                        let i = choose|i: int|
                            0 <= i < old(self).sessions@.len() && old(self).sessions@[i].ssrc == k;
                        assert(self.sessions@[i].ssrc == k);
                    }
                }
                Ok(SessionId(id))
            },
        }
    }

    /// Create a session for this SSRC under a freshly drawn identifier, or
    /// return the existing one. `AtCapacity` means the registry was full, or
    /// the drawn identifier collided with a live session's.
    pub fn create_session(&mut self, source_addr: Addr, ssrc: u32, now_ms: u64) -> (r: Result<
        SessionId,
        RegistryError,
    >)
        requires
            old(self).wf(),
        ensures
            final(self).wf(),
            final(self).config == old(self).config,
            spec_has_ssrc(old(self).sessions@, ssrc) ==> {
                &&& final(self).sessions@ == old(self).sessions@
                &&& (exists|i: int|
                    0 <= i < old(self).sessions@.len() && old(self).sessions@[i].ssrc == ssrc && r
                        == Ok::<SessionId, RegistryError>(old(self).sessions@[i].id))
            },
            !spec_has_ssrc(old(self).sessions@, ssrc) && old(self).sessions@.len() >= old(self).config.max_sessions ==> r == Err::<SessionId, RegistryError>(RegistryError::AtCapacity) && final(self).sessions@ == old(self).sessions@,
            !spec_has_ssrc(old(self).sessions@, ssrc) && old(self).sessions@.len() < old(self).config.max_sessions ==> match r {
                Ok(rid) => {
                    &&& final(self).sessions@.len() == old(self).sessions@.len() + 1
                    &&& (forall|i: int|
                        0 <= i < old(self).sessions@.len() ==> final(self).sessions@[i] == old(self).sessions@[i])
                    &&& final(self).sessions@.last().ssrc == ssrc
                    &&& final(self).sessions@.last().id == rid
                    &&& final(self).sessions@.last().source_addr == source_addr
                    &&& final(self).sessions@.last().subscribers@.len() == 0
                    &&& final(self).sessions@.last().last_activity == now_ms
                },
                Err(_) => final(self).sessions@ == old(self).sessions@,
            },
    {
        let id = fresh_uuid_value();
        self.create_session_with_id(source_addr, ssrc, id, now_ms)
    }

    /// Look a session up by identifier.
    pub fn get_session(&self, id: &SessionId) -> (r: Option<&Session>)
        requires
            self.wf(),
        ensures
            match r {
                Some(s) => {
                    &&& spec_has_id(self.sessions@, id.0)
                    &&& s.id == *id
                    &&& (exists|i: int|
                        0 <= i < self.sessions@.len() && self.sessions@[i] == *s)
                },
                None => !spec_has_id(self.sessions@, id.0),
            },
    {
        match self.find_by_id(id.0) {
            Some(i) => {
                let s = &self.sessions[i];
                assert(self.sessions@[i as int] == *s);
                Some(s)
            },
            None => None,
        }
    }

    /// Look a session up by SSRC, through the concurrent index.
    pub fn get_session_by_ssrc(&self, ssrc: u32) -> (r: Option<&Session>)
        requires
            self.wf(),
        ensures
            match r {
                Some(s) => {
                    &&& spec_has_ssrc(self.sessions@, ssrc)
                    &&& s.ssrc == ssrc
                    &&& (exists|i: int|
                        0 <= i < self.sessions@.len() && self.sessions@[i] == *s)
                },
                None => !spec_has_ssrc(self.sessions@, ssrc),
            },
    {
        match ssrc_index_get(&self.ssrc_index, ssrc) {
            None => {
                assert(!spec_has_ssrc(self.sessions@, ssrc)) by {
                    if spec_has_ssrc(self.sessions@, ssrc) {
                        let i = choose|i: int|
                            0 <= i < self.sessions@.len() && self.sessions@[i].ssrc == ssrc;
                        assert(ssrc_index_view(self.ssrc_index).contains_key(
                            self.sessions@[i].ssrc,
                        ));
                    }
                }
                None
            },
            Some(idv) => {
                proof {
                    let i = choose|i: int|
                        0 <= i < self.sessions@.len() && self.sessions@[i].ssrc == ssrc;
                    assert(ssrc_index_view(self.ssrc_index)[ssrc] == self.sessions@[i].id.0);
                }
                match self.get_session(&SessionId(idv)) {
                    Some(s) => {
                        proof {
                            let i = choose|i: int|
                                0 <= i < self.sessions@.len() && self.sessions@[i].ssrc == ssrc;
                            let k = choose|k: int|
                                0 <= k < self.sessions@.len() && self.sessions@[k] == *s;
                            assert(self.sessions@[k].id.0 == idv);
                            assert(i == k);
                        }
                        Some(s)
                    },
                    None => {
                        proof {
                            let i = choose|i: int|
                                0 <= i < self.sessions@.len() && self.sessions@[i].ssrc == ssrc;
                            assert(spec_has_id(self.sessions@, idv));
                        }
                        None
                    },
                }
            },
        }
    }

    /// Remove a session by identifier, dropping it from both indices.
    pub fn remove_session(&mut self, id: &SessionId) -> (r: bool)
        requires
            old(self).wf(),
        ensures
            final(self).wf(),
            final(self).config == old(self).config,
            r == spec_has_id(old(self).sessions@, id.0),
            r ==> (exists|i: int|
                0 <= i < old(self).sessions@.len() && old(self).sessions@[i].id.0 == id.0 && final(self).sessions@ == old(self).sessions@.remove(i) && ssrc_index_view(
                    final(self).ssrc_index,
                ) == ssrc_index_view(old(self).ssrc_index).remove(old(self).sessions@[i].ssrc)),
            !r ==> final(self).sessions@ == old(self).sessions@ && ssrc_index_view(
                final(self).ssrc_index,
            ) == ssrc_index_view(old(self).ssrc_index),
    {
        match self.find_by_id(id.0) {
            Some(i) => {
                let s = self.sessions.remove(i);
                ssrc_index_remove(&mut self.ssrc_index, s.ssrc);
                proof {
                    let pre = old(self).sessions@;
                    assert forall|k: u32|
                        ssrc_index_view(self.ssrc_index).contains_key(k) implies spec_has_ssrc(
                        self.sessions@,
                        k,
                    ) by {
                        assert(ssrc_index_view(old(self).ssrc_index).contains_key(k));
                        let j = choose|j: int| 0 <= j < pre.len() && pre[j].ssrc == k;
                        assert(k != s.ssrc);
                        assert(j != i);
                        if j < i {
                            assert(self.sessions@[j].ssrc == k);
                        } else {
                            assert(self.sessions@[j - 1].ssrc == k);
                        }
                    }
                    assert forall|j: int|
                        0 <= j < self.sessions@.len() implies ssrc_index_view(
                        self.ssrc_index,
                    ).contains_key((#[trigger] self.sessions@[j]).ssrc) && ssrc_index_view(
                        self.ssrc_index,
                    )[self.sessions@[j].ssrc] == self.sessions@[j].id.0 by {
                        if j < i {
                            assert(self.sessions@[j] == pre[j]);
                            assert(pre[j].ssrc != pre[i as int].ssrc);
                        } else {
                            assert(self.sessions@[j] == pre[j + 1]);
                            assert(pre[j + 1].ssrc != pre[i as int].ssrc);
                        }
                    }
                }
                true
            },
            None => false,
        }
    }

    /// Number of live sessions.
    pub fn session_count(&self) -> (r: usize)
        ensures
            r == self.sessions@.len(),
    {
        self.sessions.len()
    }

    /// The ingress path touched the session with this SSRC: bump activity
    /// and the aggregate counters, and hand back a snapshot of the
    /// subscriber addresses. `None` when no session has the SSRC.
    pub fn record_ingress(&mut self, ssrc: u32, bytes: usize, now_ms: u64) -> (r: Option<Vec<
        Addr,
    >>)
        requires
            old(self).wf(),
        ensures
            final(self).wf(),
            spec_routing_eq(*old(self), *final(self)),
            r is Some <==> spec_has_ssrc(old(self).sessions@, ssrc),
            !spec_has_ssrc(old(self).sessions@, ssrc) ==> final(self).sessions@ == old(
                self,
            ).sessions@,
            r matches Some(addrs) ==> {
                let i = spec_index_of_ssrc(old(self).sessions@, ssrc);
                &&& 0 <= i < old(self).sessions@.len()
                &&& old(self).sessions@[i].ssrc == ssrc
                &&& addrs@.len() == old(self).sessions@[i].subscribers@.len()
                &&& (forall|k: int|
                    0 <= k < addrs@.len() ==> addrs@[k] == old(
                        self,
                    ).sessions@[i].subscribers@[k].addr)
                &&& (forall|j: int|
                    0 <= j < old(self).sessions@.len() && j != i ==> final(self).sessions@[j]
                        == old(self).sessions@[j])
                &&& final(self).sessions@[i].last_activity == spec_max_u64(
                    old(self).sessions@[i].last_activity,
                    now_ms,
                )
                &&& final(self).sessions@[i].packet_count == crate::metrics::spec_sat_add(
                    old(self).sessions@[i].packet_count,
                    1,
                )
                &&& final(self).sessions@[i].byte_count == crate::metrics::spec_sat_add(
                    old(self).sessions@[i].byte_count,
                    bytes as u64,
                )
            },
    {
        match self.find_by_ssrc(ssrc) {
            None => None,
            Some(i) => {
                let ghost pre = self.sessions@;
                let mut s = self.sessions.remove(i);
                s.record_activity(now_ms);
                s.packet_count = if s.packet_count <= u64::MAX - 1 {
                    s.packet_count + 1
                } else {
                    u64::MAX
                };
                let b = bytes as u64;
                s.byte_count = if s.byte_count <= u64::MAX - b {
                    s.byte_count + b
                } else {
                    u64::MAX
                };
                let mut addrs: Vec<Addr> = Vec::new();
                let mut k: usize = 0;
                while k < s.subscribers.len()
                    invariant
                        k <= s.subscribers@.len(),
                        addrs@.len() == k,
                        forall|t: int| 0 <= t < k ==> addrs@[t] == s.subscribers@[t].addr,
                    decreases s.subscribers@.len() - k,
                {
                    addrs.push(s.subscribers[k].addr);
                    k = k + 1;
                }
                self.sessions.insert(i, s);
                proof {
                    assert(self.sessions@ =~= pre.update(i as int, self.sessions@[i as int]));
                    assert forall|a: int| 0 <= a < self.sessions@.len() implies (
                        #[trigger] self.sessions@[a]).ssrc == pre[a].ssrc && self.sessions@[a].id.0
                        == pre[a].id.0 by {}
                    assert forall|k2: u32|
                        ssrc_index_view(self.ssrc_index).contains_key(k2) implies spec_has_ssrc(
                        self.sessions@,
                        k2,
                    ) by {
                        let w = choose|w: int| 0 <= w < pre.len() && pre[w].ssrc == k2;
                        assert(self.sessions@[w].ssrc == k2);
                    }
                    let ghost ix = spec_index_of_ssrc(pre, ssrc);
                    assert(pre[ix].ssrc == ssrc);
                    if ix != i {
                        assert(pre[ix].ssrc != pre[i as int].ssrc);
                    }
                    assert(ix == i);
                }
                Some(addrs)
            },
        }
    }

    /// Admit a subscriber to the session with this SSRC, up to the
    /// configured fan-out cap.
    pub fn add_subscriber(&mut self, ssrc: u32, addr: Addr, now_ms: u64) -> (r: Result<
        (),
        RegistryError,
    >)
        requires
            old(self).wf(),
        ensures
            final(self).wf(),
            final(self).config == old(self).config,
            !spec_has_ssrc(old(self).sessions@, ssrc) ==> {
                &&& r == Err::<(), RegistryError>(RegistryError::NoSession)
                &&& final(self).sessions@ == old(self).sessions@
                &&& ssrc_index_view(final(self).ssrc_index) == ssrc_index_view(old(self).ssrc_index)
            },
            spec_has_ssrc(old(self).sessions@, ssrc) ==> {
                &&& (r is Ok || r == Err::<(), RegistryError>(RegistryError::FanoutFull))
                &&& (exists|i: int|
                    0 <= i < old(self).sessions@.len() && old(self).sessions@[i].ssrc == ssrc
                        && final(self).sessions@.len() == old(self).sessions@.len()
                        && (forall|j: int|
                        0 <= j < old(self).sessions@.len() && j != i
                            ==> final(self).sessions@[j] == old(self).sessions@[j])
                        && spec_add_subscriber_effect(
                        old(self).sessions@[i],
                        final(self).sessions@[i],
                        addr,
                        now_ms,
                        old(self).config.max_fanout_per_session as int,
                        r is Ok,
                    ))
                &&& ssrc_index_view(final(self).ssrc_index) == ssrc_index_view(old(self).ssrc_index)
            },
    {
        match self.find_by_ssrc(ssrc) {
            None => Err(RegistryError::NoSession),
            Some(i) => {
                let ghost pre = self.sessions@;
                let mut s = self.sessions.remove(i);
                let ok = s.add_subscriber(addr, now_ms, self.config.max_fanout_per_session);
                self.sessions.insert(i, s);
                proof {
                    assert(self.sessions@ =~= pre.update(i as int, self.sessions@[i as int]));
                    assert forall|a: int| 0 <= a < self.sessions@.len() implies (
                        #[trigger] self.sessions@[a]).ssrc == pre[a].ssrc && self.sessions@[a].id.0
                        == pre[a].id.0 by {}
                    assert forall|k: u32|
                        ssrc_index_view(self.ssrc_index).contains_key(k) implies spec_has_ssrc(
                        self.sessions@,
                        k,
                    ) by {
                        let w = choose|w: int| 0 <= w < pre.len() && pre[w].ssrc == k;
                        assert(self.sessions@[w].ssrc == k);
                    }
                }
                if ok {
                    Ok(())
                } else {
                    Err(RegistryError::FanoutFull)
                }
            },
        }
    }

    /// Drop a subscriber from the session with this SSRC. Returns whether an
    /// entry was removed.
    pub fn remove_subscriber(&mut self, ssrc: u32, addr: Addr, now_ms: u64) -> (r: bool)
        requires
            old(self).wf(),
        ensures
            final(self).wf(),
            final(self).config == old(self).config,
            !spec_has_ssrc(old(self).sessions@, ssrc) ==> {
                &&& !r
                &&& final(self).sessions@ == old(self).sessions@
                &&& ssrc_index_view(final(self).ssrc_index) == ssrc_index_view(old(self).ssrc_index)
            },
            spec_has_ssrc(old(self).sessions@, ssrc) ==> {
                &&& (exists|i: int|
                    0 <= i < old(self).sessions@.len() && old(self).sessions@[i].ssrc == ssrc
                        && final(self).sessions@.len() == old(self).sessions@.len()
                        && (forall|j: int|
                        0 <= j < old(self).sessions@.len() && j != i
                            ==> final(self).sessions@[j] == old(self).sessions@[j])
                        && spec_remove_subscriber_effect(
                        old(self).sessions@[i],
                        final(self).sessions@[i],
                        addr,
                        now_ms,
                        r,
                    ))
                &&& ssrc_index_view(final(self).ssrc_index) == ssrc_index_view(old(self).ssrc_index)
            },
    {
        match self.find_by_ssrc(ssrc) {
            None => false,
            Some(i) => {
                let ghost pre = self.sessions@;
                let mut s = self.sessions.remove(i);
                let removed = s.remove_subscriber(addr, now_ms);
                self.sessions.insert(i, s);
                proof {
                    assert(self.sessions@ =~= pre.update(i as int, self.sessions@[i as int]));
                    assert forall|a: int| 0 <= a < self.sessions@.len() implies (
                        #[trigger] self.sessions@[a]).ssrc == pre[a].ssrc && self.sessions@[a].id.0
                        == pre[a].id.0 by {}
                    assert forall|k: u32|
                        ssrc_index_view(self.ssrc_index).contains_key(k) implies spec_has_ssrc(
                        self.sessions@,
                        k,
                    ) by {
                        let w = choose|w: int| 0 <= w < pre.len() && pre[w].ssrc == k;
                        assert(self.sessions@[w].ssrc == k);
                    }
                }
                removed
            },
        }
    }

    /// Sweep out every session whose last activity is older than the
    /// configured timeout; every other session stays as it was.
    pub fn cleanup_expired_sessions(&mut self, now_ms: u64)
        requires
            old(self).wf(),
        ensures
            final(self).wf(),
            final(self).config == old(self).config,
            forall|i: int|
                0 <= i < old(self).sessions@.len() && (#[trigger] old(self).sessions@[i]).spec_expired(
                    old(self).config.session_timeout_secs,
                    now_ms,
                ) ==> !spec_has_id(final(self).sessions@, old(self).sessions@[i].id.0)
                    && !spec_has_ssrc(final(self).sessions@, old(self).sessions@[i].ssrc),
            forall|i: int|
                0 <= i < old(self).sessions@.len() && !(#[trigger] old(self).sessions@[i]).spec_expired(
                    old(self).config.session_timeout_secs,
                    now_ms,
                ) ==> (exists|j: int|
                    0 <= j < final(self).sessions@.len() && final(self).sessions@[j] == old(
                        self,
                    ).sessions@[i]),
            forall|j: int|
                0 <= j < final(self).sessions@.len() ==> old(self).sessions@.contains(
                    #[trigger] final(self).sessions@[j],
                ) && !final(self).sessions@[j].spec_expired(
                    old(self).config.session_timeout_secs,
                    now_ms,
                ),
    {
        let timeout = self.config.session_timeout_secs;
        let ghost orig = self.sessions@;
        let mut kept: Vec<Session> = Vec::new();
        while self.sessions.len() > 0
            invariant
                self.config == old(self).config,
                timeout == self.config.session_timeout_secs,
                orig == old(self).sessions@,
                self.sessions@.len() <= orig.len(),
                kept@.len() + self.sessions@.len() <= orig.len(),
                self.sessions@ == orig.subrange(
                    orig.len() - self.sessions@.len(),
                    orig.len() as int,
                ),
                sessions_wf(kept@ + self.sessions@, self.config.max_fanout_per_session as int),
                index_coherent(kept@ + self.sessions@, ssrc_index_view(self.ssrc_index)),
                forall|j: int|
                    0 <= j < kept@.len() ==> !(#[trigger] kept@[j]).spec_expired(timeout, now_ms),
                forall|j: int|
                    0 <= j < kept@.len() ==> (exists|i: int|
                        0 <= i < orig.len() && (#[trigger] kept@[j]) == orig[i]),
                forall|i: int|
                    0 <= i < orig.len() - self.sessions@.len() && !(#[trigger] orig[i]).spec_expired(
                        timeout,
                        now_ms,
                    ) ==> (exists|j: int| 0 <= j < kept@.len() && kept@[j] == orig[i]),
            decreases self.sessions@.len(),
        {
            let ghost prev_concat = kept@ + self.sessions@;
            let ghost p = orig.len() - self.sessions@.len();
            let s = self.sessions.remove(0);
            proof {
                assert(s == orig[p]);
                assert(self.sessions@ =~= orig.subrange(p + 1, orig.len() as int));
                assert(prev_concat =~= kept@ + seq![s] + self.sessions@);
                assert(prev_concat[kept@.len() as int] == s);
            }
            if s.is_expired(timeout, now_ms) {
                ssrc_index_remove(&mut self.ssrc_index, s.ssrc);
                proof {
                    let concat = kept@ + self.sessions@;
                    assert forall|a: int| 0 <= a < concat.len() implies (#[trigger] concat[a]).ssrc
                        != s.ssrc && ssrc_index_view(self.ssrc_index).contains_key(concat[a].ssrc)
                        && ssrc_index_view(self.ssrc_index)[concat[a].ssrc] == concat[a].id.0 by {
                        let b = if a < kept@.len() {
                            a
                        } else {
                            a + 1
                        };
                        assert(concat[a] == prev_concat[b]);
                        assert(prev_concat[b].ssrc != prev_concat[kept@.len() as int].ssrc);
                    }
                    assert forall|k: u32|
                        ssrc_index_view(self.ssrc_index).contains_key(k) implies spec_has_ssrc(
                        concat,
                        k,
                    ) by {
                        let w = choose|w: int|
                            0 <= w < prev_concat.len() && prev_concat[w].ssrc == k;
                        assert(k != s.ssrc);
                        assert(w != kept@.len());
                        if w < kept@.len() {
                            assert(concat[w] == prev_concat[w]);
                        } else {
                            assert(concat[w - 1] == prev_concat[w]);
                        }
                    }
                    assert forall|a: int, b: int| 0 <= a < b < concat.len() implies concat[a].ssrc
                        != concat[b].ssrc && concat[a].id.0 != concat[b].id.0 by {
                        let a2 = if a < kept@.len() {
                            a
                        } else {
                            a + 1
                        };
                        let b2 = if b < kept@.len() {
                            b
                        } else {
                            b + 1
                        };
                        assert(concat[a] == prev_concat[a2]);
                        assert(concat[b] == prev_concat[b2]);
                    }
                    assert forall|a: int| 0 <= a < concat.len() implies (
                        #[trigger] concat[a]).subscribers_distinct() && concat[a].subscribers@.len()
                        <= self.config.max_fanout_per_session as int by {
                        let a2 = if a < kept@.len() {
                            a
                        } else {
                            a + 1
                        };
                        assert(concat[a] == prev_concat[a2]);
                    }
                }
            } else {
                let ghost kept0 = kept@;
                kept.push(s);
                proof {
                    assert(kept@ + self.sessions@ =~= prev_concat);
                    assert forall|j: int| 0 <= j < kept@.len() implies (
                        exists|i: int| 0 <= i < orig.len() && (#[trigger] kept@[j]) == orig[i]) by {
                        if j == kept0.len() {
                            assert(kept@[j] == orig[p]);
                        } else {
                            let i = choose|i: int| 0 <= i < orig.len() && kept0[j] == orig[i];
                            assert(kept@[j] == orig[i]);
                        }
                    }
                    assert forall|i: int|
                        0 <= i < orig.len() - self.sessions@.len() && !(
                        #[trigger] orig[i]).spec_expired(timeout, now_ms) implies (
                        exists|j: int| 0 <= j < kept@.len() && kept@[j] == orig[i]) by {
                        if i == p {
                            assert(kept@[kept0.len() as int] == orig[p]);
                        } else {
                            let j = choose|j: int| 0 <= j < kept0.len() && kept0[j] == orig[i];
                            assert(kept@[j] == orig[i]);
                        }
                    }
                }
            }
        }
        proof {
            assert(kept@ + self.sessions@ =~= kept@);
            assert forall|j: int|
                0 <= j < kept@.len() implies (exists|i: int|
                0 <= i < orig.len() && (#[trigger] kept@[j]) == orig[i] && !orig[i].spec_expired(
                    timeout,
                    now_ms,
                )) by {
                let sx = kept@[j];
                assert(exists|i: int| 0 <= i < orig.len() && (#[trigger] kept@[j]) == orig[i]);
                let i = choose|i: int| 0 <= i < orig.len() && (#[trigger] kept@[j]) == orig[i];
                assert(!kept@[j].spec_expired(timeout, now_ms));
                assert(kept@[j] == orig[i] && !orig[i].spec_expired(timeout, now_ms));
            }
            assert forall|i: int|
                0 <= i < orig.len() && (#[trigger] orig[i]).spec_expired(timeout, now_ms)
                implies !spec_has_id(kept@, orig[i].id.0) && !spec_has_ssrc(
                kept@,
                orig[i].ssrc,
            ) by {
                if spec_has_id(kept@, orig[i].id.0) {
                    let j = choose|j: int|
                        0 <= j < kept@.len() && kept@[j].id.0 == orig[i].id.0;
                    let w = choose|w: int| 0 <= w < orig.len() && kept@[j] == orig[w];
                    assert(!orig[w].spec_expired(timeout, now_ms));
                    if w != i {
                        assert(orig[i].id.0 != orig[w].id.0);
                    }
                }
                if spec_has_ssrc(kept@, orig[i].ssrc) {
                    let j = choose|j: int|
                        0 <= j < kept@.len() && kept@[j].ssrc == orig[i].ssrc;
                    let w = choose|w: int| 0 <= w < orig.len() && kept@[j] == orig[w];
                    assert(!orig[w].spec_expired(timeout, now_ms));
                    if w != i {
                        assert(orig[i].ssrc != orig[w].ssrc);
                    }
                }
            }
        }
        let ghost keptv = kept@;
        self.sessions = kept;
        proof {
            assert(self.sessions@ == keptv);
            assert forall|j: int|
                0 <= j < self.sessions@.len() implies orig.contains(
                #[trigger] self.sessions@[j],
            ) && !self.sessions@[j].spec_expired(timeout, now_ms) by {
                let sy = keptv[j];
                assert(exists|i: int|
                    0 <= i < orig.len() && (#[trigger] keptv[j]) == orig[i] && !orig[i].spec_expired(
                        timeout,
                        now_ms,
                    ));
                let i = choose|i: int|
                    0 <= i < orig.len() && (#[trigger] keptv[j]) == orig[i] && !orig[i].spec_expired(
                        timeout,
                        now_ms,
                    );
                assert(orig[i] == self.sessions@[j]);
                assert(orig.contains(self.sessions@[j]));
            }
        }
    }

    /// Total subscriber entries across all sessions, summed as written;
    /// saturates at the machine limit.
    pub fn total_subscribers(&self) -> (r: usize)
        ensures
            r as int == vstd::math::min(
                spec_total_subscribers(self.sessions@),
                usize::MAX as int,
            ),
    {
        let mut acc: usize = 0;
        let mut i: usize = 0;
        proof {
            lemma_total_subscribers_nonneg(self.sessions@.subrange(0, 0));
            assert(self.sessions@.subrange(0, 0) =~= Seq::<Session>::empty());
        }
        while i < self.sessions.len()
            invariant
                i <= self.sessions@.len(),
                acc as int == vstd::math::min(
                    spec_total_subscribers(self.sessions@.subrange(0, i as int)),
                    usize::MAX as int,
                ),
            decreases self.sessions@.len() - i,
        {
            let ghost pre = self.sessions@.subrange(0, i as int);
            let ghost cur = self.sessions@.subrange(0, i + 1);
            proof {
                assert(cur.drop_last() =~= pre);
                assert(cur.last() == self.sessions@[i as int]);
                lemma_total_subscribers_nonneg(pre);
            }
            let k = self.sessions[i].subscribers.len();
            if acc <= usize::MAX - k {
                acc = acc + k;
            } else {
                acc = usize::MAX;
            }
            i = i + 1;
        }
        proof {
            assert(self.sessions@.subrange(0, self.sessions@.len() as int) =~= self.sessions@);
        }
        acc
    }
}

/// Index of the session carrying this SSRC; meaningful when `spec_has_ssrc`.
pub open spec fn spec_index_of_ssrc(s: Seq<Session>, ssrc: u32) -> int {
    choose|i: int| 0 <= i < s.len() && s[i].ssrc == ssrc
}

/// The session carrying this SSRC; meaningful when `spec_has_ssrc`.
pub open spec fn spec_session_for(s: Seq<Session>, ssrc: u32) -> Session {
    s[spec_index_of_ssrc(s, ssrc)]
}

/// Two registry states that route identically: the same sessions in the same
/// order, each with the same SSRC, identity, source and subscriber set; only
/// activity timestamps and counters may differ.
pub open spec fn spec_routing_eq(a: SessionManager, b: SessionManager) -> bool {
    &&& b.config == a.config
    &&& b.sessions@.len() == a.sessions@.len()
    &&& forall|i: int|
        0 <= i < a.sessions@.len() ==> {
            &&& (#[trigger] b.sessions@[i]).ssrc == a.sessions@[i].ssrc
            &&& b.sessions@[i].id == a.sessions@[i].id
            &&& b.sessions@[i].source_addr == a.sessions@[i].source_addr
            &&& b.sessions@[i].created_at == a.sessions@[i].created_at
            &&& b.sessions@[i].subscribers@ == a.sessions@[i].subscribers@
        }
    &&& ssrc_index_view(b.ssrc_index) == ssrc_index_view(a.ssrc_index)
}

/// Subscriber entries across a sequence of sessions.
pub open spec fn spec_total_subscribers(s: Seq<Session>) -> int
    decreases s.len(),
{
    if s.len() == 0 {
        0
    } else {
        spec_total_subscribers(s.drop_last()) + s.last().subscribers@.len()
    }
}

/// The subscriber total never counts below zero.
proof fn lemma_total_subscribers_nonneg(s: Seq<Session>)
    ensures
        spec_total_subscribers(s) >= 0,
    decreases s.len(),
{
    if s.len() > 0 {
        lemma_total_subscribers_nonneg(s.drop_last());
    }
}

/// Law: for any sequence of creates, the registry holds exactly one session
/// per live SSRC, and the SSRC index points at exactly that session, so a
/// lookup by SSRC and a lookup by the found session's identifier agree.
pub proof fn lemma_registry_coherent(m: &SessionManager, ssrc: u32)
    requires
        m.wf(),
        spec_has_ssrc(m.sessions@, ssrc),
    ensures
        forall|i: int, j: int|
            0 <= i < m.sessions@.len() && 0 <= j < m.sessions@.len() && (
            #[trigger] m.sessions@[i]).ssrc == ssrc && (#[trigger] m.sessions@[j]).ssrc == ssrc
                ==> i == j,
        ({
            let i = choose|i: int| 0 <= i < m.sessions@.len() && m.sessions@[i].ssrc == ssrc;
            &&& ssrc_index_view(m.ssrc_index).contains_key(ssrc)
            &&& ssrc_index_view(m.ssrc_index)[ssrc] == m.sessions@[i].id.0
            &&& spec_has_id(m.sessions@, m.sessions@[i].id.0)
        }),
{
    let i = choose|i: int| 0 <= i < m.sessions@.len() && m.sessions@[i].ssrc == ssrc;
    assert(ssrc_index_view(m.ssrc_index).contains_key(m.sessions@[i].ssrc));
}

/// Law: the registry never holds more than `max_sessions` sessions. A create
/// at capacity for a new SSRC returns nothing and leaves the registry as it
/// was; `create_session`'s contract states the rejection.
pub proof fn lemma_capacity_bound(m: &SessionManager)
    requires
        m.wf(),
    ensures
        m.sessions@.len() <= m.config.max_sessions,
{
}

/// Law: every session's subscriber set stays within `max_fanout_per_session`.
pub proof fn lemma_fanout_bound(m: &SessionManager, i: int)
    requires
        m.wf(),
        0 <= i < m.sessions@.len(),
    ensures
        m.sessions@[i].subscribers@.len() <= m.config.max_fanout_per_session,
{
}

} // verus!
