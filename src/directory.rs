use vstd::prelude::*;
use dashmap::DashMap;
use std::collections::hash_map::RandomState;

verus! {

#[verifier::external_type_specification]
#[verifier::external_body]
#[verifier::reject_recursive_types(K)]
#[verifier::reject_recursive_types(V)]
#[verifier::reject_recursive_types(S)]
pub struct ExDashMap<K, V, S>(DashMap<K, V, S>);

/// Display attributes of one connected session.
#[derive(Clone, Debug)]
pub struct PlayerInfo {
    pub username: String,
    /// Facing angle in radians, carried as the bit pattern of an `f32`.
    pub dir: u32,
}

/// Mathematical value of a [`PlayerInfo`].
pub struct SessionView {
    pub username: Seq<char>,
    pub dir: u32,
}

impl View for PlayerInfo {
    type V = SessionView;

    open spec fn view(&self) -> SessionView {
        SessionView { username: self.username@, dir: self.dir }
    }
}

impl Default for PlayerInfo {
    /// The sentinel entry: empty username, facing angle zero.
    fn default() -> (r: PlayerInfo)
        ensures
            r@ == empty_session(),
    {
        PlayerInfo { username: String::new(), dir: 0 }
    }
}

pub open spec fn empty_session() -> SessionView {
    SessionView { username: Seq::empty(), dir: 0 }
}

/// The map with no entry.
pub open spec fn no_sessions() -> Map<u64, SessionView> {
    Map::empty()
}

/// Map from connection identity to session attributes.
pub type SessionMap = DashMap<u64, PlayerInfo>;

/// What a session map holds, keyed by connection identity.
pub uninterp spec fn session_entries(m: SessionMap) -> Map<u64, SessionView>;

/// Relies on `DashMap::new`: a new map holds no entry.
#[verifier::external_body]
fn sessions_new() -> (r: SessionMap)
    ensures
        session_entries(r) == no_sessions(),
{
    DashMap::new()
}

/// Relies on `DashMap::insert`: the key maps to the value afterwards, other
/// keys are untouched.
#[verifier::external_body]
fn sessions_insert(m: &mut SessionMap, id: u64, info: PlayerInfo)
    ensures
        session_entries(*final(m)) == session_entries(*old(m)).insert(id, info@),
{
    m.insert(id, info);
}

/// Relies on `DashMap::remove`: the key has no entry afterwards, other keys
/// are untouched.
#[verifier::external_body]
fn sessions_remove(m: &mut SessionMap, id: u64)
    ensures
        session_entries(*final(m)) == session_entries(*old(m)).remove(id),
{
    m.remove(&id);
}

/// Relies on `DashMap::get`: a copy of the entry stored under the key, if
/// there is one.
#[verifier::external_body]
fn sessions_get(m: &SessionMap, id: u64) -> (r: Option<PlayerInfo>)
    ensures
        r.is_some() == session_entries(*m).contains_key(id),
        r.is_some() ==> r.unwrap()@ == session_entries(*m)[id],
{
    m.get(&id).map(|e| e.value().clone())
}

/// Per-connection display attributes, keyed by connection identity. Every
/// change takes `&mut self`, so callers that share a directory go through its
/// single owner.
pub struct SessionDirectory {
    sessions: SessionMap,
}

impl View for SessionDirectory {
    type V = Map<u64, SessionView>;

    closed spec fn view(&self) -> Map<u64, SessionView> {
        session_entries(self.sessions)
    }
}

impl SessionDirectory {
    pub fn new() -> (r: SessionDirectory)
        ensures
            r@ == no_sessions(),
    {
        SessionDirectory { sessions: sessions_new() }
    }

    /// Inserts the sentinel entry for `id`, replacing any earlier one.
    pub fn register(&mut self, id: u64)
        ensures
            final(self)@ == old(self)@.insert(id, empty_session()),
    {
        sessions_insert(&mut self.sessions, id, PlayerInfo::default());
    }

    /// Deletes the entry of `id`; nothing happens if there is none.
    pub fn remove(&mut self, id: u64)
        ensures
            final(self)@ == old(self)@.remove(id),
    {
        sessions_remove(&mut self.sessions, id);
    }

    pub open spec fn lookup(&self, id: u64) -> SessionView {
        if self@.contains_key(id) {
            self@[id]
        } else {
            empty_session()
        }
    }

    /// The entry of `id`, or the sentinel entry if `id` is not registered.
    pub fn get(&self, id: u64) -> (r: PlayerInfo)
        ensures
            r@ == self.lookup(id),
    {
        match sessions_get(&self.sessions, id) {
            Some(info) => info,
            None => PlayerInfo::default(),
        }
    }

    /// Sets the username of a registered `id`; nothing happens otherwise.
    pub fn set_username(&mut self, id: u64, name: String)
        ensures
            old(self)@.contains_key(id) ==> final(self)@ == old(self)@.insert(
                id,
                SessionView { username: name@, dir: old(self)@[id].dir },
            ),
            !old(self)@.contains_key(id) ==> final(self)@ == old(self)@,
    {
        match sessions_get(&self.sessions, id) {
            Some(info) => {
                sessions_insert(&mut self.sessions, id, PlayerInfo { username: name, dir: info.dir });
            },
            None => {},
        }
    }

    /// Sets the facing angle of a registered `id`; nothing happens otherwise.
    pub fn set_facing(&mut self, id: u64, dir: u32)
        ensures
            old(self)@.contains_key(id) ==> final(self)@ == old(self)@.insert(
                id,
                SessionView { username: old(self)@[id].username, dir },
            ),
            !old(self)@.contains_key(id) ==> final(self)@ == old(self)@,
    {
        match sessions_get(&self.sessions, id) {
            Some(info) => {
                sessions_insert(&mut self.sessions, id, PlayerInfo { username: info.username, dir });
            },
            None => {},
        }
    }
}

} // verus!
