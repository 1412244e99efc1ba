//! The session registry: a concurrent mapping from session identifier
//! to session handle, backed by dashmap so that operations on distinct
//! identifiers never serialize unrelated sessions.
//!
//! Entries are created only by registering a freshly spawned session
//! and removed only by closing it.  Each session handle is the pair of
//! tokens under which the embedding application knows the child
//! process and its standard-input stream.

use vstd::prelude::*;

verus! {

/// dashmap's concurrent hash map, declared so that it can stand in
/// signatures and fields.
#[verifier::external_type_specification]
#[verifier::external_body]
#[verifier::reject_recursive_types(K)]
#[verifier::reject_recursive_types(V)]
#[verifier::reject_recursive_types(S)]
pub struct ExDashMap<K, V, S>(dashmap::DashMap<K, V, S>);

/// What the map holds: the value registered under each key.
pub uninterp spec fn map_entries(m: dashmap::DashMap<String, (u64, u64)>) -> Map<
    Seq<char>,
    (u64, u64),
>;

/// The registry content with nothing in it.
pub open spec fn no_entries() -> Map<Seq<char>, (u64, u64)> {
    Map::empty()
}

/// Relies on dashmap::DashMap::new: the new map holds nothing.
#[verifier::external_body]
fn dash_new() -> (r: dashmap::DashMap<String, (u64, u64)>)
    ensures
        map_entries(r) == no_entries(),
{
    dashmap::DashMap::new()
}

/// Relies on dashmap::DashMap::entry and dashmap::Entry::insert: the
/// entry call takes the key's shard write-locked, so testing for the
/// key and inserting are one atomic step; an occupied entry is left as
/// it stands, a vacant one receives the value.
#[verifier::external_body]
fn dash_insert_if_absent(
    m: &mut dashmap::DashMap<String, (u64, u64)>,
    id: &String,
    v: (u64, u64),
) -> (inserted: bool)
    ensures
        inserted == !map_entries(*old(m)).contains_key(id@),
        inserted ==> map_entries(*final(m)) == map_entries(*old(m)).insert(id@, v),
        !inserted ==> map_entries(*final(m)) == map_entries(*old(m)),
{
    match m.entry(id.clone()) {
        dashmap::Entry::Occupied(_) => false,
        dashmap::Entry::Vacant(e) => {
            e.insert(v);
            true
        },
    }
}

/// Relies on dashmap::DashMap::get: hands back the value under the
/// key, or nothing when the key is absent.
#[verifier::external_body]
fn dash_get(m: &dashmap::DashMap<String, (u64, u64)>, id: &String) -> (r: Option<(u64, u64)>)
    ensures
        map_entries(*m).contains_key(id@) ==> r == Some(map_entries(*m)[id@]),
        !map_entries(*m).contains_key(id@) ==> r is None,
{
    m.get(id).map(|entry| *entry.value())
}

/// Relies on dashmap::DashMap::remove: takes the entry under the key
/// out of the map and hands its value back, or does nothing and hands
/// back nothing when the key is absent.
#[verifier::external_body]
fn dash_remove(m: &mut dashmap::DashMap<String, (u64, u64)>, id: &String) -> (r: Option<
    (u64, u64),
>)
    ensures
        map_entries(*old(m)).contains_key(id@) ==> r == Some(map_entries(*old(m))[id@])
            && map_entries(*final(m)) == map_entries(*old(m)).remove(id@),
        !map_entries(*old(m)).contains_key(id@) ==> r is None && map_entries(*final(m))
            == map_entries(*old(m)),
{
    m.remove(id).map(|kv| kv.1)
}

/// Relies on dashmap::DashMap::contains_key.
#[verifier::external_body]
fn dash_contains(m: &dashmap::DashMap<String, (u64, u64)>, id: &String) -> (r: bool)
    ensures
        r == map_entries(*m).contains_key(id@),
{
    m.contains_key(id)
}

/// The registry of live sessions, keyed by the caller-supplied session
/// identifier.  At most one session stands under one identifier.
pub struct SessionRegistry {
    map: dashmap::DashMap<String, (u64, u64)>,
}

impl View for SessionRegistry {
    type V = Map<Seq<char>, (u64, u64)>;

    closed spec fn view(&self) -> Map<Seq<char>, (u64, u64)> {
        map_entries(self.map)
    }
}

impl SessionRegistry {
    pub fn new() -> (r: Self)
        ensures
            r@ == no_entries(),
    {
        SessionRegistry { map: dash_new() }
    }

    /// Insert the session under `id` only if no session stands there;
    /// says whether the insertion happened.  A caller that receives
    /// `false` must discard the session it tried to register.
    pub fn register_if_absent(&mut self, id: &String, session: (u64, u64)) -> (inserted: bool)
        ensures
            inserted == !old(self)@.contains_key(id@),
            inserted ==> final(self)@ == old(self)@.insert(id@, session),
            !inserted ==> final(self)@ == old(self)@,
    {
        dash_insert_if_absent(&mut self.map, id, session)
    }

    /// The session under `id`, if any; the registry is unchanged.
    pub fn lookup(&self, id: &String) -> (r: Option<(u64, u64)>)
        ensures
            self@.contains_key(id@) ==> r == Some(self@[id@]),
            !self@.contains_key(id@) ==> r is None,
    {
        dash_get(&self.map, id)
    }

    /// Take the session under `id` out of the registry and hand it
    /// back; on an unknown id the registry is unchanged and nothing is
    /// handed back.
    pub fn remove(&mut self, id: &String) -> (r: Option<(u64, u64)>)
        ensures
            old(self)@.contains_key(id@) ==> r == Some(old(self)@[id@]) && final(self)@ == old(
                self,
            )@.remove(id@),
            !old(self)@.contains_key(id@) ==> r is None && final(self)@ == old(self)@,
    {
        dash_remove(&mut self.map, id)
    }

    /// Whether a session stands under `id`.
    pub fn contains(&self, id: &String) -> (r: bool)
        ensures
            r == self@.contains_key(id@),
    {
        dash_contains(&self.map, id)
    }

}

} // verus!
