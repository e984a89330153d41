use vstd::prelude::*;
use dashmap::DashMap;
use tokio::task::JoinHandle;

verus! {

#[verifier::external_type_specification]
#[verifier::external_body]
#[verifier::reject_recursive_types(K)]
#[verifier::reject_recursive_types(V)]
#[verifier::reject_recursive_types(S)]
pub struct ExDashMap<K, V, S>(DashMap<K, V, S>);

#[verifier::external_type_specification]
#[verifier::external_body]
#[verifier::reject_recursive_types(T)]
pub struct ExJoinHandle<T>(JoinHandle<T>);

#[verifier::external_type_specification]
#[verifier::external_body]
pub struct ExJoinError(tokio::task::JoinError);

/// The identifiers that hold a handle in the map.
pub uninterp spec fn stream_ids(m: DashMap<String, JoinHandle<()>>) -> Set<Seq<char>>;

/// Relies on `DashMap::new`: a map with no entries.
#[verifier::external_body]
fn map_new() -> (r: DashMap<String, JoinHandle<()>>)
    ensures
        stream_ids(r) == Set::<Seq<char>>::empty(),
{
    DashMap::new()
}

/// Relies on `DashMap::contains_key`: whether `id` has an entry.
#[verifier::external_body]
fn map_contains(m: &DashMap<String, JoinHandle<()>>, id: &String) -> (r: bool)
    ensures
        r == stream_ids(*m).contains(id@),
{
    m.contains_key(id)
}

/// Relies on `DashMap::insert`: afterwards `id` has an entry, and no other
/// entry changed.
#[verifier::external_body]
fn map_insert(m: &mut DashMap<String, JoinHandle<()>>, id: String, handle: JoinHandle<()>)
    ensures
        stream_ids(*final(m)) == stream_ids(*old(m)).insert(id@),
{
    m.insert(id, handle);
}

/// Relies on `DashMap::remove`: the handle of `id` if it had an entry, and
/// afterwards it has none.
#[verifier::external_body]
fn map_remove(m: &mut DashMap<String, JoinHandle<()>>, id: &String) -> (r: Option<JoinHandle<()>>)
    ensures
        r.is_some() == stream_ids(*old(m)).contains(id@),
        stream_ids(*final(m)) == stream_ids(*old(m)).remove(id@),
{
    m.remove(id).map(|e| e.1)
}

/// The in-flight streams of the process, each under its own identifier.
pub struct StreamTable {
    map: DashMap<String, JoinHandle<()>>,
}

impl StreamTable {
    /// The identifiers of the streams in the table.
    pub closed spec fn ids(&self) -> Set<Seq<char>> {
        stream_ids(self.map)
    }

    pub fn new() -> (r: StreamTable)
        ensures
            r.ids() == Set::<Seq<char>>::empty(),
    {
        StreamTable { map: map_new() }
    }

    /// Registers `handle` under `id`. An identifier that is already in use is
    /// refused, the table is left as it is, and the handle is given back.
    pub fn register(&mut self, id: String, handle: JoinHandle<()>) -> (r: Result<(), JoinHandle<()>>)
        ensures
            old(self).ids().contains(id@) ==> r == Err::<(), JoinHandle<()>>(handle)
                && final(self).ids() == old(self).ids(),
            !old(self).ids().contains(id@) ==> r is Ok
                && final(self).ids() == old(self).ids().insert(id@),
    {
        if map_contains(&self.map, &id) {
            Err(handle)
        } else {
            map_insert(&mut self.map, id, handle);
            Ok(())
        }
    }

    /// Takes the stream `id` out of the table, whether it was cancelled or
    /// ended by itself: whichever comes first gets the handle. Removing a
    /// stream that is unknown or already gone is no error and changes nothing.
    pub fn remove(&mut self, id: &String) -> (r: Option<JoinHandle<()>>)
        ensures
            r.is_some() == old(self).ids().contains(id@),
            final(self).ids() == old(self).ids().remove(id@),
            !old(self).ids().contains(id@) ==> final(self).ids() == old(self).ids(),
            !final(self).ids().contains(id@),
    {
        let r = map_remove(&mut self.map, id);
        proof {
            if !old(self).ids().contains(id@) {
                assert(old(self).ids().remove(id@) =~= old(self).ids());
            }
        }
        r
    }
}

} // verus!
