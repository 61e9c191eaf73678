//! Collection ids by name, resolved once and kept.
//!
//! One caller at a time asks the server for a collection; others wait for that
//! answer. The asking and the waiting are the program's: a call says which of
//! the two is to be done, and the outcome is handed in.
use vstd::prelude::*;
use crate::error::Error;
use crate::string_map::{distinct_keys, lemma_map_of, listed_at, map_of, StringMap};
use crate::text::owned;

verus! {

/// The key of a collection: its scope's name and its own, with a dot between.
pub open spec fn collection_path(scope: Seq<char>, collection: Seq<char>) -> Seq<char> {
    scope + "."@ + collection
}

/// The `scope.collection` key that the caches are indexed by.
pub struct FormattedCollectionPath {
    path: String,
}

impl View for FormattedCollectionPath {
    type V = Seq<char>;

    closed spec fn view(&self) -> Seq<char> {
        self.path@
    }
}

impl FormattedCollectionPath {
    pub fn new(scope: &str, collection: &str) -> (r: Self)
        ensures
            r@ == collection_path(scope@, collection@),
    {
        let mut path: String = owned(scope);
        path.append(".");
        path.append(collection);
        FormattedCollectionPath { path }
    }

    pub fn as_str(&self) -> (r: &str)
        ensures
            r@ == self@,
    {
        self.path.as_str()
    }
}

/// A collection that was resolved, or that somebody is asking for.
#[derive(Debug, Clone, Copy, PartialEq, Eq, Structural)]
pub struct CollectionCacheEntry {
    pub collection_id: u32,
    pub manifest_rev: u64,
    /// The ticket of whoever is asking. Others wait for it.
    pub pending: Option<u64>,
}

#[derive(Debug, Clone, Copy, PartialEq, Eq, Structural)]
pub struct CollectionsFastCacheEntry {
    pub collection_id: u32,
    pub manifest_rev: u64,
}

/// The entries with an id: all that the fast cache may serve.
pub open spec fn resolved_entries(slow: Map<Seq<char>, CollectionCacheEntry>) -> Map<
    Seq<char>,
    CollectionsFastCacheEntry,
> {
    Map::new(
        |k: Seq<char>| slow.contains_key(k) && slow[k].collection_id > 0,
        |k: Seq<char>|
            CollectionsFastCacheEntry {
                collection_id: slow[k].collection_id,
                manifest_rev: slow[k].manifest_rev,
            },
    )
}

/// Makes the fast cache anew from the slow map.
fn rebuild_fast_cache(slow_map: &StringMap<CollectionCacheEntry>) -> (r: StringMap<
    CollectionsFastCacheEntry,
>)
    ensures
        r@ == resolved_entries(slow_map@),
{
    let mut fast: StringMap<CollectionsFastCacheEntry> = StringMap::new();
    let ghost slow = slow_map@;
    let ghost all = slow_map.listing();
    let entries: &Vec<(String, CollectionCacheEntry)> = slow_map.entries();
    proof {
        lemma_map_of(all);
    }
    let mut i: usize = 0;
    while i < entries.len()
        invariant
            i <= entries.len(),
            entries@ == all,
            distinct_keys(all),
            slow == map_of(all),
            forall|j: int|
                0 <= j < all.len() ==> slow.contains_key((#[trigger] all[j]).0@)
                    && slow[all[j].0@] == all[j].1,
            forall|k: Seq<char>|
                fast@.contains_key(k) <==> exists|j: int|
                    0 <= j < i && #[trigger] listed_at(all, k, j) && all[j].1.collection_id > 0,
            forall|k: Seq<char>| #[trigger]
                fast@.contains_key(k) ==> fast@[k] == resolved_entries(slow)[k],
        decreases entries.len() - i,
    {
        let entry: CollectionCacheEntry = entries[i].1;
        let ghost before = fast@;
        let ghost name = all[i as int].0@;
        assert(slow[name] == entry);
        assert(listed_at(all, name, i as int));
        if entry.collection_id > 0 {
            fast.insert(
                entries[i].0.clone(),
                CollectionsFastCacheEntry {
                    collection_id: entry.collection_id,
                    manifest_rev: entry.manifest_rev,
                },
            );
            assert(resolved_entries(slow).contains_key(name));
        }
        assert forall|k: Seq<char>| fast@.contains_key(k) <==> exists|j: int|
            0 <= j < i + 1 && #[trigger] listed_at(all, k, j) && all[j].1.collection_id > 0 by {
            if fast@.contains_key(k) {
                if before.contains_key(k) {
                    let j = choose|j: int|
                        0 <= j < i && #[trigger] listed_at(all, k, j) && all[j].1.collection_id
                            > 0;
                    assert(listed_at(all, k, j));
                } else {
                    assert(k == name);
                }
            }
            if exists|j: int|
                0 <= j < i + 1 && #[trigger] listed_at(all, k, j) && all[j].1.collection_id
                    > 0 {
                let j = choose|j: int|
                    0 <= j < i + 1 && #[trigger] listed_at(all, k, j) && all[j].1.collection_id
                        > 0;
                if j < i {
                    assert(before.contains_key(k));
                }
            }
        }
        i += 1;
    }
    assert(fast@ =~= resolved_entries(slow)) by {
        assert forall|k: Seq<char>| fast@.contains_key(k) <==> resolved_entries(
            slow,
        ).contains_key(k) by {
            if fast@.contains_key(k) {
                let j = choose|j: int|
                    0 <= j < all.len() && #[trigger] listed_at(all, k, j)
                        && all[j].1.collection_id > 0;
                assert(slow[all[j].0@] == all[j].1);
            }
            if resolved_entries(slow).contains_key(k) {
                let j = choose|j: int| listed_at(all, k, j);
                assert(slow[all[j].0@] == all[j].1);
                assert(listed_at(all, k, j));
            }
        }
    }
    fast
}

/// What is to be done for a caller who wants a collection's id.
#[derive(Debug, Clone, Copy, PartialEq, Eq, Structural)]
pub enum Resolve {
    /// Nothing: the id, and the revision of the manifest it was learnt from.
    Known(u32, u64),
    /// Wait until the holder of the ticket is done, then ask the cache again.
    Wait(u64),
    /// Ask the server, and hand in what comes of it. Others wait for this
    /// ticket meanwhile.
    Fetch(u64),
}

/// What a cache holds: an entry for every collection that was resolved or is
/// asked for, and the ids that are served without a look at those.
pub struct CachesView {
    pub slow: Map<Seq<char>, CollectionCacheEntry>,
    pub fast: Map<Seq<char>, CollectionsFastCacheEntry>,
}

/// What the cache does for a caller: the fast cache is looked at first.
pub open spec fn resolve_of(caches: CachesView, path: Seq<char>, ticket: u64) -> Resolve {
    if caches.fast.contains_key(path) {
        Resolve::Known(caches.fast[path].collection_id, caches.fast[path].manifest_rev)
    } else if caches.slow.contains_key(path) {
        match caches.slow[path].pending {
            Some(holder) => Resolve::Wait(holder),
            None => Resolve::Known(
                caches.slow[path].collection_id,
                caches.slow[path].manifest_rev,
            ),
        }
    } else {
        Resolve::Fetch(ticket)
    }
}

/// The entry of a collection that somebody has begun to ask for.
pub open spec fn asked_for(ticket: u64) -> CollectionCacheEntry {
    CollectionCacheEntry { collection_id: 0, manifest_rev: 0, pending: Some(ticket) }
}

/// The entry of a collection that was resolved.
pub open spec fn known(collection_id: u32, manifest_rev: u64) -> CollectionCacheEntry {
    CollectionCacheEntry { collection_id, manifest_rev, pending: None }
}

/// After somebody has begun to ask for a collection.
pub open spec fn after_asking(caches: CachesView, path: Seq<char>, ticket: u64) -> CachesView {
    CachesView { slow: caches.slow.insert(path, asked_for(ticket)), ..caches }
}

/// After the server answered. The fast cache is made anew.
pub open spec fn after_answer(
    caches: CachesView,
    path: Seq<char>,
    collection_id: u32,
    manifest_rev: u64,
) -> CachesView {
    let slow = caches.slow.insert(path, known(collection_id, manifest_rev));
    CachesView { slow, fast: resolved_entries(slow) }
}

/// After an ask failed. The fast cache is left as it is: a collection that is
/// asked for is not in it.
pub open spec fn after_failure(caches: CachesView, path: Seq<char>) -> CachesView {
    CachesView { slow: caches.slow.remove(path), ..caches }
}

/// Whether a refusal by a node on `manifest_rev` says nothing of the id that is
/// held: it was learnt from a newer manifest. A revision of zero means that the
/// server did not say.
pub open spec fn is_outdated_refusal(
    caches: CachesView,
    path: Seq<char>,
    manifest_rev: u64,
) -> bool {
    manifest_rev > 0 && caches.slow.contains_key(path) && caches.slow[path].manifest_rev
        > manifest_rev
}

/// After a node refused the id of a collection.
pub open spec fn after_refusal(
    caches: CachesView,
    path: Seq<char>,
    manifest_rev: u64,
) -> CachesView {
    if is_outdated_refusal(caches, path, manifest_rev) {
        caches
    } else {
        let slow = caches.slow.remove(path);
        CachesView { slow, fast: resolved_entries(slow) }
    }
}

/// Whether the fast cache serves every entry with an id as it stands in the
/// slow map, and none that is still asked for.
pub open spec fn mirrored(caches: CachesView) -> bool {
    forall|k: Seq<char>| #[trigger]
        caches.slow.contains_key(k) ==> {
            let entry = caches.slow[k];
            &&& entry.pending is Some ==> entry.collection_id == 0
            &&& caches.fast.contains_key(k) <==> entry.collection_id > 0
            &&& entry.collection_id > 0 ==> caches.fast[k] == (CollectionsFastCacheEntry {
                collection_id: entry.collection_id,
                manifest_rev: entry.manifest_rev,
            })
        }
}

/// Whether the fast cache serves nothing else, either.
pub open spec fn caches_agree(caches: CachesView) -> bool {
    mirrored(caches) && caches.fast == resolved_entries(caches.slow)
}

/// A cache of collection ids.
pub struct CollectionResolverCached {
    caches: Caches,
    tickets: u64,
}

struct Caches {
    slow_map: StringMap<CollectionCacheEntry>,
    fast_cache: StringMap<CollectionsFastCacheEntry>,
}

impl View for Caches {
    type V = CachesView;

    closed spec fn view(&self) -> CachesView {
        CachesView { slow: self.slow_map@, fast: self.fast_cache@ }
    }
}

impl Caches {
    fn new() -> (r: Caches)
        ensures
            r@.slow == Map::<Seq<char>, CollectionCacheEntry>::empty(),
            r@.fast == Map::<Seq<char>, CollectionsFastCacheEntry>::empty(),
            caches_agree(r@),
    {
        let r: Caches = Caches { slow_map: StringMap::new(), fast_cache: StringMap::new() };
        assert(r@.fast =~= resolved_entries(r@.slow));
        r
    }
}

impl View for CollectionResolverCached {
    type V = CachesView;

    closed spec fn view(&self) -> CachesView {
        self.caches@
    }
}

impl CollectionResolverCached {
    /// The next ticket that is given out.
    pub closed spec fn ticket(&self) -> u64 {
        self.tickets
    }

    #[verifier::type_invariant]
    closed spec fn well_formed(&self) -> bool {
        mirrored(self.caches@)
    }

    pub fn new() -> (r: Self)
        ensures
            r@.slow == Map::<Seq<char>, CollectionCacheEntry>::empty(),
            r@.fast == Map::<Seq<char>, CollectionsFastCacheEntry>::empty(),
            caches_agree(r@),
            r.ticket() == 0,
    {
        CollectionResolverCached { caches: Caches::new(), tickets: 0 }
    }

    /// Whether there is an entry for the collection, resolved or asked for.
    pub fn has_entry(&self, scope_name: &str, collection_name: &str) -> (r: bool)
        ensures
            r == self@.slow.contains_key(collection_path(scope_name@, collection_name@)),
    {
        let path: FormattedCollectionPath = FormattedCollectionPath::new(
            scope_name,
            collection_name,
        );
        self.caches.slow_map.contains_key(path.as_str())
    }

    /// Looks a collection up: in the fast cache, then in the slow map. Where
    /// nobody has asked for it yet, the caller is to.
    pub fn resolve_collection_id(&mut self, scope_name: &str, collection_name: &str) -> (r: Resolve)
        ensures
            ({
                let path = collection_path(scope_name@, collection_name@);
                &&& r == resolve_of(old(self)@, path, old(self).ticket())
                &&& if r is Fetch {
                    final(self)@ == after_asking(old(self)@, path, old(self).ticket())
                        && final(self).ticket() == old(self).ticket().wrapping_add(1)
                } else {
                    final(self)@ == old(self)@ && final(self).ticket() == old(self).ticket()
                }
            }),
            mirrored(final(self)@),
            caches_agree(old(self)@) ==> caches_agree(final(self)@),
    {
        proof {
            use_type_invariant(&*self);
        }
        let path: FormattedCollectionPath = FormattedCollectionPath::new(
            scope_name,
            collection_name,
        );
        if let Some(entry) = self.caches.fast_cache.get(path.as_str()) {
            return Resolve::Known(entry.collection_id, entry.manifest_rev);
        }
        self.resolve_collection_id_slow(path)
    }

    fn resolve_collection_id_slow(&mut self, path: FormattedCollectionPath) -> (r: Resolve)
        requires
            !old(self)@.fast.contains_key(path@),
        ensures
            r == resolve_of(old(self)@, path@, old(self).ticket()),
            r is Fetch ==> final(self)@ == after_asking(old(self)@, path@, old(self).ticket())
                && final(self).ticket() == old(self).ticket().wrapping_add(1),
            !(r is Fetch) ==> final(self)@ == old(self)@ && final(self).ticket()
                == old(self).ticket(),
            mirrored(final(self)@),
            caches_agree(old(self)@) ==> caches_agree(final(self)@),
    {
        let ghost before = self@;
        proof {
            use_type_invariant(&*self);
            if resolve_of(before, path@, self.tickets) is Fetch {
                lemma_asking(before, path@, self.tickets);
            }
        }
        if let Some(entry) = self.caches.slow_map.get(path.as_str()) {
            return match entry.pending {
                Some(holder) => Resolve::Wait(holder),
                None => Resolve::Known(entry.collection_id, entry.manifest_rev),
            };
        }
        let ticket: u64 = self.tickets;
        self.tickets = ticket.wrapping_add(1);
        let mut caches: Caches = Caches::new();
        std::mem::swap(&mut caches, &mut self.caches);
        caches.slow_map.insert(
            path.path,
            CollectionCacheEntry { collection_id: 0, manifest_rev: 0, pending: Some(ticket) },
        );
        assert(caches@ == after_asking(before, path@, ticket));
        std::mem::swap(&mut caches, &mut self.caches);
        Resolve::Fetch(ticket)
    }

    /// The server answered. The ticket, if one is returned, is that of those
    /// who are to be woken.
    pub fn resolved(
        &mut self,
        scope_name: &str,
        collection_name: &str,
        collection_id: u32,
        manifest_rev: u64,
    ) -> (r: Option<u64>)
        requires
            old(self)@.slow.contains_key(collection_path(scope_name@, collection_name@)),
        ensures
            ({
                let path = collection_path(scope_name@, collection_name@);
                &&& final(self)@ == after_answer(old(self)@, path, collection_id, manifest_rev)
                &&& r == old(self)@.slow[path].pending
                &&& final(self).ticket() == old(self).ticket()
            }),
            caches_agree(final(self)@),
    {
        let path: FormattedCollectionPath = FormattedCollectionPath::new(
            scope_name,
            collection_name,
        );
        let ghost before = self@;
        proof {
            use_type_invariant(&*self);
            lemma_rebuilding(before, path@, known(collection_id, manifest_rev));
        }
        let pending: Option<u64> = match self.caches.slow_map.get(path.as_str()) {
            Some(entry) => entry.pending,
            None => None,
        };
        let mut caches: Caches = Caches::new();
        std::mem::swap(&mut caches, &mut self.caches);
        caches.slow_map.insert(
            path.path,
            CollectionCacheEntry { collection_id, manifest_rev, pending: None },
        );
        caches.fast_cache = rebuild_fast_cache(&caches.slow_map);
        assert(caches@ == after_answer(before, path@, collection_id, manifest_rev));
        std::mem::swap(&mut caches, &mut self.caches);
        pending
    }

    /// The server did not give an id. Nothing of it is kept, so the next caller
    /// asks again; the ticket, if one is returned, is that of those who are to
    /// be woken.
    pub fn failed(&mut self, scope_name: &str, collection_name: &str) -> (r: Option<u64>)
        requires
            old(self)@.slow.contains_key(collection_path(scope_name@, collection_name@)),
        ensures
            ({
                let path = collection_path(scope_name@, collection_name@);
                &&& final(self)@ == after_failure(old(self)@, path)
                &&& r == old(self)@.slow[path].pending
                &&& final(self).ticket() == old(self).ticket()
            }),
            mirrored(final(self)@),
            caches_agree(old(self)@) && r is Some ==> caches_agree(final(self)@),
    {
        let path: FormattedCollectionPath = FormattedCollectionPath::new(
            scope_name,
            collection_name,
        );
        let ghost before = self@;
        proof {
            use_type_invariant(&*self);
            lemma_failing(before, path@);
        }
        let pending: Option<u64> = match self.caches.slow_map.get(path.as_str()) {
            Some(entry) => entry.pending,
            None => None,
        };
        let mut caches: Caches = Caches::new();
        std::mem::swap(&mut caches, &mut self.caches);
        caches.slow_map.remove(path.as_str());
        assert(caches@ == after_failure(before, path@));
        std::mem::swap(&mut caches, &mut self.caches);
        pending
    }

    /// A node on `manifest_rev` refused the id of this collection. The entry
    /// goes, unless it was learnt from a newer manifest than the node's.
    pub fn invalidate_collection_id(
        &mut self,
        scope_name: &str,
        collection_name: &str,
        manifest_rev: u64,
    )
        ensures
            ({
                let path = collection_path(scope_name@, collection_name@);
                &&& final(self)@ == after_refusal(old(self)@, path, manifest_rev)
                &&& final(self).ticket() == old(self).ticket()
            }),
            mirrored(final(self)@),
            caches_agree(old(self)@) ==> caches_agree(final(self)@),
    {
        let path: FormattedCollectionPath = FormattedCollectionPath::new(
            scope_name,
            collection_name,
        );
        let ghost before = self@;
        proof {
            use_type_invariant(&*self);
            lemma_dropping(before, path@);
        }
        if manifest_rev > 0 {
            if let Some(entry) = self.caches.slow_map.get(path.as_str()) {
                if entry.manifest_rev > manifest_rev {
                    return;
                }
            }
        }
        let mut caches: Caches = Caches::new();
        std::mem::swap(&mut caches, &mut self.caches);
        caches.slow_map.remove(path.as_str());
        caches.fast_cache = rebuild_fast_cache(&caches.slow_map);
        assert(caches@ == after_refusal(before, path@, manifest_rev));
        std::mem::swap(&mut caches, &mut self.caches);
    }
}

/// The error of an ask that broke off without an answer.
pub fn broken_off(reason: &str) -> (r: Error)
    ensures
        r.spec_kind() matches crate::error::ErrorKind::Message { msg } && msg@
            == "failed to join resolve collection id task: "@ + reason@,
        r.spec_retry_info() is None,
{
    let mut msg: String = owned("failed to join resolve collection id task: ");
    msg.append(reason);
    Error::new_message_error(msg.as_str())
}

proof fn lemma_asking(caches: CachesView, path: Seq<char>, ticket: u64)
    requires
        mirrored(caches),
        resolve_of(caches, path, ticket) is Fetch,
    ensures
        mirrored(after_asking(caches, path, ticket)),
        caches_agree(caches) ==> caches_agree(after_asking(caches, path, ticket)),
{
    let after = after_asking(caches, path, ticket);
    assert forall|k: Seq<char>| k != path && #[trigger] after.slow.contains_key(
        k,
    ) implies caches.slow.contains_key(k) by {}
    if caches_agree(caches) {
        assert(resolved_entries(after.slow) =~= caches.fast);
    }
}

proof fn lemma_rebuilding(caches: CachesView, path: Seq<char>, entry: CollectionCacheEntry)
    requires
        mirrored(caches),
        entry.pending is None,
    ensures
        ({
            let slow = caches.slow.insert(path, entry);
            caches_agree(CachesView { slow, fast: resolved_entries(slow) })
        }),
{
    let slow = caches.slow.insert(path, entry);
    assert forall|k: Seq<char>| k != path && #[trigger] slow.contains_key(
        k,
    ) implies caches.slow.contains_key(k) by {}
}

proof fn lemma_dropping(caches: CachesView, path: Seq<char>)
    requires
        mirrored(caches),
    ensures
        ({
            let slow = caches.slow.remove(path);
            caches_agree(CachesView { slow, fast: resolved_entries(slow) })
        }),
{
    let slow = caches.slow.remove(path);
    assert forall|k: Seq<char>| #[trigger] slow.contains_key(k) implies caches.slow.contains_key(
        k,
    ) by {}
}

proof fn lemma_failing(caches: CachesView, path: Seq<char>)
    requires
        mirrored(caches),
        caches.slow.contains_key(path),
    ensures
        mirrored(after_failure(caches, path)),
        caches_agree(caches) && caches.slow[path].pending is Some ==> caches_agree(
            after_failure(caches, path),
        ),
{
    let after = after_failure(caches, path);
    assert forall|k: Seq<char>| #[trigger] after.slow.contains_key(
        k,
    ) implies caches.slow.contains_key(k) by {}
    if caches_agree(caches) && caches.slow[path].pending is Some {
        assert(resolved_entries(after.slow) =~= caches.fast);
    }
}

/// What was resolved is served from then on, to every caller and without
/// another ask.
pub proof fn what_was_resolved_is_served(
    caches: CachesView,
    path: Seq<char>,
    collection_id: u32,
    manifest_rev: u64,
    ticket: u64,
)
    ensures
        resolve_of(after_answer(caches, path, collection_id, manifest_rev), path, ticket)
            == Resolve::Known(collection_id, manifest_rev),
{
}

/// While somebody asks for a collection, nobody else is told to.
pub proof fn one_ask_at_a_time(caches: CachesView, path: Seq<char>, ticket: u64, later: u64)
    requires
        resolve_of(caches, path, ticket) == Resolve::Fetch(ticket),
    ensures
        resolve_of(after_asking(caches, path, ticket), path, later) == Resolve::Wait(ticket),
{
}

/// After a failed ask for a collection that is not served meanwhile, and after
/// a refusal that is not outdated, the next caller asks.
pub proof fn a_dropped_collection_is_asked_for_again(
    caches: CachesView,
    path: Seq<char>,
    manifest_rev: u64,
    ticket: u64,
)
    ensures
        !caches.fast.contains_key(path) ==> resolve_of(after_failure(caches, path), path, ticket)
            == Resolve::Fetch(ticket),
        !is_outdated_refusal(caches, path, manifest_rev) ==> resolve_of(
            after_refusal(caches, path, manifest_rev),
            path,
            ticket,
        ) == Resolve::Fetch(ticket),
{
}

/// A refusal of an id that is served leaves it in service exactly where the
/// refusing node is on an older manifest than the id was learnt from, and says
/// which it is on; else the next caller asks again. Whatever else is served
/// still is.
pub proof fn only_an_outdated_refusal_is_declined(
    caches: CachesView,
    path: Seq<char>,
    collection_id: u32,
    learnt: u64,
    manifest_rev: u64,
    ticket: u64,
    other: Seq<char>,
)
    requires
        caches_agree(caches),
        resolve_of(caches, path, ticket) == Resolve::Known(collection_id, learnt),
        other != path,
    ensures
        resolve_of(after_refusal(caches, path, manifest_rev), path, ticket) == (if 0 < manifest_rev
            < learnt {
            Resolve::Known(collection_id, learnt)
        } else {
            Resolve::Fetch(ticket)
        }),
        resolve_of(after_refusal(caches, path, manifest_rev), other, ticket) == resolve_of(
            caches,
            other,
            ticket,
        ),
{
    assert(caches.slow.contains_key(path));
}

/// What happens to one collection changes nothing for another.
pub proof fn collections_do_not_disturb_each_other(
    caches: CachesView,
    path: Seq<char>,
    other: Seq<char>,
    collection_id: u32,
    manifest_rev: u64,
    ticket: u64,
    later: u64,
)
    requires
        path != other,
        caches_agree(caches),
    ensures
        resolve_of(after_asking(caches, other, ticket), path, later) == resolve_of(
            caches,
            path,
            later,
        ),
        resolve_of(after_answer(caches, other, collection_id, manifest_rev), path, later)
            == resolve_of(caches, path, later),
        resolve_of(after_failure(caches, other), path, later) == resolve_of(caches, path, later),
        resolve_of(after_refusal(caches, other, manifest_rev), path, later) == resolve_of(
            caches,
            path,
            later,
        ),
{
}

/// Two collections go by one path only where both their names agree, as far as
/// no scope's name has a dot in it.
pub proof fn a_path_tells_collections_apart(
    scope: Seq<char>,
    collection: Seq<char>,
    other_scope: Seq<char>,
    other: Seq<char>,
)
    requires
        forall|i: int| 0 <= i < scope.len() ==> #[trigger] scope[i] != '.',
        forall|i: int| 0 <= i < other_scope.len() ==> #[trigger] other_scope[i] != '.',
        collection_path(scope, collection) == collection_path(other_scope, other),
    ensures
        scope == other_scope,
        collection == other,
{
    reveal_strlit(".");
    let a = collection_path(scope, collection);
    let b = collection_path(other_scope, other);
    assert(a[scope.len() as int] == '.');
    assert(b[other_scope.len() as int] == '.');
    if scope.len() < other_scope.len() {
        assert(b[scope.len() as int] == other_scope[scope.len() as int]);
    }
    if scope.len() > other_scope.len() {
        assert(a[other_scope.len() as int] == scope[other_scope.len() as int]);
    }
    assert(scope =~= a.take(scope.len() as int));
    assert(other_scope =~= b.take(scope.len() as int));
    assert(collection =~= a.skip(scope.len() as int + 1));
    assert(other =~= b.skip(scope.len() as int + 1));
}

/// The path of a collection is its scope's name, a dot and its own name.
pub proof fn a_path_is_scope_dot_collection(scope: Seq<char>, collection: Seq<char>)
    ensures
        collection_path(scope, collection) == scope + seq!['.'] + collection,
{
    reveal_strlit(".");
    assert("."@ =~= seq!['.']);
}

/// The fast cache serves an id and the manifest it was learnt from, each as the
/// slow map has it, and nothing that has no id yet.
pub proof fn the_fast_cache_serves_what_was_resolved(
    slow: Map<Seq<char>, CollectionCacheEntry>,
    path: Seq<char>,
)
    ensures
        resolved_entries(slow).contains_key(path) <==> slow.contains_key(path)
            && slow[path].collection_id > 0,
        resolved_entries(slow).contains_key(path) ==> resolved_entries(slow)[path].collection_id
            == slow[path].collection_id && resolved_entries(slow)[path].manifest_rev
            == slow[path].manifest_rev,
{
}

} // verus!
