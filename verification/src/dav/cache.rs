//! The listings the bridge keeps for a moment, so that opening a folder asks
//! for it once.
//!
//! Times are milliseconds on a clock that only goes forward.

use crate::folder::{entry_views, EntryView};
use crate::textmap::TextMap;
use crate::types::Entry;
use vstd::prelude::*;

verus! {

/// How long a listing stays fresh: two seconds.
pub const TTL_MS: u64 = 2_000;

/// How many folders are kept at once. Past this, everything is dropped.
pub const MAX_ENTRIES: usize = 1_024;

/// One kept listing.
#[derive(Debug)]
pub struct Listing {
    children: Vec<Entry>,
    at: u64,
}

/// What is known of one kept listing.
pub struct ListingView {
    pub children: Seq<EntryView>,
    pub at: u64,
}

impl View for Listing {
    type V = ListingView;

    closed spec fn view(&self) -> ListingView {
        ListingView { children: entry_views(self.children@), at: self.at }
    }
}

/// The kept listings, by folder.
#[derive(Debug)]
pub struct Cache {
    entries: TextMap<Listing>,
}

impl View for Cache {
    type V = Map<Seq<char>, ListingView>;

    closed spec fn view(&self) -> Map<Seq<char>, ListingView> {
        self.entries@.map_values(|l: Listing| l@)
    }
}

/// A listing kept at `at` is fresh at `now`.
pub open spec fn fresh(at: u64, now: u64, ttl: u64) -> bool {
    now < at + ttl && (now >= at || ttl > 0)
}

/// The listings that are fresh at `now`.
pub open spec fn fresh_only(kept: Map<Seq<char>, ListingView>, now: u64, ttl: u64) -> Map<
    Seq<char>,
    ListingView,
> {
    kept.restrict(kept.dom().filter(|p: Seq<char>| fresh(kept[p].at, now, ttl)))
}

/// What is kept after the listing of `path` is put in at `now`: what is still
/// fresh, unless that is too much, and the new listing.
pub open spec fn kept_after(
    kept: Map<Seq<char>, ListingView>,
    path: Seq<char>,
    children: Seq<EntryView>,
    now: u64,
    ttl: u64,
) -> Map<Seq<char>, ListingView> {
    let left = fresh_only(kept, now, ttl);
    let base = if left.dom().len() >= MAX_ENTRIES && !left.contains_key(path) {
        Map::empty()
    } else {
        left
    };
    base.insert(path, ListingView { children, at: now })
}

fn is_fresh(at: u64, now: u64, ttl: u64) -> (yes: bool)
    ensures
        yes == fresh(at, now, ttl),
{
    if now < at {
        ttl > 0
    } else {
        now - at < ttl
    }
}

impl Cache {
    pub closed spec fn wf(self) -> bool {
        self.entries.wf()
    }

    /// No listing is kept.
    pub fn new() -> (cache: Cache)
        ensures
            cache.wf(),
            cache@ == Map::<Seq<char>, ListingView>::empty(),
    {
        let cache = Cache { entries: TextMap::new() };
        assert(cache@ =~= Map::<Seq<char>, ListingView>::empty());
        cache
    }

    /// The children of `path`, where a listing of it is kept and fresh.
    pub fn get(&self, path: &str, now: u64, ttl: u64) -> (children: Option<&Vec<Entry>>)
        requires
            self.wf(),
        ensures
            match children {
                Some(c) => self@.contains_key(path@) && fresh(self@[path@].at, now, ttl)
                    && entry_views(c@) == self@[path@].children,
                None => !(self@.contains_key(path@) && fresh(self@[path@].at, now, ttl)),
            },
    {
        match self.entries.get(path) {
            None => None,
            Some(listing) => {
                if is_fresh(listing.at, now, ttl) {
                    Some(&listing.children)
                } else {
                    None
                }
            },
        }
    }

    /// Drops every listing that is no longer fresh.
    fn refresh(&mut self, now: u64, ttl: u64)
        requires
            old(self).wf(),
        ensures
            final(self).wf(),
            final(self)@ == fresh_only(old(self)@, now, ttl),
            final(self).entries.spec_keys().len() == final(self)@.dom().len(),
    {
        let mut left: usize = self.entries.len();
        let ghost kept0 = self.entries@;
        while left > 0
            invariant
                self.entries.wf(),
                left <= self.entries.spec_keys().len(),
                kept0 == old(self).entries@,
                forall|k: Seq<char>| #[trigger]
                    self.entries@.contains_key(k) ==> kept0.contains_key(k) && kept0[k]
                        == self.entries@[k],
                forall|k: Seq<char>| #[trigger]
                    kept0.contains_key(k) && !self.entries@.contains_key(k) ==> !fresh(
                        kept0[k].at,
                        now,
                        ttl,
                    ),
                forall|i: int|
                    left <= i < self.entries.spec_keys().len() ==> fresh(
                        self.entries@[#[trigger] self.entries.spec_keys()[i]].at,
                        now,
                        ttl,
                    ),
            decreases left,
        {
            left -= 1;
            let ghost before = self.entries;
            proof {
                before.lemma_view();
            }
            let at: u64 = self.entries.value_at(left).at;
            if !is_fresh(at, now, ttl) {
                let gone = self.entries.remove_at(left);
                proof {
                    self.entries.lemma_view();
                    assert forall|i: int| left <= i < self.entries.spec_keys().len() implies fresh(
                        self.entries@[#[trigger] self.entries.spec_keys()[i]].at,
                        now,
                        ttl,
                    ) by {
                        assert(self.entries.spec_keys()[i] == before.spec_keys()[i + 1]);
                    }
                }
            }
        }
        proof {
            self.entries.lemma_view();
            assert forall|k: Seq<char>| self.entries@.contains_key(k) implies fresh(
                self.entries@[k].at,
                now,
                ttl,
            ) by {
                let i = self.entries.spec_keys().index_of(k);
                assert(self.entries.spec_keys()[i] == k);
            }
            assert(self@ =~= fresh_only(old(self)@, now, ttl));
            self.entries.lemma_len();
            assert(self@.dom() =~= self.entries@.dom());
        }
    }

    /// Keeps the listing of `path`.
    pub fn put(&mut self, path: &str, children: Vec<Entry>, now: u64, ttl: u64)
        requires
            old(self).wf(),
        ensures
            final(self).wf(),
            final(self)@ == kept_after(old(self)@, path@, entry_views(children@), now, ttl),
    {
        self.refresh(now, ttl);
        let ghost left = self@;
        assert(left.contains_key(path@) <==> self.entries@.contains_key(path@));
        if self.entries.len() >= MAX_ENTRIES && !self.entries.contains(path) {
            self.entries.clear();
            assert(self@ =~= Map::<Seq<char>, ListingView>::empty());
        }
        let ghost base = self@;
        let ghost listing = ListingView { children: entry_views(children@), at: now };
        self.entries.insert(path, Listing { children, at: now });
        assert(self@ =~= base.insert(path@, listing));
    }

    /// Drops the listing of `path`, because something in it was written.
    pub fn invalidate(&mut self, path: &str)
        requires
            old(self).wf(),
        ensures
            final(self).wf(),
            final(self)@ == old(self)@.remove(path@),
    {
        let gone = self.entries.remove(path);
        assert(self@ =~= old(self)@.remove(path@));
    }
}

/// A listing that was put in is read back for as long as it is fresh.
pub proof fn lemma_put_then_get(
    kept: Map<Seq<char>, ListingView>,
    path: Seq<char>,
    children: Seq<EntryView>,
    at: u64,
    ttl: u64,
    now: u64,
)
    requires
        at <= now < at + ttl,
    ensures
        kept_after(kept, path, children, at, ttl).contains_key(path),
        kept_after(kept, path, children, at, ttl)[path].children == children,
        fresh(kept_after(kept, path, children, at, ttl)[path].at, now, ttl),
{
}

/// Never more than [`MAX_ENTRIES`] listings are kept.
pub proof fn lemma_cache_bounded(
    kept: Map<Seq<char>, ListingView>,
    path: Seq<char>,
    children: Seq<EntryView>,
    now: u64,
    ttl: u64,
)
    requires
        kept.dom().finite(),
        kept.dom().len() <= MAX_ENTRIES,
    ensures
        kept_after(kept, path, children, now, ttl).dom().finite(),
        kept_after(kept, path, children, now, ttl).dom().len() <= MAX_ENTRIES,
{
    let left = fresh_only(kept, now, ttl);
    assert(left.dom() =~= kept.dom().filter(|p: Seq<char>| fresh(kept[p].at, now, ttl)));
    vstd::set_lib::lemma_len_subset(left.dom(), kept.dom());
    let after = kept_after(kept, path, children, now, ttl);
    if left.dom().len() >= MAX_ENTRIES && !left.contains_key(path) {
        assert(after.dom() =~= Set::empty().insert(path));
    } else {
        assert(after.dom() =~= left.dom().insert(path));
        if left.contains_key(path) {
            assert(after.dom() =~= left.dom());
        }
    }
}

/// A listing that was kept is given back as it was while it is fresh, and not
/// any more once its time is over or it was dropped.
pub proof fn lemma_listing_is_given_back(
    cache: &mut Cache,
    path: &str,
    children: Vec<Entry>,
    at: u64,
    ttl: u64,
    now: u64,
    after: &Cache,
    got: Option<&Vec<Entry>>,
    dropped: &mut Cache,
    last: &Cache,
    gone: Option<&Vec<Entry>>,
)
    requires
        call_ensures(Cache::put, (cache, path, children, at, ttl), ()),
        after@ == final(cache)@,
        at <= now,
        call_ensures(Cache::get, (after, path, now, ttl), got),
        old(dropped)@ == final(cache)@,
        call_ensures(Cache::invalidate, (dropped, path), ()),
        last@ == final(dropped)@,
        call_ensures(Cache::get, (last, path, now, ttl), gone),
    ensures
        now < at + ttl ==> got is Some && entry_views(got->0@) == entry_views(children@),
        now >= at + ttl ==> got is None,
        gone is None,
{
}

/// A listing that is kept does not touch another that is fresh, unless there
/// are too many.
pub proof fn lemma_other_listings_stay(
    cache: &mut Cache,
    path: &str,
    children: Vec<Entry>,
    now: u64,
    ttl: u64,
    other: Seq<char>,
)
    requires
        call_ensures(Cache::put, (cache, path, children, now, ttl), ()),
        other != path@,
        old(cache)@.contains_key(other),
        old(cache)@.dom().finite(),
        old(cache)@.dom().len() < MAX_ENTRIES,
        old(cache)@[other].at <= now < old(cache)@[other].at + ttl,
    ensures
        final(cache)@.contains_key(other),
        final(cache)@[other] == old(cache)@[other],
{
    let kept = old(cache)@;
    let left = fresh_only(kept, now, ttl);
    assert(left.dom().subset_of(kept.dom()));
    vstd::set_lib::lemma_len_subset(left.dom(), kept.dom());
}

} // verus!
