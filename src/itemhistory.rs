//! The item history: for one notification scope, the listings already
//! notified and when each was first seen, kept for a retention window.

use vstd::prelude::*;
use crate::vahti::VahtiItem;

verus! {

/// How long, in seconds, a listing stays in the history after it was first seen.
pub const RETENTION_WINDOW: i64 = 1000;

/// A listing's key: its marketplace-native id and the site it belongs to.
pub type ItemKey = (i64, i32);

/// Whether an entry first seen at `first_seen` is still kept at time `now`.
pub open spec fn is_retained(first_seen: i64, now: i64) -> bool {
    first_seen as int > now as int - RETENTION_WINDOW as int
}

/// The entries of `m` that are still kept at time `now`.
pub open spec fn retained(m: Map<ItemKey, i64>, now: i64) -> Map<ItemKey, i64> {
    Map::new(|k: ItemKey| m.contains_key(k) && is_retained(m[k], now), |k: ItemKey| m[k])
}

/// The union of two histories; where both hold a key, the earlier first sighting wins.
pub open spec fn merged(a: Map<ItemKey, i64>, b: Map<ItemKey, i64>) -> Map<ItemKey, i64> {
    Map::new(
        |k: ItemKey| a.contains_key(k) || b.contains_key(k),
        |k: ItemKey|
            if a.contains_key(k) && b.contains_key(k) {
                if a[k] <= b[k] {
                    a[k]
                } else {
                    b[k]
                }
            } else if a.contains_key(k) {
                a[k]
            } else {
                b[k]
            },
    )
}

pub open spec fn entry_key(e: (i64, i32, i64)) -> ItemKey {
    (e.0, e.1)
}

/// The entries of `m` whose keys occur among the first `n` entries of `s`.
spec fn prefix_map(s: Seq<(i64, i32, i64)>, m: Map<ItemKey, i64>, n: int) -> Map<ItemKey, i64> {
    Map::new(
        |k: ItemKey| m.contains_key(k) && exists|j: int| 0 <= j < n && #[trigger] entry_key(s[j]) == k,
        |k: ItemKey| m[k],
    )
}

/// Two poll tasks that each merge their snapshot back into the live history,
/// one after the other and in either order, lose no entry: whatever the live
/// history or either snapshot holds, and whose earliest sighting is still
/// within the window, is kept with that earliest sighting.
pub proof fn lemma_interleaved_merges_keep_union(
    live: Map<ItemKey, i64>,
    a: Map<ItemKey, i64>,
    b: Map<ItemKey, i64>,
    now: i64,
)
    ensures
        retained(merged(merged(live, a), b), now).submap_of(
            retained(merged(retained(merged(live, a), now), b), now),
        ),
        retained(merged(merged(live, a), b), now).submap_of(
            retained(merged(retained(merged(live, b), now), a), now),
        ),
{
}

/// A listing recorded at time `t` is still in the history one second before
/// the retention window has passed, and is purged one second after it.
pub proof fn lemma_history_eviction(h: Map<ItemKey, i64>, k: ItemKey, t: i64)
    requires
        !h.contains_key(k),
        t as int + RETENTION_WINDOW as int + 1 <= i64::MAX,
    ensures
        retained(h.insert(k, t), (t + RETENTION_WINDOW - 1) as i64).contains_key(k),
        !retained(h.insert(k, t), (t + RETENTION_WINDOW + 1) as i64).contains_key(k),
{
}

/// The listings of `items` whose keys `h` does not hold, in order.
pub open spec fn unseen_items(items: Seq<VahtiItem>, h: Map<ItemKey, i64>) -> Seq<VahtiItem>
    decreases items.len(),
{
    if items.len() == 0 {
        Seq::empty()
    } else {
        let prev = unseen_items(items.drop_last(), h);
        if h.contains_key((items.last().ad_id, items.last().site_id)) {
            prev
        } else {
            prev.push(items.last())
        }
    }
}

/// What `unseen_items` keeps comes from `items`, and `h` holds none of its keys.
pub proof fn lemma_unseen_items(items: Seq<VahtiItem>, h: Map<ItemKey, i64>)
    ensures
        forall|i: int|
            0 <= i < unseen_items(items, h).len() ==> items.contains(#[trigger] unseen_items(items, h)[i])
                && !h.contains_key((unseen_items(items, h)[i].ad_id, unseen_items(items, h)[i].site_id)),
    decreases items.len(),
{
    if items.len() > 0 {
        let d = items.drop_last();
        lemma_unseen_items(d, h);
        let p = unseen_items(d, h);
        let r = unseen_items(items, h);
        assert forall|i: int| 0 <= i < r.len() implies items.contains(#[trigger] r[i]) && !h.contains_key(
            (r[i].ad_id, r[i].site_id),
        ) by {
            if i < p.len() {
                assert(r[i] == p[i]);
                let k = choose|k: int| 0 <= k < d.len() && d[k] == p[i];
                assert(items[k] == d[k]);
            } else {
                assert(items[items.len() - 1] == r[i]);
            }
        }
    }
}

/// Relies on chrono's `Utc::now` and `DateTime::timestamp`: the current
/// time in Unix seconds. Nothing is known of the value.
#[verifier::external_body]
fn unix_now() -> (r: i64) {
    chrono::Utc::now().timestamp()
}

/// Listings already notified in one scope, each with the time it was first seen.
///
/// The entries are kept in a vector with unique keys rather than a `HashMap`:
/// vstd specifies `HashMap` only for key types that obey its key model, and
/// it establishes that for integer keys, not for tuples such as `ItemKey`.
pub struct ItemHistory {
    items: Vec<(i64, i32, i64)>,
    model: Ghost<Map<ItemKey, i64>>,
}

impl View for ItemHistory {
    type V = Map<ItemKey, i64>;

    closed spec fn view(&self) -> Map<ItemKey, i64> {
        self.model@
    }
}

impl Default for ItemHistory {
    fn default() -> (r: ItemHistory)
        ensures
            r.wf(),
            r@ == Map::<ItemKey, i64>::empty(),
    {
        ItemHistory::new()
    }
}

impl ItemHistory {
    /// The entries are unique by key and hold exactly what the view maps.
    pub closed spec fn wf(&self) -> bool {
        let s = self.items@;
        let m = self.model@;
        &&& forall|i: int, j: int|
            0 <= i < j < s.len() ==> entry_key(#[trigger] s[i]) != entry_key(#[trigger] s[j])
        &&& forall|i: int|
            0 <= i < s.len() ==> m.contains_key(#[trigger] entry_key(s[i])) && m[entry_key(s[i])]
                == s[i].2
        &&& forall|k: ItemKey|
            m.contains_key(k) ==> exists|i: int| 0 <= i < s.len() && #[trigger] entry_key(s[i]) == k
    }

    /// An empty history.
    pub fn new() -> (r: ItemHistory)
        ensures
            r.wf(),
            r@ == Map::<ItemKey, i64>::empty(),
    {
        ItemHistory { items: Vec::new(), model: Ghost(Map::empty()) }
    }

    /// The position of the entry for `(id, site_id)`, if there is one.
    fn find(&self, id: i64, site_id: i32) -> (r: Option<usize>)
        requires
            self.wf(),
        ensures
            match r {
                Some(i) => i < self.items@.len() && entry_key(self.items@[i as int]) == (id, site_id),
                None => !self@.contains_key((id, site_id)) && forall|i: int|
                    0 <= i < self.items@.len() ==> entry_key(#[trigger] self.items@[i]) != (id, site_id),
            },
    {
        let mut i: usize = 0;
        while i < self.items.len()
            invariant
                self.wf(),
                i <= self.items@.len(),
                forall|j: int| 0 <= j < i ==> entry_key(#[trigger] self.items@[j]) != (id, site_id),
            decreases self.items.len() - i,
        {
            let e = self.items[i];
            if e.0 == id && e.1 == site_id {
                return Some(i);
            }
            i += 1;
        }
        None
    }

    /// Whether the listing `(id, site_id)` is in the history.
    pub fn contains(&self, id: i64, site_id: i32) -> (r: bool)
        requires
            self.wf(),
        ensures
            r == self@.contains_key((id, site_id)),
    {
        match self.find(id, site_id) {
            Some(i) => {
                assert(self@.contains_key(entry_key(self.items@[i as int])));
                true
            },
            None => false,
        }
    }

    /// When the listing `(id, site_id)` was first seen, if it is in the history.
    pub fn first_seen(&self, id: i64, site_id: i32) -> (r: Option<i64>)
        requires
            self.wf(),
        ensures
            r == if self@.contains_key((id, site_id)) {
                Some(self@[(id, site_id)])
            } else {
                None::<i64>
            },
    {
        match self.find(id, site_id) {
            Some(i) => {
                assert(self@.contains_key(entry_key(self.items@[i as int])));
                Some(self.items[i].2)
            },
            None => None,
        }
    }

    /// Records the listing `(id, site_id)` as first seen at `timestamp`; a
    /// listing already in the history keeps its earlier record.
    pub fn add_item(&mut self, id: i64, site_id: i32, timestamp: i64)
        requires
            old(self).wf(),
        ensures
            final(self).wf(),
            final(self)@ == if old(self)@.contains_key((id, site_id)) {
                old(self)@
            } else {
                old(self)@.insert((id, site_id), timestamp)
            },
    {
        if self.find(id, site_id).is_none() {
            self.items.push((id, site_id, timestamp));
            self.model = Ghost(self.model@.insert((id, site_id), timestamp));
            proof {
                let s = self.items@;
                let m = self.model@;
                let n = s.len() - 1;
                assert(entry_key(s[n]) == (id, site_id));
                assert forall|k: ItemKey| m.contains_key(k) implies exists|i: int|
                    0 <= i < s.len() && #[trigger] entry_key(s[i]) == k by {
                    if k == (id, site_id) {
                        assert(entry_key(s[n]) == k);
                    } else {
                        let i = choose|i: int| 0 <= i < old(self).items@.len() && #[trigger] entry_key(old(self).items@[i]) == k;
                        assert(s[i] == old(self).items@[i]);
                    }
                }
                assert forall|i: int| 0 <= i < s.len() implies m.contains_key(#[trigger] entry_key(s[i]))
                    && m[entry_key(s[i])] == s[i].2 by {
                    if i < n {
                        assert(s[i] == old(self).items@[i]);
                    }
                }
            }
        }
    }

    /// A copy of this history.
    pub fn snapshot(&self) -> (r: ItemHistory)
        requires
            self.wf(),
        ensures
            r.wf(),
            r@ == self@,
    {
        let mut items: Vec<(i64, i32, i64)> = Vec::new();
        let mut i: usize = 0;
        while i < self.items.len()
            invariant
                i <= self.items@.len(),
                items@ == self.items@.subrange(0, i as int),
            decreases self.items.len() - i,
        {
            items.push(self.items[i]);
            i += 1;
        }
        assert(items@ =~= self.items@);
        let r = ItemHistory { items, model: Ghost(self.model@) };
        assert(r.items@ == self.items@ && r.model@ == self.model@);
        r
    }

    /// Drops the entries that are no longer kept at time `now`.
    pub fn purge_old_at(&mut self, now: i64)
        requires
            old(self).wf(),
        ensures
            final(self).wf(),
            final(self)@ == retained(old(self)@, now),
    {
        let ghost s = self.items@;
        let ghost m = self.model@;
        let mut kept: Vec<(i64, i32, i64)> = Vec::new();
        let ghost mut idx: Seq<int> = Seq::empty();
        let mut i: usize = 0;
        while i < self.items.len()
            invariant
                self.items@ == s,
                self.model@ == m,
                self.wf(),
                i <= s.len(),
                idx.len() == kept@.len(),
                forall|j: int| 0 <= j < idx.len() ==> 0 <= #[trigger] idx[j] < i,
                forall|j: int, l: int| 0 <= j < l < idx.len() ==> #[trigger] idx[j] < #[trigger] idx[l],
                forall|j: int| 0 <= j < idx.len() ==> kept@[j] == s[#[trigger] idx[j]],
                forall|j: int| 0 <= j < kept@.len() ==> is_retained(#[trigger] kept@[j].2, now),
                forall|l: int|
                    0 <= l < i && is_retained(#[trigger] s[l].2, now) ==> exists|j: int|
                        0 <= j < idx.len() && #[trigger] idx[j] == l,
            decreases s.len() - i,
        {
            let e = self.items[i];
            if e.2 as i128 > now as i128 - RETENTION_WINDOW as i128 {
                kept.push(e);
                proof {
                    let old_idx = idx;
                    idx = idx.push(i as int);
                    assert(idx[idx.len() - 1] == i as int);
                    assert forall|l: int|
                        0 <= l < i + 1 && is_retained(#[trigger] s[l].2, now) implies exists|j: int|
                            0 <= j < idx.len() && #[trigger] idx[j] == l by {
                        if l < i {
                            let j = choose|j: int| 0 <= j < old_idx.len() && #[trigger] old_idx[j] == l;
                            assert(idx[j] == old_idx[j]);
                        } else {
                            assert(idx[idx.len() - 1] == l);
                        }
                    }
                }
            }
            i += 1;
        }
        let ghost nm = retained(m, now);
        proof {
            let k = kept@;
            assert forall|a: int, b: int| 0 <= a < b < k.len() implies entry_key(#[trigger] k[a])
                != entry_key(#[trigger] k[b]) by {
                assert(idx[a] < idx[b]);
            }
            assert forall|a: int| 0 <= a < k.len() implies nm.contains_key(#[trigger] entry_key(k[a]))
                && nm[entry_key(k[a])] == k[a].2 by {
                assert(k[a] == s[idx[a]]);
                assert(m.contains_key(entry_key(s[idx[a]])));
            }
            assert forall|key: ItemKey| nm.contains_key(key) implies exists|a: int|
                0 <= a < k.len() && #[trigger] entry_key(k[a]) == key by {
                let l = choose|l: int| 0 <= l < s.len() && #[trigger] entry_key(s[l]) == key;
                assert(is_retained(s[l].2, now));
                let a = choose|a: int| 0 <= a < idx.len() && #[trigger] idx[a] == l;
                assert(entry_key(k[a]) == key);
            }
        }
        self.items = kept;
        self.model = Ghost(nm);
        assert(self.items@ == kept@);
    }

    /// Drops the entries older than the retention window, as of the current time.
    pub fn purge_old(&mut self)
        requires
            old(self).wf(),
        ensures
            final(self).wf(),
            exists|now: i64| final(self)@ == retained(old(self)@, now),
    {
        let now = unix_now();
        self.purge_old_at(now);
    }

    /// Merges `other` into this history: the union of both, keeping the
    /// earlier first sighting of a listing in both, then drops what is no
    /// longer kept at time `now`.
    pub fn merge_at(&mut self, other: &ItemHistory, now: i64)
        requires
            old(self).wf(),
            other.wf(),
        ensures
            final(self).wf(),
            final(self)@ == retained(merged(old(self)@, other@), now),
    {
        let ghost a = self.model@;
        let ghost o = other.items@;
        let ghost om = other.model@;
        let mut i: usize = 0;
        assert(merged(a, prefix_map(o, om, 0)) =~= a);
        while i < other.items.len()
            invariant
                self.wf(),
                other.wf(),
                o == other.items@,
                om == other.model@,
                i <= o.len(),
                self.model@ == merged(a, prefix_map(o, om, i as int)),
            decreases o.len() - i,
        {
            let e = other.items[i];
            let ghost key = entry_key(e);
            proof {
                assert(om.contains_key(entry_key(o[i as int])));
                assert forall|j: int| 0 <= j < i implies entry_key(#[trigger] o[j]) != key by {
                    assert(entry_key(o[j]) != entry_key(o[i as int]));
                }
                assert(!prefix_map(o, om, i as int).contains_key(key));
                assert(prefix_map(o, om, i as int + 1) =~= prefix_map(o, om, i as int).insert(key, e.2));
            }
            match self.find(e.0, e.1) {
                Some(j) => {
                    assert(self.model@.contains_key(entry_key(self.items@[j as int])));
                    if e.2 < self.items[j].2 {
                        let ghost old_items = self.items@;
                        self.items.set(j, e);
                        self.model = Ghost(self.model@.insert(key, e.2));
                        proof {
                            let s = self.items@;
                            assert forall|x: int, y: int| 0 <= x < y < s.len() implies entry_key(
                                #[trigger] s[x],
                            ) != entry_key(#[trigger] s[y]) by {
                                assert(entry_key(s[x]) == entry_key(old_items[x]));
                                assert(entry_key(s[y]) == entry_key(old_items[y]));
                            }
                            assert forall|x: int| 0 <= x < s.len() implies self.model@.contains_key(
                                #[trigger] entry_key(s[x]),
                            ) && self.model@[entry_key(s[x])] == s[x].2 by {
                                if x != j {
                                    assert(s[x] == old_items[x]);
                                    assert(entry_key(old_items[x]) != entry_key(old_items[j as int]));
                                }
                            }
                            assert forall|k: ItemKey| self.model@.contains_key(k) implies exists|x: int|
                                0 <= x < s.len() && #[trigger] entry_key(s[x]) == k by {
                                let x = choose|x: int| 0 <= x < old_items.len() && #[trigger] entry_key(old_items[x]) == k;
                                assert(entry_key(s[x]) == entry_key(old_items[x]));
                            }
                        }
                    }
                    assert(self.model@ =~= merged(a, prefix_map(o, om, i as int + 1)));
                },
                None => {
                    self.add_item(e.0, e.1, e.2);
                    assert(self.model@ =~= merged(a, prefix_map(o, om, i as int + 1)));
                },
            }
            i += 1;
        }
        proof {
            assert forall|k: ItemKey| om.contains_key(k) implies #[trigger] prefix_map(o, om, o.len() as int).contains_key(k) by {
                let j = choose|j: int| 0 <= j < o.len() && #[trigger] entry_key(o[j]) == k;
            }
            assert(prefix_map(o, om, o.len() as int) =~= om);
        }
        self.purge_old_at(now);
    }

    /// Merges a poll's snapshot `other` back into this live history, as
    /// `merge_at` does, and returns the listings of `items` (what the poll
    /// would deliver) whose keys this history did not hold before the merge.
    /// A poll that delivers only these cannot repeat a listing that another
    /// poll of the same scope merged first, even when both took their
    /// snapshots before either merged.
    pub fn merge_new(&mut self, other: &ItemHistory, items: &Vec<VahtiItem>, now: i64) -> (r: Vec<VahtiItem>)
        requires
            old(self).wf(),
            other.wf(),
        ensures
            final(self).wf(),
            final(self)@ == retained(merged(old(self)@, other@), now),
            r@ == unseen_items(items@, old(self)@),
    {
        let mut out: Vec<VahtiItem> = Vec::new();
        let mut i: usize = 0;
        assert(items@.subrange(0, 0) =~= Seq::<VahtiItem>::empty());
        while i < items.len()
            invariant
                self.wf(),
                self@ == old(self)@,
                i <= items@.len(),
                out@ == unseen_items(items@.subrange(0, i as int), old(self)@),
            decreases items.len() - i,
        {
            assert(items@.subrange(0, i + 1 as int).drop_last() =~= items@.subrange(0, i as int));
            if !self.contains(items[i].ad_id, items[i].site_id) {
                out.push(items[i].duplicate());
            }
            i += 1;
        }
        assert(items@.subrange(0, items@.len() as int) =~= items@);
        self.merge_at(other, now);
        out
    }

    /// Merges `other` into this history and drops what is no longer kept, as
    /// of the current time.
    pub fn extend(&mut self, other: &ItemHistory)
        requires
            old(self).wf(),
            other.wf(),
        ensures
            final(self).wf(),
            exists|now: i64| final(self)@ == retained(merged(old(self)@, other@), now),
    {
        let now = unix_now();
        self.merge_at(other, now);
    }
}

} // verus!
