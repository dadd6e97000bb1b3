//! The keyed load cache: a process-wide map from image key to load state,
//! giving at-most-one-load-in-flight-per-key semantics, with explicit
//! bookkeeping of how many holders outside the cache still share each
//! entry, and a periodic eviction pass.

use vstd::prelude::*;
use crate::state::{ContextView, LoadContext, StatusView};
use crate::traits::Background;

verus! {

/// Identifies what to load; today a single variant wrapping the URL of a
/// remote source. Used as the cache's unique key.
#[derive(PartialEq, Eq, Hash, Clone, Debug)]
pub enum Key {
    Https(String),
}

impl View for Key {
    type V = Seq<char>;

    open spec fn view(&self) -> Seq<char> {
        match self {
            Key::Https(s) => s@,
        }
    }
}

impl Key {
    /// A copy that names the same source; verified code uses this instead
    /// of the derived `Clone`, whose effect Verus does not know.
    pub fn dup(&self) -> (r: Key)
        ensures
            r@ == self@,
    {
        match self {
            Key::Https(s) => Key::Https(s.clone()),
        }
    }
}

/// Exec key comparison with a specified meaning.
fn key_eq(a: &Key, b: &Key) -> (r: bool)
    ensures
        r == (a@ == b@),
{
    match (a, b) {
        (Key::Https(x), Key::Https(y)) => x.eq(y),
    }
}

/// Mathematical view of one cache slot: the load-state record, the number
/// of holders outside the cache that still share it, and whether the
/// eviction pass has reclaimed it.
pub struct SlotView {
    pub ctx: ContextView,
    pub holders: u64,
    pub reclaimed: bool,
}

/// Mathematical view of the whole cache: every slot ever created (a slot
/// number is the identity of one load state), the key index mapping each
/// live key to its slot, and the staleness threshold.
pub struct CacheView {
    pub slots: Seq<SlotView>,
    pub index: Seq<(Seq<char>, int)>,
    pub staleness: u64,
}

impl CacheView {
    /// Well-formedness: keys and slot numbers in the index are unique and
    /// in range, indexed slots are not reclaimed, and a reclaimed slot has
    /// no holder left.
    pub open spec fn wf(self) -> bool {
        &&& forall|i: int, j: int|
            0 <= i < j < self.index.len() ==> (#[trigger] self.index[i]).0 != (
            #[trigger] self.index[j]).0
        &&& forall|i: int, j: int|
            0 <= i < j < self.index.len() ==> (#[trigger] self.index[i]).1 != (
            #[trigger] self.index[j]).1
        &&& forall|i: int|
            0 <= i < self.index.len() ==> 0 <= (#[trigger] self.index[i]).1 < self.slots.len()
        &&& forall|i: int|
            0 <= i < self.index.len() ==> !self.slots[(#[trigger] self.index[i]).1].reclaimed
        &&& forall|s: int|
            0 <= s < self.slots.len() && (#[trigger] self.slots[s]).reclaimed ==> self.slots[
                s].holders == 0
    }

    /// Whether the index holds an entry for this key.
    pub open spec fn has_key(self, k: Seq<char>) -> bool {
        exists|i: int| 0 <= i < self.index.len() && (#[trigger] self.index[i]).0 == k
    }

    /// The position of this key in the index.
    pub open spec fn pos_of(self, k: Seq<char>) -> int {
        choose|i: int| 0 <= i < self.index.len() && (#[trigger] self.index[i]).0 == k
    }

    /// The slot this key maps to.
    pub open spec fn slot_of(self, k: Seq<char>) -> int {
        self.index[self.pos_of(k)].1
    }
}

/// In a well-formed cache the index position of a key is unique, so an
/// entry seen at position `i` settles `pos_of` and `slot_of`.
pub proof fn lemma_pos_unique(c: CacheView, k: Seq<char>, i: int)
    requires
        c.wf(),
        0 <= i < c.index.len(),
        c.index[i].0 == k,
    ensures
        c.has_key(k),
        c.pos_of(k) == i,
        c.slot_of(k) == c.index[i].1,
{
    assert(c.has_key(k));
    let q = c.pos_of(k);
    assert(0 <= q < c.index.len() && c.index[q].0 == k);
    if q < i {
        assert(c.index[q].0 != c.index[i].0);
    } else if i < q {
        assert(c.index[i].0 != c.index[q].0);
    }
}

/// One cache slot as stored: the record, the outside-holder count, and the
/// reclaimed mark.
struct Slot {
    ctx: LoadContext,
    holders: u64,
    reclaimed: bool,
}

impl View for Slot {
    type V = SlotView;

    closed spec fn view(&self) -> SlotView {
        SlotView { ctx: self.ctx@, holders: self.holders, reclaimed: self.reclaimed }
    }
}

/// Default staleness threshold of the eviction pass, in milliseconds.
pub const STALENESS_DEFAULT_MS: u64 = 60000;

/// The keyed cache of load states. Slots model the reference-counted
/// records: a slot survives as long as any holder shares it, and the index
/// maps each live key to its slot. All operations are short critical
/// sections serialized by the single lock of the cache's owner.
pub struct LoadCache {
    slots: Vec<Slot>,
    index: Vec<(Key, usize)>,
    staleness: u64,
}

impl View for LoadCache {
    type V = CacheView;

    closed spec fn view(&self) -> CacheView {
        CacheView {
            slots: self.slots@.map_values(|s: Slot| s@),
            index: self.index@.map_values(|p: (Key, usize)| (p.0@, p.1 as int)),
            staleness: self.staleness,
        }
    }
}

/// What `get_context` does to the cache: an existing entry gains one
/// holder and everything else stays; a missing entry gets a fresh
/// `Loading` slot with two holders (the caller and the spawned task), and
/// exactly then a task is spawned.
pub open spec fn get_context_post(
    pre: CacheView,
    post: CacheView,
    k: Seq<char>,
    now: u64,
    slot: usize,
    spawned: bool,
) -> bool {
    &&& post.wf()
    &&& post.staleness == pre.staleness
    &&& spawned == !pre.has_key(k)
    &&& post.has_key(k)
    &&& post.slot_of(k) == slot as int
    &&& if pre.has_key(k) {
        &&& slot as int == pre.slot_of(k)
        &&& post.index == pre.index
        &&& post.slots == pre.slots.update(
            slot as int,
            (SlotView {
                ctx: pre.slots[slot as int].ctx,
                holders: (pre.slots[slot as int].holders + 1) as u64,
                reclaimed: pre.slots[slot as int].reclaimed,
            }),
        )
    } else {
        &&& slot as int == pre.slots.len()
        &&& post.index == pre.index.push((k, slot as int))
        &&& post.slots == pre.slots.push(
            (SlotView {
                ctx: (ContextView { status: StatusView::Loading, last_access: now }),
                holders: 2,
                reclaimed: false,
            }),
        )
    }
}

/// An entry is stale when more than the staleness threshold has elapsed
/// since its last access.
pub open spec fn stale(c: ContextView, now: u64, staleness: u64) -> bool {
    now > c.last_access + staleness
}

/// Whether the eviction pass reclaims the slot of index entry `i`: the
/// entry is stale and no holder outside the cache shares the slot.
pub open spec fn evicts_here(c: CacheView, now: u64, i: int) -> bool {
    stale(c.slots[c.index[i].1].ctx, now, c.staleness) && c.slots[c.index[i].1].holders == 0
}

/// The texture handles the eviction pass frees among the first `i` index
/// entries: those of reclaimed slots whose load had finished with a
/// texture, in index order.
#[verifier::opaque]
pub open spec fn freed_upto(c: CacheView, now: u64, i: int) -> Seq<u64>
    decreases i,
{
    if i <= 0 {
        Seq::empty()
    } else {
        freed_upto(c, now, i - 1) + (if evicts_here(c, now, i - 1) && c.slots[c.index[i
            - 1].1].ctx.status is Loaded {
            seq![c.slots[c.index[i - 1].1].ctx.status->Loaded_0]
        } else {
            Seq::empty()
        })
    }
}

/// The pair `e` is an original index entry before position `i` whose
/// record was not stale.
pub open spec fn kept_from(pre: CacheView, e: (Seq<char>, int), now: u64, i: int) -> bool {
    exists|j: int|
        0 <= j < i && e == #[trigger] pre.index[j] && !stale(
            pre.slots[pre.index[j].1].ctx,
            now,
            pre.staleness,
        )
}

/// The sequence holds the pair `e`.
pub open spec fn seq_has(entries: Seq<(Seq<char>, int)>, e: (Seq<char>, int)) -> bool {
    exists|a: int| 0 <= a < entries.len() && #[trigger] entries[a] == e
}

/// Keys and slot numbers are pairwise distinct.
pub open spec fn entries_unique(entries: Seq<(Seq<char>, int)>) -> bool {
    forall|a: int, b: int|
        0 <= a < b < entries.len() ==> (#[trigger] entries[a]).0 != (#[trigger] entries[b]).0
            && entries[a].1 != entries[b].1
}

/// What the eviction pass does: the index keeps exactly the entries that
/// were not stale, in order; every slot's record and holder count survive
/// (in particular a slot some holder still shares is untouched); the
/// reclaimed mark is added on the slot of every stale, unshared entry and
/// on no slot that was shared or fresh; and the freed handles are exactly
/// those of reclaimed slots whose load had finished with a texture.
pub open spec fn cleanup_post(pre: CacheView, post: CacheView, now: u64, freed: Seq<u64>) -> bool {
    &&& post.staleness == pre.staleness
    &&& post.slots.len() == pre.slots.len()
    &&& freed == freed_upto(pre, now, pre.index.len() as int)
    &&& forall|s: int|
        0 <= s < pre.slots.len() ==> (#[trigger] post.slots[s]).ctx == pre.slots[s].ctx
            && post.slots[s].holders == pre.slots[s].holders
    &&& forall|s: int|
        0 <= s < pre.slots.len() && (#[trigger] post.slots[s]).reclaimed ==> pre.slots[s].reclaimed
            || (pre.slots[s].holders == 0 && stale(pre.slots[s].ctx, now, pre.staleness))
    &&& forall|s: int|
        0 <= s < pre.slots.len() && (#[trigger] pre.slots[s]).reclaimed ==> post.slots[s].reclaimed
    &&& forall|i: int|
        0 <= i < pre.index.len() && evicts_here(pre, now, i) ==> post.slots[(
        #[trigger] pre.index[i]).1].reclaimed
}

impl LoadCache {
    /// An empty cache with the default staleness threshold.
    pub fn new() -> (r: Self)
        ensures
            r@.wf(),
            r@.slots.len() == 0,
            r@.index.len() == 0,
            r@.staleness == STALENESS_DEFAULT_MS,
    {
        LoadCache { slots: Vec::new(), index: Vec::new(), staleness: STALENESS_DEFAULT_MS }
    }

    /// An empty cache with the given staleness threshold, in milliseconds.
    pub fn with_staleness(staleness_ms: u64) -> (r: Self)
        ensures
            r@.wf(),
            r@.slots.len() == 0,
            r@.index.len() == 0,
            r@.staleness == staleness_ms,
    {
        LoadCache { slots: Vec::new(), index: Vec::new(), staleness: staleness_ms }
    }

    /// The configured staleness threshold, in milliseconds.
    pub fn staleness(&self) -> (r: u64)
        ensures
            r == self@.staleness,
    {
        self.staleness
    }

    /// The number of slots ever created.
    pub fn slot_count(&self) -> (r: usize)
        ensures
            r == self@.slots.len(),
    {
        self.slots.len()
    }

    /// The number of live index entries.
    pub fn entry_count(&self) -> (r: usize)
        ensures
            r == self@.index.len(),
    {
        self.index.len()
    }

    /// Linear scan of the index for a key.
    fn find(&self, key: &Key) -> (r: Option<usize>)
        requires
            self@.wf(),
        ensures
            match r {
                Some(p) => {
                    &&& self@.has_key(key@)
                    &&& 0 <= p < self@.index.len()
                    &&& self@.index[p as int].0 == key@
                    &&& self@.pos_of(key@) == p as int
                },
                None => !self@.has_key(key@),
            },
    {
        let n = self.index.len();
        let mut i: usize = 0;
        while i < n
            invariant
                n == self@.index.len(),
                i <= n,
                self@.wf(),
                forall|j: int| 0 <= j < i ==> (#[trigger] self@.index[j]).0 != key@,
            decreases n - i,
        {
            if key_eq(&self.index[i].0, key) {
                proof {
                    assert(self@.index[i as int].0 == key@);
                    lemma_pos_unique(self@, key@, i as int);
                }
                return Some(i);
            }
            i += 1;
        }
        None
    }

    /// How many holders outside the cache currently share the entry for
    /// this key, or `None` if the key has no entry.
    pub fn holder_count(&self, key: &Key) -> (r: Option<u64>)
        requires
            self@.wf(),
        ensures
            r is Some <==> self@.has_key(key@),
            self@.has_key(key@) ==> r == Some(self@.slots[self@.slot_of(key@)].holders),
    {
        match self.find(key) {
            Some(p) => {
                let sid = self.index[p].1;
                Some(self.slots[sid].holders)
            },
            None => None,
        }
    }

    /// How many holders share the given slot.
    pub fn slot_holders(&self, slot: usize) -> (r: u64)
        requires
            slot < self@.slots.len(),
        ensures
            r == self@.slots[slot as int].holders,
    {
        self.slots[slot].holders
    }

    /// Look up the entry for `key`, creating it if absent. On a hit the
    /// existing slot simply gains one holder and no task is spawned: at
    /// most one load per key is ever in flight. On a miss a fresh
    /// `Loading` record is created, indexed under `key`, and exactly one
    /// fetch-and-decode task is delegated to the spawner `bg`, which is
    /// handed the key and the new slot. Returns the slot and whether a
    /// task was spawned.
    pub fn get_context<BG: Background>(&mut self, bg: &BG, key: Key, now: u64) -> (r: (
        usize,
        bool,
    ))
        requires
            old(self)@.wf(),
            old(self)@.has_key(key@) ==> old(self)@.slots[old(self)@.slot_of(key@)].holders
                < u64::MAX,
        ensures
            get_context_post(old(self)@, final(self)@, key@, now, r.0, r.1),
    {
        let ghost pre = self@;
        match self.find(&key) {
            Some(p) => {
                proof {
                    assert(pre.index[p as int].1 == pre.slot_of(key@));
                }
                let sid = self.index[p].1;
                let h = self.slots[sid].holders;
                self.slots[sid].holders = h + 1;
                proof {
                    assert(self@.index =~= pre.index);
                    assert(self@.slots =~= pre.slots.update(
                        sid as int,
                        (SlotView {
                            ctx: pre.slots[sid as int].ctx,
                            holders: (pre.slots[sid as int].holders + 1) as u64,
                            reclaimed: pre.slots[sid as int].reclaimed,
                        }),
                    ));
                    assert(self@.wf());
                    lemma_pos_unique(self@, key@, p as int);
                }
                (sid, false)
            },
            None => {
                let sid = self.slots.len();
                bg.start_loading_image(key.dup(), sid);
                let ctx = LoadContext::new(now);
                self.slots.push(Slot { ctx, holders: 2, reclaimed: false });
                self.index.push((key, sid));
                proof {
                    assert(self@.index =~= pre.index.push((key@, sid as int)));
                    assert(self@.slots =~= pre.slots.push(
                        (SlotView {
                            ctx: (ContextView { status: StatusView::Loading, last_access: now }),
                            holders: 2,
                            reclaimed: false,
                        }),
                    ));
                    assert forall|i: int| 0 <= i < pre.index.len() implies (#[trigger] self@.index[
                        i]).0 != key@ by {
                        assert(!pre.has_key(key@));
                        assert(pre.index[i].0 != key@);
                    }
                    assert(self@.wf());
                    lemma_pos_unique(self@, key@, pre.index.len() as int);
                }
                (sid, true)
            },
        }
    }

    /// Non-blocking snapshot read of the texture handle in a slot the
    /// caller holds; refreshes the slot's access time.
    pub fn get_texture_id(&mut self, slot: usize, now: u64) -> (r: Option<u64>)
        requires
            old(self)@.wf(),
            slot < old(self)@.slots.len(),
            old(self)@.slots[slot as int].holders > 0,
        ensures
            final(self)@.wf(),
            final(self)@.index == old(self)@.index,
            final(self)@.staleness == old(self)@.staleness,
            final(self)@.slots == old(self)@.slots.update(
                slot as int,
                (SlotView {
                    ctx: (ContextView {
                        status: old(self)@.slots[slot as int].ctx.status,
                        last_access: now,
                    }),
                    holders: old(self)@.slots[slot as int].holders,
                    reclaimed: old(self)@.slots[slot as int].reclaimed,
                }),
            ),
            r == (match old(self)@.slots[slot as int].ctx.status {
                StatusView::Loaded(id) => Some(id),
                _ => None::<u64>,
            }),
    {
        let ghost pre = self@;
        let s = &mut self.slots[slot];
        let r = s.ctx.get_texture_id(now);
        proof {
            assert(self@.index =~= pre.index);
            assert(self@.slots =~= pre.slots.update(
                slot as int,
                (SlotView {
                    ctx: (ContextView {
                        status: pre.slots[slot as int].ctx.status,
                        last_access: now,
                    }),
                    holders: pre.slots[slot as int].holders,
                    reclaimed: pre.slots[slot as int].reclaimed,
                }),
            ));
        }
        r
    }

    /// Non-blocking snapshot read of the error message in a slot the
    /// caller holds; refreshes the slot's access time.
    pub fn get_error(&mut self, slot: usize, now: u64) -> (r: Option<String>)
        requires
            old(self)@.wf(),
            slot < old(self)@.slots.len(),
            old(self)@.slots[slot as int].holders > 0,
        ensures
            final(self)@.wf(),
            final(self)@.index == old(self)@.index,
            final(self)@.staleness == old(self)@.staleness,
            final(self)@.slots == old(self)@.slots.update(
                slot as int,
                (SlotView {
                    ctx: (ContextView {
                        status: old(self)@.slots[slot as int].ctx.status,
                        last_access: now,
                    }),
                    holders: old(self)@.slots[slot as int].holders,
                    reclaimed: old(self)@.slots[slot as int].reclaimed,
                }),
            ),
            r is Some <==> old(self)@.slots[slot as int].ctx.status is Error,
            old(self)@.slots[slot as int].ctx.status is Error ==> r->Some_0@ == old(
                self,
            )@.slots[slot as int].ctx.status->Error_0,
    {
        let ghost pre = self@;
        let s = &mut self.slots[slot];
        let r = s.ctx.get_error(now);
        proof {
            assert(self@.index =~= pre.index);
            assert(self@.slots =~= pre.slots.update(
                slot as int,
                (SlotView {
                    ctx: (ContextView {
                        status: pre.slots[slot as int].ctx.status,
                        last_access: now,
                    }),
                    holders: pre.slots[slot as int].holders,
                    reclaimed: pre.slots[slot as int].reclaimed,
                }),
            ));
        }
        r
    }

    /// Record a permanent failure in a slot's record: the lifecycle moves
    /// to `Error` only out of `Loading`, and the access time is refreshed.
    pub(crate) fn set_error_at(&mut self, slot: usize, e: String, now: u64)
        requires
            old(self)@.wf(),
            slot < old(self)@.slots.len(),
        ensures
            final(self)@.wf(),
            final(self)@.index == old(self)@.index,
            final(self)@.staleness == old(self)@.staleness,
            final(self)@.slots == old(self)@.slots.update(
                slot as int,
                (SlotView {
                    ctx: (ContextView {
                        status: if old(self)@.slots[slot as int].ctx.status is Loading {
                            StatusView::Error(e@)
                        } else {
                            old(self)@.slots[slot as int].ctx.status
                        },
                        last_access: now,
                    }),
                    holders: old(self)@.slots[slot as int].holders,
                    reclaimed: old(self)@.slots[slot as int].reclaimed,
                }),
            ),
    {
        let ghost pre = self@;
        let s = &mut self.slots[slot];
        s.ctx.set_error(e, now);
        proof {
            assert(self@.index =~= pre.index);
            assert(self@.slots =~= pre.slots.update(slot as int, self@.slots[slot as int]));
        }
    }

    /// Record the texture handle of a finished load in a slot's record:
    /// the lifecycle moves to `Loaded` only out of `Loading`, and the
    /// access time is refreshed.
    pub(crate) fn set_texture_at(&mut self, slot: usize, id: u64, now: u64)
        requires
            old(self)@.wf(),
            slot < old(self)@.slots.len(),
        ensures
            final(self)@.wf(),
            final(self)@.index == old(self)@.index,
            final(self)@.staleness == old(self)@.staleness,
            final(self)@.slots == old(self)@.slots.update(
                slot as int,
                (SlotView {
                    ctx: (ContextView {
                        status: if old(self)@.slots[slot as int].ctx.status is Loading {
                            StatusView::Loaded(id)
                        } else {
                            old(self)@.slots[slot as int].ctx.status
                        },
                        last_access: now,
                    }),
                    holders: old(self)@.slots[slot as int].holders,
                    reclaimed: old(self)@.slots[slot as int].reclaimed,
                }),
            ),
    {
        let ghost pre = self@;
        let s = &mut self.slots[slot];
        s.ctx.set_texture_id(id, now);
        proof {
            assert(self@.index =~= pre.index);
            assert(self@.slots =~= pre.slots.update(slot as int, self@.slots[slot as int]));
        }
    }

    /// Give up one outside holder's share of a slot, as when a consumer or
    /// a finished task drops its reference. The record itself is
    /// untouched.
    pub fn release(&mut self, slot: usize)
        requires
            old(self)@.wf(),
            slot < old(self)@.slots.len(),
            old(self)@.slots[slot as int].holders > 0,
        ensures
            final(self)@.wf(),
            final(self)@.index == old(self)@.index,
            final(self)@.staleness == old(self)@.staleness,
            final(self)@.slots == old(self)@.slots.update(
                slot as int,
                (SlotView {
                    ctx: old(self)@.slots[slot as int].ctx,
                    holders: (old(self)@.slots[slot as int].holders - 1) as u64,
                    reclaimed: old(self)@.slots[slot as int].reclaimed,
                }),
            ),
    {
        let ghost pre = self@;
        let h = self.slots[slot].holders;
        self.slots[slot].holders = h - 1;
        proof {
            assert(self@.index =~= pre.index);
            assert(self@.slots =~= pre.slots.update(
                slot as int,
                (SlotView {
                    ctx: pre.slots[slot as int].ctx,
                    holders: (pre.slots[slot as int].holders - 1) as u64,
                    reclaimed: pre.slots[slot as int].reclaimed,
                }),
            ));
        }
    }

    /// The periodic eviction pass. Every index entry whose last access
    /// lies more than the staleness threshold in the past is dropped from
    /// the index. A dropped entry's slot is reclaimed only when no holder
    /// outside the cache still shares it; a shared slot survives
    /// untouched and stays usable through its holders. Returns the
    /// texture handles of the reclaimed slots whose load had finished,
    /// each to be freed exactly once by the caller's texture deallocator;
    /// reclaimed `Loading` or `Error` slots own no texture and yield
    /// nothing.
    #[verifier::rlimit(30)]
    pub fn cleanup(&mut self, now: u64) -> (freed: Vec<u64>)
        requires
            old(self)@.wf(),
        ensures
            final(self)@.wf(),
            cleanup_post(old(self)@, final(self)@, now, freed@),
            forall|k: Seq<char>|
                final(self)@.has_key(k) <==> (old(self)@.has_key(k) && !stale(
                    old(self)@.slots[old(self)@.slot_of(k)].ctx,
                    now,
                    old(self)@.staleness,
                )),
            forall|k: Seq<char>| #[trigger]
                final(self)@.has_key(k) ==> final(self)@.slot_of(k) == old(self)@.slot_of(k),
    {
        let ghost pre = self@;
        let mut kept: Vec<(Key, usize)> = Vec::new();
        let mut freed: Vec<u64> = Vec::new();
        let n = self.index.len();
        let mut i: usize = 0;
        proof {
            reveal_with_fuel(freed_upto, 1);
            assert(freed@ =~= freed_upto(pre, now, 0));
        }
        while i < n
            invariant
                n == pre.index.len(),
                i <= n,
                pre.wf(),
                self@.index == pre.index,
                self@.staleness == pre.staleness,
                self@.slots.len() == pre.slots.len(),
                forall|s: int|
                    0 <= s < pre.slots.len() ==> (#[trigger] self@.slots[s]).ctx
                        == pre.slots[s].ctx && self@.slots[s].holders == pre.slots[s].holders,
                forall|s: int|
                    0 <= s < pre.slots.len() && (#[trigger] self@.slots[s]).reclaimed
                        ==> pre.slots[s].reclaimed || (pre.slots[s].holders == 0 && stale(
                        pre.slots[s].ctx,
                        now,
                        pre.staleness,
                    )),
                forall|s: int|
                    0 <= s < pre.slots.len() && (#[trigger] pre.slots[s]).reclaimed
                        ==> self@.slots[s].reclaimed,
                forall|j: int|
                    0 <= j < i && evicts_here(pre, now, j) ==> self@.slots[(
                    #[trigger] pre.index[j]).1].reclaimed,
                forall|a: int|
                    0 <= a < kept@.len() ==> kept_from(
                        pre,
                        ((#[trigger] kept@[a]).0@, kept@[a].1 as int),
                        now,
                        i as int,
                    ),
                forall|j: int|
                    0 <= j < i && !stale(
                        pre.slots[(#[trigger] pre.index[j]).1].ctx,
                        now,
                        pre.staleness,
                    ) ==> seq_has(
                        kept@.map_values(|p: (Key, usize)| (p.0@, p.1 as int)),
                        pre.index[j],
                    ),
                entries_unique(kept@.map_values(|p: (Key, usize)| (p.0@, p.1 as int))),
                freed@ == freed_upto(pre, now, i as int),
            decreases n - i,
        {
            let ghost keptv0 = kept@.map_values(|p: (Key, usize)| (p.0@, p.1 as int));
            let ghost mid = self@;
            let sid = self.index[i].1;
            proof {
                reveal_with_fuel(freed_upto, 2);
                assert(pre.index[i as int].1 == sid as int);
                assert((sid as int) < pre.slots.len());
            }
            let la = self.slots[sid].ctx.last_access();
            if now >= la && now - la > self.staleness {
                proof {
                    assert(stale(pre.slots[sid as int].ctx, now, pre.staleness));
                }
                if self.slots[sid].holders == 0 {
                    self.slots[sid].reclaimed = true;
                    proof {
                        assert(self@.slots =~= mid.slots.update(
                            sid as int,
                            (SlotView {
                                ctx: mid.slots[sid as int].ctx,
                                holders: mid.slots[sid as int].holders,
                                reclaimed: true,
                            }),
                        ));
                        assert(evicts_here(pre, now, i as int));
                    }
                    let t = self.slots[sid].ctx.status().as_texture();
                    if let Some(id) = t {
                        freed.push(id);
                        proof {
                            assert(freed@ =~= freed_upto(pre, now, i as int) + seq![id]);
                        }
                    } else {
                        proof {
                            assert(freed@ =~= freed_upto(pre, now, i as int) + Seq::<
                                u64,
                            >::empty());
                        }
                    }
                } else {
                    proof {
                        assert(!evicts_here(pre, now, i as int));
                        assert(freed@ =~= freed_upto(pre, now, i as int) + Seq::<u64>::empty());
                    }
                }
            } else {
                kept.push((self.index[i].0.dup(), sid));
                proof {
                    assert(!stale(pre.slots[sid as int].ctx, now, pre.staleness));
                    assert(!evicts_here(pre, now, i as int));
                    assert(freed@ =~= freed_upto(pre, now, i as int) + Seq::<u64>::empty());
                    let keptv = kept@.map_values(|p: (Key, usize)| (p.0@, p.1 as int));
                    assert(keptv =~= keptv0.push(pre.index[i as int]));
                    assert forall|a: int| 0 <= a < kept@.len() implies kept_from(
                        pre,
                        ((#[trigger] kept@[a]).0@, kept@[a].1 as int),
                        now,
                        i as int + 1,
                    ) by {
                        assert(keptv[a] == (kept@[a].0@, kept@[a].1 as int));
                        if a < keptv.len() - 1 {
                            let j = choose|j: int|
                                0 <= j < i && keptv0[a] == #[trigger] pre.index[j] && !stale(
                                    pre.slots[pre.index[j].1].ctx,
                                    now,
                                    pre.staleness,
                                );
                            assert(keptv[a] == pre.index[j]);
                        } else {
                            assert(keptv[a] == pre.index[i as int]);
                        }
                    }
                    assert forall|j: int|
                        0 <= j <= i && !stale(
                            pre.slots[(#[trigger] pre.index[j]).1].ctx,
                            now,
                            pre.staleness,
                        ) implies seq_has(keptv, pre.index[j]) by {
                        if j < i {
                            let a = choose|a: int|
                                0 <= a < keptv0.len() && #[trigger] keptv0[a] == pre.index[j];
                            assert(keptv[a] == pre.index[j]);
                        } else {
                            assert(keptv[keptv.len() - 1] == pre.index[j]);
                        }
                    }
                    assert forall|a: int, b: int| 0 <= a < b < keptv.len() implies (
                    #[trigger] keptv[a]).0 != (#[trigger] keptv[b]).0 && keptv[a].1
                        != keptv[b].1 by {
                        if b == keptv.len() - 1 {
                            let j = choose|j: int|
                                0 <= j < i && keptv0[a] == #[trigger] pre.index[j] && !stale(
                                    pre.slots[pre.index[j].1].ctx,
                                    now,
                                    pre.staleness,
                                );
                            assert(pre.index[j].0 != pre.index[i as int].0);
                            assert(pre.index[j].1 != pre.index[i as int].1);
                        }
                    }
                }
            }
            i += 1;
        }
        self.index = kept;
        proof {
            assert(self@.index =~= kept@.map_values(|p: (Key, usize)| (p.0@, p.1 as int)));
            assert forall|a: int|
                0 <= a < self@.index.len() implies kept_from(
                pre,
                (#[trigger] self@.index[a]),
                now,
                n as int,
            ) by {
                assert(self@.index[a] == (kept@[a].0@, kept@[a].1 as int));
            }
            lemma_cleanup_wrapup(pre, self@, now);
        }
        freed
    }
}

/// From the loop summary of the eviction pass, its remaining claims: the
/// surviving index is well-formed, it keeps exactly the keys that were
/// not stale, and each kept key still maps to its slot.
#[verifier::rlimit(50)]
proof fn lemma_cleanup_wrapup(pre: CacheView, post: CacheView, now: u64)
    requires
        pre.wf(),
        post.staleness == pre.staleness,
        post.slots.len() == pre.slots.len(),
        forall|a: int|
            0 <= a < post.index.len() ==> kept_from(
                pre,
                (#[trigger] post.index[a]),
                now,
                pre.index.len() as int,
            ),
        forall|j: int|
            0 <= j < pre.index.len() && !stale(
                pre.slots[(#[trigger] pre.index[j]).1].ctx,
                now,
                pre.staleness,
            ) ==> seq_has(post.index, pre.index[j]),
        entries_unique(post.index),
        forall|s: int|
            0 <= s < pre.slots.len() && (#[trigger] post.slots[s]).reclaimed
                ==> pre.slots[s].reclaimed || (pre.slots[s].holders == 0 && stale(
                pre.slots[s].ctx,
                now,
                pre.staleness,
            )),
        forall|s: int|
            0 <= s < pre.slots.len() ==> (#[trigger] post.slots[s]).holders
                == pre.slots[s].holders,
    ensures
        post.wf(),
        forall|k: Seq<char>|
            post.has_key(k) <==> (pre.has_key(k) && !stale(
                pre.slots[pre.slot_of(k)].ctx,
                now,
                pre.staleness,
            )),
        forall|k: Seq<char>| #[trigger] post.has_key(k) ==> post.slot_of(k) == pre.slot_of(k),
{
    let n = pre.index.len() as int;
    assert forall|idx: int|
        0 <= idx < post.index.len() implies 0 <= (#[trigger] post.index[idx]).1 < post.slots.len()
        && !post.slots[post.index[idx].1].reclaimed by {
        let j = choose|j: int|
            0 <= j < n && post.index[idx] == #[trigger] pre.index[j] && !stale(
                pre.slots[pre.index[j].1].ctx,
                now,
                pre.staleness,
            );
        let s = pre.index[j].1;
        assert(0 <= s < pre.slots.len());
        assert(!pre.slots[s].reclaimed);
        assert(!stale(pre.slots[s].ctx, now, pre.staleness));
    }
    assert forall|s: int|
        0 <= s < post.slots.len() && (#[trigger] post.slots[s]).reclaimed implies post.slots[
        s].holders == 0 by {
        if pre.slots[s].reclaimed {
            assert(pre.slots[s].holders == 0);
        }
    }
    assert(post.wf());
    assert forall|k: Seq<char>|
        post.has_key(k) <==> (pre.has_key(k) && !stale(
            pre.slots[pre.slot_of(k)].ctx,
            now,
            pre.staleness,
        )) by {
        if post.has_key(k) {
            let idx = post.pos_of(k);
            assert(0 <= idx < post.index.len() && post.index[idx].0 == k);
            let j = choose|j: int|
                0 <= j < n && post.index[idx] == #[trigger] pre.index[j] && !stale(
                    pre.slots[pre.index[j].1].ctx,
                    now,
                    pre.staleness,
                );
            lemma_pos_unique(pre, k, j);
        }
        if pre.has_key(k) && !stale(pre.slots[pre.slot_of(k)].ctx, now, pre.staleness) {
            let j = pre.pos_of(k);
            assert(0 <= j < n && pre.index[j].0 == k);
            assert(seq_has(post.index, pre.index[j]));
            let a = choose|a: int| 0 <= a < post.index.len() && #[trigger] post.index[a]
                == pre.index[j];
            assert(post.index[a].0 == k);
        }
    }
    assert forall|k: Seq<char>| #[trigger]
        post.has_key(k) implies post.slot_of(k) == pre.slot_of(k) by {
        let idx = post.pos_of(k);
        assert(0 <= idx < post.index.len() && post.index[idx].0 == k);
        let j = choose|j: int|
            0 <= j < n && post.index[idx] == #[trigger] pre.index[j] && !stale(
                pre.slots[pre.index[j].1].ctx,
                now,
                pre.staleness,
            );
        lemma_pos_unique(pre, k, j);
        lemma_pos_unique(post, k, idx);
    }
}

/// Deduplication: along any run of `get_context` calls for one key, with
/// no other operation in between, only the first call on a cache that
/// lacked the key spawns a task, and every call hands back the same slot.
pub proof fn lemma_get_context_dedup(
    states: Seq<CacheView>,
    slots_r: Seq<usize>,
    spawns: Seq<bool>,
    nows: Seq<u64>,
    k: Seq<char>,
)
    requires
        states.len() >= 2,
        slots_r.len() == states.len() - 1,
        spawns.len() == states.len() - 1,
        nows.len() == states.len() - 1,
        forall|i: int|
            0 <= i < states.len() - 1 ==> get_context_post(
                states[i],
                states[i + 1],
                k,
                nows[i],
                #[trigger] slots_r[i],
                spawns[i],
            ),
    ensures
        spawns[0] == !states[0].has_key(k),
        forall|i: int| 0 < i < spawns.len() ==> !(#[trigger] spawns[i]),
        forall|i: int| 0 <= i < slots_r.len() ==> #[trigger] slots_r[i] == slots_r[0],
{
    assert(get_context_post(states[0], states[1], k, nows[0], slots_r[0], spawns[0]));
    assert forall|i: int| 0 <= i < slots_r.len() implies #[trigger] slots_r[i] == slots_r[0] by {
        lemma_get_context_dedup_aux(states, slots_r, spawns, nows, k, i);
    }
    assert forall|i: int| 0 < i < spawns.len() implies !(#[trigger] spawns[i]) by {
        lemma_get_context_dedup_aux(states, slots_r, spawns, nows, k, i - 1);
        assert(get_context_post(states[i], states[i + 1], k, nows[i], slots_r[i], spawns[i]));
    }
}

/// After `i + 1` chained `get_context` calls for `k`, the key is present,
/// mapped to the slot the first call returned.
proof fn lemma_get_context_dedup_aux(
    states: Seq<CacheView>,
    slots_r: Seq<usize>,
    spawns: Seq<bool>,
    nows: Seq<u64>,
    k: Seq<char>,
    i: int,
)
    requires
        states.len() >= 2,
        slots_r.len() == states.len() - 1,
        spawns.len() == states.len() - 1,
        nows.len() == states.len() - 1,
        forall|j: int|
            0 <= j < states.len() - 1 ==> get_context_post(
                states[j],
                states[j + 1],
                k,
                nows[j],
                #[trigger] slots_r[j],
                spawns[j],
            ),
        0 <= i < slots_r.len(),
    ensures
        slots_r[i] == slots_r[0],
        states[i + 1].has_key(k),
        states[i + 1].slot_of(k) == slots_r[0] as int,
    decreases i,
{
    assert(get_context_post(states[i], states[i + 1], k, nows[i], slots_r[i], spawns[i]));
    if i > 0 {
        lemma_get_context_dedup_aux(states, slots_r, spawns, nows, k, i - 1);
    }
}

} // verus!
