//! The shared load-state record: the tri-state lifecycle of one image load
//! plus the last-access time used by the eviction pass.

use vstd::prelude::*;

verus! {

/// Mathematical view of a lifecycle tag: the texture handle as a plain
/// integer, the error message as a sequence of characters.
pub enum StatusView {
    Loading,
    Loaded(u64),
    Error(Seq<char>),
}

/// The lifecycle tag of one image load: still in flight, finished with a
/// GPU texture handle, or permanently failed with a message.
pub enum LoadingStatus {
    Loading,
    Loaded(u64),
    Error(String),
}

impl View for LoadingStatus {
    type V = StatusView;

    open spec fn view(&self) -> StatusView {
        match self {
            LoadingStatus::Loading => StatusView::Loading,
            LoadingStatus::Loaded(id) => StatusView::Loaded(*id),
            LoadingStatus::Error(m) => StatusView::Error(m@),
        }
    }
}

/// A tag is terminal once it is `Loaded` or `Error`.
pub open spec fn is_terminal(s: StatusView) -> bool {
    !(s is Loading)
}

/// The lifecycle moves monotonically: from `Loading` a step may go
/// anywhere, from a terminal tag it goes nowhere.
pub open spec fn lifecycle_step(pre: StatusView, post: StatusView) -> bool {
    pre is Loading || post == pre
}

impl LoadingStatus {
    /// The error message, if the load has failed.
    pub fn as_error(&self) -> (r: Option<String>)
        ensures
            r is Some <==> self@ is Error,
            self@ is Error ==> r->Some_0@ == self@->Error_0,
    {
        match self {
            LoadingStatus::Error(s) => Some(s.clone()),
            _ => None,
        }
    }

    /// The texture handle, if the load has finished.
    pub fn as_texture(&self) -> (r: Option<u64>)
        ensures
            r == (match self@ {
                StatusView::Loaded(id) => Some(id),
                _ => None::<u64>,
            }),
    {
        match self {
            LoadingStatus::Loaded(id) => Some(*id),
            _ => None,
        }
    }
}

/// Mathematical view of a load-state record.
pub struct ContextView {
    pub status: StatusView,
    pub last_access: u64,
}

/// The lock-protected record behind one cache entry: the lifecycle tag and
/// the last-access time. All reads and writes go through the owner's
/// exclusive access, so every transition is serialized.
pub struct LoadContext {
    status: LoadingStatus,
    last_access: u64,
}

impl View for LoadContext {
    type V = ContextView;

    closed spec fn view(&self) -> ContextView {
        ContextView { status: self.status@, last_access: self.last_access }
    }
}

impl LoadContext {
    /// A fresh record for a load that has just been started.
    pub fn new(now: u64) -> (r: Self)
        ensures
            r@ == (ContextView { status: StatusView::Loading, last_access: now }),
    {
        LoadContext { status: LoadingStatus::Loading, last_access: now }
    }

    /// Stamp the record with the current clock reading.
    pub fn accessed(&mut self, now: u64)
        ensures
            final(self)@.status == old(self)@.status,
            final(self)@.last_access == now,
    {
        self.last_access = now;
    }

    /// Record a permanent failure. The transition happens only out of
    /// `Loading`: a terminal tag is never overwritten.
    pub fn set_error(&mut self, e: String, now: u64)
        ensures
            final(self)@.last_access == now,
            lifecycle_step(old(self)@.status, final(self)@.status),
            old(self)@.status is Loading ==> final(self)@.status == StatusView::Error(e@),
            is_terminal(old(self)@.status) ==> final(self)@.status == old(self)@.status,
    {
        self.last_access = now;
        if let LoadingStatus::Loading = self.status {
            self.status = LoadingStatus::Error(e);
        }
    }

    /// Record the texture handle of a finished load. The transition happens
    /// only out of `Loading`: a terminal tag is never overwritten.
    pub fn set_texture_id(&mut self, id: u64, now: u64)
        ensures
            final(self)@.last_access == now,
            lifecycle_step(old(self)@.status, final(self)@.status),
            old(self)@.status is Loading ==> final(self)@.status == StatusView::Loaded(id),
            is_terminal(old(self)@.status) ==> final(self)@.status == old(self)@.status,
    {
        self.last_access = now;
        if let LoadingStatus::Loading = self.status {
            self.status = LoadingStatus::Loaded(id);
        }
    }

    /// Non-blocking snapshot read of the texture handle; refreshes the
    /// access time and leaves the lifecycle tag alone.
    pub fn get_texture_id(&mut self, now: u64) -> (r: Option<u64>)
        ensures
            final(self)@.status == old(self)@.status,
            final(self)@.last_access == now,
            r == (match old(self)@.status {
                StatusView::Loaded(id) => Some(id),
                _ => None::<u64>,
            }),
    {
        self.accessed(now);
        self.status.as_texture()
    }

    /// Non-blocking snapshot read of the error message; refreshes the
    /// access time and leaves the lifecycle tag alone.
    pub fn get_error(&mut self, now: u64) -> (r: Option<String>)
        ensures
            final(self)@.status == old(self)@.status,
            final(self)@.last_access == now,
            r is Some <==> old(self)@.status is Error,
            old(self)@.status is Error ==> r->Some_0@ == old(self)@.status->Error_0,
    {
        self.accessed(now);
        self.status.as_error()
    }

    /// The recorded last-access time.
    pub fn last_access(&self) -> (r: u64)
        ensures
            r == self@.last_access,
    {
        self.last_access
    }

    /// The current lifecycle tag, read without refreshing the access time.
    pub fn status(&self) -> (r: &LoadingStatus)
        ensures
            r@ == self@.status,
    {
        &self.status
    }
}

/// Monotonic lifecycle: along any chain of lifecycle steps, once a tag is
/// terminal (`Loaded` or `Error`), every later observation is that same tag.
pub proof fn lemma_lifecycle_monotonic(tags: Seq<StatusView>, i: int, j: int)
    requires
        forall|k: int| 0 <= k < tags.len() - 1 ==> lifecycle_step(#[trigger] tags[k], tags[k + 1]),
        0 <= i <= j < tags.len(),
        is_terminal(tags[i]),
    ensures
        tags[j] == tags[i],
    decreases j - i,
{
    if i < j {
        assert(lifecycle_step(tags[i], tags[i + 1]));
        lemma_lifecycle_monotonic(tags, i + 1, j);
    }
}

/// Access refresh: a snapshot read stamps the record with the clock reading
/// taken at the call, so under a clock that does not run backwards the
/// recorded access time never decreases.
pub proof fn lemma_access_refresh(pre: ContextView, post: ContextView, now: u64)
    requires
        post.last_access == now,
        pre.last_access <= now,
    ensures
        post.last_access >= pre.last_access,
{
}

} // verus!
