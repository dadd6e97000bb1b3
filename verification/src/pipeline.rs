//! Load-outcome reporting: the decision core of one background
//! fetch-and-decode task, and the final hand-off of a decoded image to the
//! GPU upload on the render loop.

use vstd::prelude::*;
use vstd::string::StringExecFns;
use crate::cache::{CacheView, Key, LoadCache, SlotView};
use crate::decode::{decode, spec_decode, ImageFormat, PixelBuffer, PixelsView};
use crate::state::{ContextView, StatusView};

verus! {

/// A fetch failure, carrying a human-readable cause: either the transport
/// never reached the remote source, or the connection succeeded and the
/// body could not be fully received. A single attempt is made; both are
/// terminal for the load.
#[derive(Debug)]
pub enum FetchError {
    ConnectionFailed(String),
    TransferFailed(String),
}

/// The message recorded in the load state for a fetch failure.
pub open spec fn spec_fetch_error_message(e: FetchError) -> Seq<char> {
    match e {
        FetchError::ConnectionFailed(c) => "Could not connect to server: "@ + c@,
        FetchError::TransferFailed(c) => "Could not download image: "@ + c@,
    }
}

/// The message recorded in the load state for a decode failure with this
/// stringified cause.
pub open spec fn spec_decode_error_message(cause: Seq<char>) -> Seq<char> {
    "Could not decode image: "@ + cause
}

/// The human-readable message recorded for a fetch failure.
pub fn fetch_error_message(e: &FetchError) -> (r: String)
    ensures
        r@ == spec_fetch_error_message(*e),
{
    match e {
        FetchError::ConnectionFailed(c) => {
            let mut m = String::from_str("Could not connect to server: ");
            m.append(c.as_str());
            m
        },
        FetchError::TransferFailed(c) => {
            let mut m = String::from_str("Could not download image: ");
            m.append(c.as_str());
            m
        },
    }
}

/// The human-readable message recorded for a decode failure.
pub fn decode_error_message(cause: &String) -> (r: String)
    ensures
        r@ == spec_decode_error_message(cause@),
{
    let mut m = String::from_str("Could not decode image: ");
    m.append(cause.as_str());
    m
}

/// Mathematical view of a ready image.
pub struct ToUIImageView {
    pub key: Seq<char>,
    pub slot: int,
    pub image: PixelsView,
}

/// The terminal success artifact: a decoded image bundled with its key and
/// the slot of its load state, ready to be handed to the GPU texture
/// allocator by the render loop. Produced once decoding succeeds and
/// consumed exactly once by `finish_load`; it keeps the task's hold on the
/// slot alive until then.
pub struct ToUIImage {
    key: Key,
    slot: usize,
    image: PixelBuffer,
}

impl View for ToUIImage {
    type V = ToUIImageView;

    closed spec fn view(&self) -> ToUIImageView {
        ToUIImageView { key: self.key@, slot: self.slot as int, image: self.image@ }
    }
}

impl ToUIImage {
    /// The key this image was loaded for.
    pub fn key(&self) -> (r: &Key)
        ensures
            r@ == self@.key,
    {
        &self.key
    }

    /// The slot of the load state this image reports to.
    pub fn slot(&self) -> (r: usize)
        ensures
            r as int == self@.slot,
    {
        self.slot
    }

    /// The decoded pixel buffer to hand to the texture allocator.
    pub fn image(&self) -> (r: &PixelBuffer)
        ensures
            r@ == self@.image,
    {
        &self.image
    }

    /// Invoked on the render loop once the external texture allocator has
    /// uploaded the pixel buffer and returned `texture_id`: records
    /// `Loaded` in the slot (only out of `Loading`: a terminal tag is
    /// never overwritten) and gives up the task's hold on it.
    pub fn finish_load(self, cache: &mut LoadCache, texture_id: u64, now: u64)
        requires
            old(cache)@.wf(),
            self@.slot < old(cache)@.slots.len(),
            old(cache)@.slots[self@.slot].holders > 0,
        ensures
            final(cache)@.wf(),
            final(cache)@.index == old(cache)@.index,
            final(cache)@.staleness == old(cache)@.staleness,
            final(cache)@.slots == old(cache)@.slots.update(
                self@.slot,
                (SlotView {
                    ctx: (ContextView {
                        status: if old(cache)@.slots[self@.slot].ctx.status is Loading {
                            StatusView::Loaded(texture_id)
                        } else {
                            old(cache)@.slots[self@.slot].ctx.status
                        },
                        last_access: now,
                    }),
                    holders: (old(cache)@.slots[self@.slot].holders - 1) as u64,
                    reclaimed: old(cache)@.slots[self@.slot].reclaimed,
                }),
            ),
    {
        let ghost pre = cache@;
        cache.set_texture_at(self.slot, texture_id, now);
        cache.release(self.slot);
        proof {
            assert(final(cache)@.slots =~= pre.slots.update(
                self@.slot,
                (SlotView {
                    ctx: (ContextView {
                        status: if pre.slots[self@.slot].ctx.status is Loading {
                            StatusView::Loaded(texture_id)
                        } else {
                            pre.slots[self@.slot].ctx.status
                        },
                        last_access: now,
                    }),
                    holders: (pre.slots[self@.slot].holders - 1) as u64,
                    reclaimed: pre.slots[self@.slot].reclaimed,
                }),
            ));
        }
    }
}

/// The slot's record after a failure was reported and the task's hold
/// released: the message if the tag was still `Loading` (a terminal tag
/// is never overwritten), the access time refreshed, one holder fewer,
/// everything else unchanged.
pub open spec fn slot_errored(
    pre: CacheView,
    post: CacheView,
    slot: int,
    msg: Seq<char>,
    now: u64,
) -> bool {
    &&& post.index == pre.index
    &&& post.staleness == pre.staleness
    &&& post.slots == pre.slots.update(
        slot,
        (SlotView {
            ctx: (ContextView {
                status: if pre.slots[slot].ctx.status is Loading {
                    StatusView::Error(msg)
                } else {
                    pre.slots[slot].ctx.status
                },
                last_access: now,
            }),
            holders: (pre.slots[slot].holders - 1) as u64,
            reclaimed: pre.slots[slot].reclaimed,
        }),
    )
}

/// The decision core of one background load task for `key`, entered once
/// the fetch has completed with `fetched`. A fetch failure is recorded as
/// a terminal `Error` in the slot and the task's hold is released. On
/// fetched bytes the decode pipeline runs, constrained by the optional
/// format hint: a decode failure is recorded and released the same way,
/// while a decoded image is bundled with the key and slot into a
/// `ToUIImage` for the render loop, the slot still held (and still
/// `Loading`) until `finish_load` runs after the GPU upload.
pub fn load_image_async(
    cache: &mut LoadCache,
    key: Key,
    slot: usize,
    fetched: Result<(Vec<u8>, Option<ImageFormat>), FetchError>,
    now: u64,
) -> (r: Option<ToUIImage>)
    requires
        old(cache)@.wf(),
        slot < old(cache)@.slots.len(),
        old(cache)@.slots[slot as int].holders > 0,
    ensures
        final(cache)@.wf(),
        match fetched {
            Err(e) => {
                &&& r is None
                &&& slot_errored(
                    old(cache)@,
                    final(cache)@,
                    slot as int,
                    spec_fetch_error_message(e),
                    now,
                )
            },
            Ok(payload) => match spec_decode(payload.0@, payload.1) {
                Err(cause) => {
                    &&& r is None
                    &&& slot_errored(
                        old(cache)@,
                        final(cache)@,
                        slot as int,
                        spec_decode_error_message(cause),
                        now,
                    )
                },
                Ok(px) => {
                    &&& r is Some
                    &&& r->Some_0@ == (ToUIImageView {
                        key: key@,
                        slot: slot as int,
                        image: px,
                    })
                    &&& final(cache)@ == old(cache)@
                },
            },
        },
{
    match fetched {
        Err(e) => {
            let msg = fetch_error_message(&e);
            cache.set_error_at(slot, msg, now);
            cache.release(slot);
            proof {
                lemma_error_then_release(old(cache)@, cache@, slot as int, spec_fetch_error_message(e), now);
            }
            None
        },
        Ok((bytes, format)) => {
            match decode(&bytes, format) {
                Ok(image) => Some(ToUIImage { key, slot, image }),
                Err(err) => {
                    let msg = decode_error_message(err.cause());
                    cache.set_error_at(slot, msg, now);
                    cache.release(slot);
                    proof {
                        lemma_error_then_release(
                            old(cache)@,
                            cache@,
                            slot as int,
                            spec_decode_error_message(err@),
                            now,
                        );
                    }
                    None
                },
            }
        },
    }
}

/// Composing the error write with the release of the task's hold yields
/// the `slot_errored` relation in one step.
proof fn lemma_error_then_release(pre: CacheView, post: CacheView, slot: int, msg: Seq<char>, now: u64)
    requires
        0 <= slot < pre.slots.len(),
        post.index == pre.index,
        post.staleness == pre.staleness,
        post.slots == pre.slots.update(
            slot,
            (SlotView {
                ctx: (ContextView {
                    status: if pre.slots[slot].ctx.status is Loading {
                        StatusView::Error(msg)
                    } else {
                        pre.slots[slot].ctx.status
                    },
                    last_access: now,
                }),
                holders: pre.slots[slot].holders,
                reclaimed: pre.slots[slot].reclaimed,
            }),
        ).update(
            slot,
            (SlotView {
                ctx: (ContextView {
                    status: if pre.slots[slot].ctx.status is Loading {
                        StatusView::Error(msg)
                    } else {
                        pre.slots[slot].ctx.status
                    },
                    last_access: now,
                }),
                holders: (pre.slots[slot].holders - 1) as u64,
                reclaimed: pre.slots[slot].reclaimed,
            }),
        ),
    ensures
        slot_errored(pre, post, slot, msg, now),
{
    assert(post.slots =~= pre.slots.update(
        slot,
        (SlotView {
            ctx: (ContextView {
                status: if pre.slots[slot].ctx.status is Loading {
                    StatusView::Error(msg)
                } else {
                    pre.slots[slot].ctx.status
                },
                last_access: now,
            }),
            holders: (pre.slots[slot].holders - 1) as u64,
            reclaimed: pre.slots[slot].reclaimed,
        }),
    ));
}

} // verus!
