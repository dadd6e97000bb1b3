//! Collaborator interfaces required from the environment: the background
//! task spawner and the message type carried from background tasks back to
//! the render loop.

use vstd::prelude::*;
use crate::cache::Key;
use crate::pipeline::ToUIImage;

verus! {

/// A spawner able to launch one fetch-and-decode job per cache miss. It is
/// handed the key and the slot of the freshly created load state so the
/// task can report its outcome directly.
pub trait Background {
    fn start_loading_image(&self, key: Key, slot: usize);
}

/// A message delivered to the render loop: either a plain repaint request
/// or a decoded image ready for the GPU upload.
pub trait RepaintSignalMessage: Send + Sync + Sized + 'static {
    fn repaint_signal() -> Self;

    fn is_repaint_signal(&self) -> bool;

    fn is_image_loaded_response(&self) -> Option<ToUIImage>;
}

} // verus!
