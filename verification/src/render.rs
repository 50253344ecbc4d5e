//! What a render pass is told about its colour attachments: how each is
//! loaded when the pass begins, how it is stored when the pass ends, and the
//! layout of its pixels.

use vstd::prelude::*;

verus! {

/// What happens to an attachment's contents when a render pass begins.
#[derive(Clone, Copy, Debug, PartialEq, Eq, Hash)]
pub enum MTLLoadAction {
    /// The contents may be anything.
    DontCare,
    /// The contents are kept.
    Load,
    /// The contents are set to the clear colour.
    Clear,
}

/// What happens to an attachment's contents when a render pass ends.
#[derive(Clone, Copy, Debug, PartialEq, Eq, Hash)]
pub enum MTLStoreAction {
    DontCare,
    Store,
    MultisampleResolve,
    StoreAndMultisampleResolve,
    Unknown,
    CustomSampleDepthStore,
}

/// The layout of the pixels of a drawable or a texture.
#[derive(Clone, Copy, Debug, PartialEq, Eq, Hash)]
pub enum MTLPixelFormat {
    /// Four 8-bit channels, blue first, each a fraction of 255.
    Bgra8Unorm,
}

} // verus!
