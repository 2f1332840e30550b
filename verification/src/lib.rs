//! Aggregates transient notification messages into bounded, ordered per-group
//! views, and gates re-render work behind a dirty flag.
//!
//! The core pieces are the bounded, replace-by-key [`cache::EvictionCache`],
//! the [`util::DirtyCheckLock`] dirty-tracking wrapper, the ordered
//! [`group_list::GroupList`] registry, the batched mutation pipeline in
//! [`pipeline`], and the deterministic tag width packer in [`tag_view`].

pub mod cache;
pub mod group_list;
pub mod group_view;
pub mod message;
pub mod message_group;
pub mod model;
pub mod net;
pub mod opt;
pub mod pipeline;
pub mod server;
pub mod strings;
pub mod tag_view;
pub mod util;
pub mod view;

use vstd::prelude::*;

verus! {

/// Hard ceiling on every message cache capacity, so that a misbehaving source
/// cannot request unbounded memory.
pub const CAPACITY_HARD_MAX: usize = 400;

/// A requested capacity clamped to the hard system maximum.
pub open spec fn clamped(requested: int) -> int {
    if requested > 400 {
        400
    } else {
        requested
    }
}

/// Clamp a requested cache capacity to the hard system maximum.
pub fn clamp_capacity(requested: usize) -> (r: usize)
    ensures
        r == clamped(requested as int),
        r <= 400,
{
    if requested > CAPACITY_HARD_MAX {
        CAPACITY_HARD_MAX
    } else {
        requested
    }
}

} // verus!
