//! Per-call serialization state: an options bitset plus the recursion depth
//! of the current path.

use vstd::prelude::*;

verus! {

/// The state a serializer carries through one recursive walk.
///
/// `opts` is an opaque bitset of caller options, passed through unchanged at
/// every level. `depth` is the nesting level of the container currently
/// being serialized on the path from the root; it grows by exactly one per
/// recursive descent and is value-copied, so sibling branches do not affect
/// each other. `limit` is the configured maximum depth: a container at a
/// level beyond `limit` is rejected.
#[derive(Clone, Copy, Debug)]
pub struct SerializerState {
    pub opts: u64,
    pub depth: u32,
    pub limit: u32,
}

impl SerializerState {
    /// The state a driver starts a root call with: depth zero.
    pub fn new(opts: u64, limit: u32) -> (s: Self)
        ensures
            s.opts == opts,
            s.depth == 0,
            s.limit == limit,
    {
        SerializerState { opts, depth: 0, limit }
    }

    /// The state for one more level of nesting: the same options and limit,
    /// with the depth one greater.
    pub fn copy_for_recursive_call(&self) -> (s: Self)
        requires
            self.depth < u32::MAX,
        ensures
            s.opts == self.opts,
            s.depth == self.depth + 1,
            s.limit == self.limit,
    {
        SerializerState { opts: self.opts, depth: self.depth + 1, limit: self.limit }
    }

    /// Whether the current depth is past the configured maximum.
    pub fn recursion_limit(&self) -> (r: bool)
        ensures
            r == (self.depth > self.limit),
    {
        self.depth > self.limit
    }
}

} // verus!
