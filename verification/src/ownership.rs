use vstd::prelude::*;

verus! {

/// How a wrapper relates to its native handle. An `Owned` wrapper takes
/// part in reference counting: counted clones share the handle, and the
/// last release fires the native destroy exactly once. An `Ambient` wrapper
/// never destroys: its handle belongs to the driver or another subsystem,
/// as with a retained primary context or the current context read from the
/// stack.
#[derive(Clone, Copy, Debug, PartialEq, Eq, Structural)]
pub enum Ownership {
    Owned,
    Ambient,
}

} // verus!
