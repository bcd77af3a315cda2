use vstd::prelude::*;

verus! {

/// The direction of a port forward: a local listener reaching a remote target, or a listener on
/// the server reaching a local target.
#[derive(Debug, Clone, Copy, PartialEq, Eq, Structural)]
pub enum ForwardType {
    Local,
    Remote,
}

} // verus!
