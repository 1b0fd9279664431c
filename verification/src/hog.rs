//! Exclusive access to a device: what to do, given whether it is wanted and
//! which process holds it.

use vstd::prelude::*;

verus! {

pub type Pid = i32;

#[derive(Debug, Clone, Copy, PartialEq, Eq, Structural)]
pub enum HogDecision {
    /// Free: try to acquire it.
    Acquire,
    /// Wanted and already held by this process.
    AlreadyOurs,
    /// Wanted but held by another process: run in shared mode.
    HeldByAnother(Pid),
    /// Held by this process and no longer wanted.
    Release,
    NoActionNeeded,
}

pub fn decide(requested: bool, current_owner: Option<Pid>, our_pid: Pid) -> (r: HogDecision)
    ensures
        r == HogDecision::Acquire <==> requested && current_owner is None,
        r == HogDecision::AlreadyOurs <==> requested && current_owner == Some(our_pid),
        r == HogDecision::Release <==> !requested && current_owner == Some(our_pid),
        r == HogDecision::NoActionNeeded <==> !requested && current_owner != Some(our_pid),
        forall|pid: Pid|
            r == HogDecision::HeldByAnother(pid) <==> requested && current_owner == Some(pid) && pid
                != our_pid,
{
    match current_owner {
        None => if requested {
            HogDecision::Acquire
        } else {
            HogDecision::NoActionNeeded
        },
        Some(pid) => if pid == our_pid {
            if requested {
                HogDecision::AlreadyOurs
            } else {
                HogDecision::Release
            }
        } else if requested {
            HogDecision::HeldByAnother(pid)
        } else {
            HogDecision::NoActionNeeded
        },
    }
}

} // verus!
