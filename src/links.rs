//! Following the symbolic links behind enabled services.
use vstd::prelude::*;

use crate::discovery::FileKind;

verus! {

/// The number of links a chase follows before it takes the link for a cycle.
pub const MAX_LINK_HOPS: u32 = 40;

/// What to do after looking at the entry that a link names.
#[derive(Clone, Copy, Debug, PartialEq, Eq, Structural)]
pub enum ChaseStep {
    /// The entry is itself a link: read it and look again.
    Follow,
    /// The chain ends at a regular file.
    Valid,
    /// The chain ends at nothing, or does not end.
    Broken,
    /// The chain ends at an entry that is neither a file nor a link.
    UnexpectedType,
}

/// Where a chase stands: how many links it has followed.
pub struct LinkChase {
    hops: u32,
}

/// The step after seeing `target` (`None`: nothing there) when `hops` links
/// have been followed.
pub open spec fn chase_step(hops: nat, target: Option<FileKind>) -> ChaseStep {
    match target {
        None => ChaseStep::Broken,
        Some(FileKind::Regular) => ChaseStep::Valid,
        Some(FileKind::Symlink) => if hops < MAX_LINK_HOPS {
            ChaseStep::Follow
        } else {
            ChaseStep::Broken
        },
        Some(_) => ChaseStep::UnexpectedType,
    }
}

impl LinkChase {
    /// The number of links followed so far.
    pub closed spec fn hops_taken(&self) -> nat {
        self.hops as nat
    }

    /// A chase that starts at a link.
    pub fn new() -> (r: LinkChase)
        ensures
            r.hops_taken() == 0,
    {
        LinkChase { hops: 0 }
    }

    /// Takes in what the current link names, and says how to go on. A chase
    /// follows at most `MAX_LINK_HOPS` links, so it ends.
    pub fn observe(&mut self, target: Option<FileKind>) -> (r: ChaseStep)
        requires
            old(self).hops_taken() <= MAX_LINK_HOPS,
        ensures
            r == chase_step(old(self).hops_taken(), target),
            r == ChaseStep::Follow ==> final(self).hops_taken() == old(self).hops_taken() + 1,
            r != ChaseStep::Follow ==> final(self).hops_taken() == old(self).hops_taken(),
            final(self).hops_taken() <= MAX_LINK_HOPS,
    {
        match target {
            None => ChaseStep::Broken,
            Some(FileKind::Regular) => ChaseStep::Valid,
            Some(FileKind::Symlink) => {
                if self.hops < MAX_LINK_HOPS {
                    self.hops = self.hops + 1;
                    ChaseStep::Follow
                } else {
                    ChaseStep::Broken
                }
            },
            Some(_) => ChaseStep::UnexpectedType,
        }
    }
}

} // verus!
