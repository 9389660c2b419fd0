use vstd::prelude::*;

verus! {

/// What to do when a destination is already occupied.
#[derive(Clone, Copy, Debug, PartialEq, Eq, Structural)]
pub enum Policy {
    /// End the run at once, keeping the links made so far.
    Stop,
    /// Leave the occupied destination alone and go on.
    Ignore,
    /// Remove what is there and link in its place.
    Overwrite,
    /// Copy what is there onto the source, then link in its place.
    Adopt,
    /// Remove every link this run made, then end the run.
    Rollback,
}

/// What occupies a destination path.
#[derive(Clone, Copy, Debug, PartialEq, Eq, Structural)]
pub enum EntryKind {
    Missing,
    File,
    /// A symlink that points somewhere other than the planned source.
    Symlink,
    /// A symlink that already points at the planned source.
    Linked,
    Directory,
}

/// The outcome of checking one planned link against its destination.
#[derive(Clone, Copy, Debug, PartialEq, Eq, Structural)]
pub enum Decision {
    /// Nothing is there: make the link.
    Link,
    /// The planned link is already there: nothing to do.
    InPlace,
    /// Leave this entry out.
    Skip,
    /// Remove the destination, then make the link.
    Replace,
    /// Copy the destination's content onto the source, remove it, then link.
    Adopt,
    /// End the run, keeping what was done.
    Abort,
    /// Undo this run's links, then end the run.
    Undo,
}

/// The conflict table. A destination that already is the planned link is left
/// as it is under `Overwrite`, where replacing it would change nothing, and
/// under `Adopt`, where copying the link's content onto its own source through
/// the link would empty the source; under the other policies it is a conflict
/// like any other symlink. A directory is never replaced by a link: the run ends,
/// and under `Rollback` its links are undone first.
pub open spec fn decision(policy: Policy, kind: EntryKind) -> Decision {
    match kind {
        EntryKind::Missing => Decision::Link,
        EntryKind::Linked => match policy {
            Policy::Stop => Decision::Abort,
            Policy::Ignore => Decision::Skip,
            Policy::Overwrite => Decision::InPlace,
            Policy::Adopt => Decision::InPlace,
            Policy::Rollback => Decision::Undo,
        },
        EntryKind::Directory => if policy == Policy::Rollback {
            Decision::Undo
        } else {
            Decision::Abort
        },
        _ => match policy {
            Policy::Stop => Decision::Abort,
            Policy::Ignore => Decision::Skip,
            Policy::Overwrite => Decision::Replace,
            Policy::Adopt => Decision::Adopt,
            Policy::Rollback => Decision::Undo,
        },
    }
}

/// Decides what to do with a planned link whose destination holds `kind`.
pub fn decide(policy: Policy, kind: EntryKind) -> (r: Decision)
    ensures
        r == decision(policy, kind),
{
    match kind {
        EntryKind::Missing => Decision::Link,
        EntryKind::Linked => match policy {
            Policy::Stop => Decision::Abort,
            Policy::Ignore => Decision::Skip,
            Policy::Overwrite | Policy::Adopt => Decision::InPlace,
            Policy::Rollback => Decision::Undo,
        },
        EntryKind::Directory => match policy {
            Policy::Rollback => Decision::Undo,
            _ => Decision::Abort,
        },
        EntryKind::File | EntryKind::Symlink => match policy {
            Policy::Stop => Decision::Abort,
            Policy::Ignore => Decision::Skip,
            Policy::Overwrite => Decision::Replace,
            Policy::Adopt => Decision::Adopt,
            Policy::Rollback => Decision::Undo,
        },
    }
}

/// Whether a decision ends in a new link at the destination.
pub open spec fn links(d: Decision) -> bool {
    d == Decision::Link || d == Decision::Replace || d == Decision::Adopt
}

} // verus!
