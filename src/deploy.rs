use vstd::prelude::*;

use crate::conflict::{decide, decision, links, Decision, EntryKind, Policy};
use crate::error::EngineError;
use crate::layout::PlannedLink;
use crate::path::{components, same_path, PathV};

verus! {

/// What the caller is to do with the filesystem for one planned link.
pub enum Step {
    /// Create the link (and the directories above it).
    Create,
    /// Remove the destination, then create the link.
    Replace,
    /// Copy the destination's bytes onto the source, remove it, then create the link.
    Adopt,
    /// The link is already in place: touch nothing.
    InPlace,
    /// Leave this entry alone.
    Skip,
    /// Remove the links in `undo`, in the order given, and end the run with `error`.
    Abort { error: EngineError, undo: Vec<PlannedLink> },
}

/// The counts a run reports.
pub struct Report {
    pub created: usize,
    pub skipped: usize,
    pub warnings: usize,
}

/// The abstract value of a sequence of links.
pub open spec fn links_view(s: Seq<PlannedLink>) -> Seq<(PathV, PathV)> {
    s.map_values(|l: PlannedLink| l@)
}

/// One more, unless the count is already at its largest.
pub open spec fn bump(n: usize) -> usize {
    if n < usize::MAX {
        (n + 1) as usize
    } else {
        n
    }
}

fn bumped(n: usize) -> (r: usize)
    ensures
        r == bump(n),
{
    if n < usize::MAX {
        n + 1
    } else {
        n
    }
}

/// The links of `v`, last first.
fn reversed(v: &Vec<PlannedLink>) -> (r: Vec<PlannedLink>)
    ensures
        links_view(r@) == links_view(v@).reverse(),
{
    let mut r: Vec<PlannedLink> = Vec::new();
    let mut i: usize = v.len();
    while i > 0
        invariant
            i <= v.len(),
            r@.len() == v.len() - i,
            forall|j: int| 0 <= j < r@.len() ==> r@[j]@ == v@[v.len() - 1 - j]@,
        decreases i,
    {
        i = i - 1;
        r.push(v[i].clone());
    }
    assert(links_view(r@) =~= links_view(v@).reverse());
    r
}

/// What stands at a destination, once a symlink's own target is known: a
/// symlink that points at the planned source is the link itself.
pub open spec fn observed(kind: EntryKind, points_to: PathV, source: PathV) -> EntryKind {
    if kind == EntryKind::Symlink && points_to == source {
        EntryKind::Linked
    } else {
        kind
    }
}

/// Tells apart a symlink that already is `link` from any other symlink at its
/// destination. `points_to` is where the symlink found there points.
pub fn classify(link: &PlannedLink, kind: EntryKind, points_to: &Vec<String>) -> (r: EntryKind)
    ensures
        r == observed(kind, components(points_to@), link@.0),
{
    match kind {
        EntryKind::Symlink => if same_path(points_to, &link.source) {
            EntryKind::Linked
        } else {
            EntryKind::Symlink
        },
        _ => kind,
    }
}

/// The session after `step` has decided `d`: an undo empties it.
pub open spec fn step_session(session: Seq<(PathV, PathV)>, d: Decision) -> Seq<(PathV, PathV)> {
    if d == Decision::Undo {
        Seq::empty()
    } else {
        session
    }
}

/// The session after `confirm`: a real run records the link, a dry run nothing.
pub open spec fn confirm_session(
    session: Seq<(PathV, PathV)>,
    dry_run: bool,
    link: (PathV, PathV),
) -> Seq<(PathV, PathV)> {
    if dry_run {
        session
    } else {
        session.push(link)
    }
}

/// The decisions of one deployment run, and its session: the links that it
/// has made so far, oldest first.
pub struct Run {
    pub policy: Policy,
    pub dry_run: bool,
    pub session: Vec<PlannedLink>,
    pub created: usize,
    pub skipped: usize,
    pub warnings: usize,
}

impl Run {
    pub open spec fn session_view(&self) -> Seq<(PathV, PathV)> {
        links_view(self.session@)
    }

    /// A run that has done nothing yet.
    pub fn new(policy: Policy, dry_run: bool) -> (r: Run)
        ensures
            r.policy == policy,
            r.dry_run == dry_run,
            r.session@.len() == 0,
            r.created == 0,
            r.skipped == 0,
            r.warnings == 0,
    {
        Run { policy, dry_run, session: Vec::new(), created: 0, skipped: 0, warnings: 0 }
    }

    /// Decides what happens to `link`, whose destination holds `kind`. A dry run
    /// counts the links it would create here; a real one when they are confirmed.
    pub fn step(&mut self, link: &PlannedLink, kind: EntryKind) -> (r: Step)
        ensures
            final(self).policy == old(self).policy,
            final(self).dry_run == old(self).dry_run,
            final(self).warnings == old(self).warnings,
            ({
                let d = decision(old(self).policy, kind);
                &&& (d == Decision::Link <==> r is Create)
                &&& (d == Decision::Replace <==> r is Replace)
                &&& (d == Decision::Adopt <==> r is Adopt)
                &&& (d == Decision::InPlace <==> r is InPlace)
                &&& (d == Decision::Skip <==> r is Skip)
                &&& (d == Decision::Abort ==> r is Abort && r->error == EngineError::Conflict
                    && r->undo@.len() == 0)
                &&& (d == Decision::Undo ==> r is Abort && r->error == EngineError::Conflict
                    && links_view(r->undo@) == old(self).session_view().reverse())
                &&& final(self).session_view() == step_session(old(self).session_view(), d)
                &&& final(self).skipped == (if d == Decision::Skip {
                    bump(old(self).skipped)
                } else {
                    old(self).skipped
                })
                &&& final(self).created == (if links(d) && old(self).dry_run {
                    bump(old(self).created)
                } else {
                    old(self).created
                })
            }),
    {
        let d = decide(self.policy, kind);
        match d {
            Decision::Link => {
                if self.dry_run {
                    self.created = bumped(self.created);
                }
                Step::Create
            },
            Decision::Replace => {
                if self.dry_run {
                    self.created = bumped(self.created);
                }
                Step::Replace
            },
            Decision::Adopt => {
                if self.dry_run {
                    self.created = bumped(self.created);
                }
                Step::Adopt
            },
            Decision::InPlace => Step::InPlace,
            Decision::Skip => {
                self.skipped = bumped(self.skipped);
                Step::Skip
            },
            Decision::Abort => Step::Abort { error: EngineError::Conflict, undo: Vec::new() },
            Decision::Undo => {
                let undo = reversed(&self.session);
                self.session = Vec::new();
                assert(links_view(self.session@) =~= Seq::empty());
                Step::Abort { error: EngineError::Conflict, undo }
            },
        }
    }

    /// Records that `link` was made on the filesystem. A dry run makes nothing,
    /// so its session never grows.
    pub fn confirm(&mut self, link: PlannedLink)
        ensures
            final(self).policy == old(self).policy,
            final(self).dry_run == old(self).dry_run,
            final(self).skipped == old(self).skipped,
            final(self).warnings == old(self).warnings,
            old(self).dry_run ==> *final(self) == *old(self),
            final(self).session_view() == confirm_session(
                old(self).session_view(),
                old(self).dry_run,
                link@,
            ),
            !old(self).dry_run ==> final(self).created == bump(old(self).created),
    {
        if !self.dry_run {
            proof {
                assert(links_view(self.session@.push(link)) =~= links_view(self.session@).push(
                    link@,
                ));
            }
            self.session.push(link);
            self.created = bumped(self.created);
        }
    }

    /// Ends the run after a link could not be made. Under `Rollback` the links
    /// made so far are to be removed, last first; otherwise they stay.
    pub fn link_failed(&mut self) -> (r: Step)
        ensures
            final(self).policy == old(self).policy,
            final(self).dry_run == old(self).dry_run,
            final(self).created == old(self).created,
            final(self).skipped == old(self).skipped,
            final(self).warnings == old(self).warnings,
            r is Abort,
            r->error == EngineError::LinkCreation,
            old(self).policy == Policy::Rollback ==> links_view(r->undo@)
                == old(self).session_view().reverse() && final(self).session@.len() == 0,
            old(self).policy != Policy::Rollback ==> r->undo@.len() == 0
                && final(self).session_view() == old(self).session_view(),
    {
        if self.policy == Policy::Rollback {
            let undo = reversed(&self.session);
            self.session = Vec::new();
            Step::Abort { error: EngineError::LinkCreation, undo }
        } else {
            Step::Abort { error: EngineError::LinkCreation, undo: Vec::new() }
        }
    }

    /// Counts an entry that was left out because it lies outside the package.
    pub fn warn(&mut self)
        ensures
            final(self).warnings == bump(old(self).warnings),
            final(self).policy == old(self).policy,
            final(self).dry_run == old(self).dry_run,
            final(self).session_view() == old(self).session_view(),
            final(self).created == old(self).created,
            final(self).skipped == old(self).skipped,
    {
        self.warnings = bumped(self.warnings);
    }

    /// The counts so far.
    pub fn report(&self) -> (r: Report)
        ensures
            r.created == self.created,
            r.skipped == self.skipped,
            r.warnings == self.warnings,
    {
        Report { created: self.created, skipped: self.skipped, warnings: self.warnings }
    }
}

} // verus!
