use vstd::prelude::*;

use crate::conflict::{decision, links, Decision, EntryKind, Policy};
use crate::deploy::{confirm_session, observed, step_session};
use crate::path::PathV;

verus! {

/// What the target tree holds at a path.
pub enum Node {
    File,
    Directory,
    Link(PathV),
}

/// The target tree, as a map from paths to what stands there.
pub type Tree = Map<PathV, Node>;

/// The type of the entry at `p`.
pub open spec fn raw_kind(tree: Tree, p: PathV) -> EntryKind {
    if !tree.contains_key(p) {
        EntryKind::Missing
    } else {
        match tree[p] {
            Node::File => EntryKind::File,
            Node::Directory => EntryKind::Directory,
            Node::Link(_) => EntryKind::Symlink,
        }
    }
}

/// Where the symlink at `p` points; empty for anything else.
pub open spec fn points_to(tree: Tree, p: PathV) -> PathV {
    if tree.contains_key(p) && tree[p] is Link {
        tree[p]->Link_0
    } else {
        Seq::empty()
    }
}

/// What the run sees at the destination of `link`, as `classify` tells it.
pub open spec fn kind_of(tree: Tree, link: (PathV, PathV)) -> EntryKind {
    observed(raw_kind(tree, link.1), points_to(tree, link.1), link.0)
}

/// The tree after the links of `session` are removed, last first.
pub open spec fn undo(tree: Tree, session: Seq<(PathV, PathV)>) -> Tree
    decreases session.len(),
{
    if session.len() == 0 {
        tree
    } else {
        undo(tree.remove(session.last().1), session.drop_last())
    }
}

/// The session after a link decided as `d` has been carried out: a link that
/// was made on the filesystem is appended, an undo empties it.
pub open spec fn session_after(
    session: Seq<(PathV, PathV)>,
    dry_run: bool,
    d: Decision,
    link: (PathV, PathV),
) -> Seq<(PathV, PathV)> {
    if d == Decision::Undo {
        Seq::empty()
    } else if links(d) && !dry_run {
        session.push(link)
    } else {
        session
    }
}

/// A run over the planned links `plan`, each decided by the conflict table and
/// carried out on `tree` (nothing is carried out in a dry run). Gives the tree,
/// the session and whether the run was aborted.
pub open spec fn drive(
    tree: Tree,
    policy: Policy,
    dry_run: bool,
    session: Seq<(PathV, PathV)>,
    plan: Seq<(PathV, PathV)>,
) -> (Tree, Seq<(PathV, PathV)>, bool)
    decreases plan.len(),
{
    if plan.len() == 0 {
        (tree, session, false)
    } else {
        let l = plan[0];
        let d = decision(policy, kind_of(tree, l));
        if d == Decision::Abort {
            (tree, session, true)
        } else if d == Decision::Undo {
            (if dry_run { tree } else { undo(tree, session) }, Seq::empty(), true)
        } else {
            let next = if links(d) && !dry_run {
                tree.insert(l.1, Node::Link(l.0))
            } else {
                tree
            };
            drive(next, policy, dry_run, session_after(session, dry_run, d, l), plan.drop_first())
        }
    }
}

/// No two planned links share a destination, as in any plan made from one walk.
pub open spec fn distinct_destinations(plan: Seq<(PathV, PathV)>) -> bool {
    forall|i: int, j: int| 0 <= i < j < plan.len() ==> plan[i].1 != plan[j].1
}

/// Whether some planned link goes to `p`.
pub open spec fn targets(plan: Seq<(PathV, PathV)>, p: PathV) -> bool {
    exists|i: int| 0 <= i < plan.len() && plan[i].1 == p
}

/// A dry run leaves the target tree as it found it, whatever the policy, and
/// its session never records a link.
pub proof fn lemma_dry_run_changes_nothing(
    tree: Tree,
    policy: Policy,
    session: Seq<(PathV, PathV)>,
    plan: Seq<(PathV, PathV)>,
)
    ensures
        drive(tree, policy, true, session, plan).0 == tree,
        session.len() == 0 ==> drive(tree, policy, true, session, plan).1.len() == 0,
    decreases plan.len(),
{
    if plan.len() > 0 {
        let d = decision(policy, kind_of(tree, plan[0]));
        lemma_dry_run_changes_nothing(
            tree,
            policy,
            session_after(session, true, d, plan[0]),
            plan.drop_first(),
        );
    }
}

proof fn lemma_overwrite_keeps_others(
    tree: Tree,
    session: Seq<(PathV, PathV)>,
    plan: Seq<(PathV, PathV)>,
    p: PathV,
)
    requires
        !targets(plan, p),
    ensures
        ({
            let after = drive(tree, Policy::Overwrite, false, session, plan).0;
            &&& after.contains_key(p) == tree.contains_key(p)
            &&& tree.contains_key(p) ==> after[p] == tree[p]
        }),
    decreases plan.len(),
{
    if plan.len() > 0 {
        let l = plan[0];
        let d = decision(Policy::Overwrite, kind_of(tree, l));
        assert(plan[0].1 != p);
        let rest = plan.drop_first();
        assert(!targets(rest, p)) by {
            if targets(rest, p) {
                let i = choose|i: int| 0 <= i < rest.len() && rest[i].1 == p;
                assert(plan[i + 1].1 == p);
            }
        }
        if d != Decision::Abort {
            let next = if links(d) {
                tree.insert(l.1, Node::Link(l.0))
            } else {
                tree
            };
            lemma_overwrite_keeps_others(next, session_after(session, false, d, l), rest, p);
        }
    }
}

/// Every link of `plan` already stands in `tree`: a run over it decides
/// `InPlace` for each.
pub open spec fn all_in_place(tree: Tree, policy: Policy, plan: Seq<(PathV, PathV)>) -> bool {
    forall|i: int|
        0 <= i < plan.len() ==> decision(policy, #[trigger] kind_of(tree, plan[i]))
            == Decision::InPlace
}

/// A run in which every link is already in place touches nothing, records
/// nothing and ends without an abort.
pub proof fn lemma_in_place_run_is_idle(
    tree: Tree,
    policy: Policy,
    dry_run: bool,
    session: Seq<(PathV, PathV)>,
    plan: Seq<(PathV, PathV)>,
)
    requires
        all_in_place(tree, policy, plan),
    ensures
        drive(tree, policy, dry_run, session, plan) == (tree, session, false),
    decreases plan.len(),
{
    if plan.len() > 0 {
        let rest = plan.drop_first();
        assert(decision(policy, kind_of(tree, plan[0])) == Decision::InPlace);
        assert(all_in_place(tree, policy, rest)) by {
            assert forall|i: int| 0 <= i < rest.len() implies decision(
                policy,
                #[trigger] kind_of(tree, rest[i]),
            ) == Decision::InPlace by {
                assert(rest[i] == plan[i + 1]);
            }
        }
        lemma_in_place_run_is_idle(tree, policy, dry_run, session, rest);
    }
}

/// Running twice under `Overwrite` ends where running once did. Where the
/// first run went through, every link of the second is already in place, so
/// the second run removes, makes and records nothing.
pub proof fn lemma_overwrite_idempotent(
    tree: Tree,
    session: Seq<(PathV, PathV)>,
    again: Seq<(PathV, PathV)>,
    plan: Seq<(PathV, PathV)>,
)
    requires
        distinct_destinations(plan),
    ensures
        ({
            let first = drive(tree, Policy::Overwrite, false, session, plan);
            &&& drive(first.0, Policy::Overwrite, false, again, plan).0 == first.0
            &&& !first.2 ==> all_in_place(first.0, Policy::Overwrite, plan)
            &&& !first.2 ==> drive(first.0, Policy::Overwrite, false, again, plan) == (
                first.0,
                again,
                false,
            )
        }),
    decreases plan.len(),
{
    if plan.len() > 0 {
        let l = plan[0];
        let rest = plan.drop_first();
        let d = decision(Policy::Overwrite, kind_of(tree, l));
        if d != Decision::Abort {
            let next = tree.insert(l.1, Node::Link(l.0));
            if !links(d) {
                assert(tree =~= next);
            }
            let s1 = session_after(session, false, d, l);
            let once = drive(next, Policy::Overwrite, false, s1, rest).0;
            assert(!targets(rest, l.1)) by {
                if targets(rest, l.1) {
                    let i = choose|i: int| 0 <= i < rest.len() && rest[i].1 == l.1;
                    assert(plan[0].1 == plan[i + 1].1);
                }
            }
            lemma_overwrite_keeps_others(next, s1, rest, l.1);
            assert(kind_of(once, l) == EntryKind::Linked);
            assert(distinct_destinations(rest)) by {
                assert forall|i: int, j: int| 0 <= i < j < rest.len() implies rest[i].1
                    != rest[j].1 by {
                    assert(plan[i + 1].1 != plan[j + 1].1);
                }
            }
            lemma_overwrite_idempotent(next, s1, again, rest);
            if !drive(next, Policy::Overwrite, false, s1, rest).2 {
                assert forall|i: int| 0 <= i < plan.len() implies decision(
                    Policy::Overwrite,
                    #[trigger] kind_of(once, plan[i]),
                ) == Decision::InPlace by {
                    if i > 0 {
                        assert(plan[i] == rest[i - 1]);
                    }
                }
            }
        }
    }
}

/// `tree` with the links of `session` added, oldest first.
pub open spec fn placed(tree: Tree, session: Seq<(PathV, PathV)>) -> Tree
    decreases session.len(),
{
    if session.len() == 0 {
        tree
    } else {
        placed(tree, session.drop_last()).insert(
            session.last().1,
            Node::Link(session.last().0),
        )
    }
}

/// Each link of `session` went where nothing stood before, and no two went to one place.
pub open spec fn fresh(tree: Tree, session: Seq<(PathV, PathV)>) -> bool {
    &&& forall|i: int| 0 <= i < session.len() ==> !tree.contains_key(#[trigger] session[i].1)
    &&& distinct_destinations(session)
}

proof fn lemma_placed_domain(tree: Tree, session: Seq<(PathV, PathV)>, p: PathV)
    ensures
        placed(tree, session).contains_key(p) <==> (tree.contains_key(p) || targets(session, p)),
    decreases session.len(),
{
    if session.len() > 0 {
        let init = session.drop_last();
        lemma_placed_domain(tree, init, p);
        if targets(init, p) {
            let i = choose|i: int| 0 <= i < init.len() && init[i].1 == p;
            assert(session[i].1 == p);
        }
        if targets(session, p) && session.last().1 != p {
            let i = choose|i: int| 0 <= i < session.len() && session[i].1 == p;
            assert(init[i].1 == p);
        }
    }
}

proof fn lemma_undo_placed(tree: Tree, session: Seq<(PathV, PathV)>)
    requires
        fresh(tree, session),
    ensures
        undo(placed(tree, session), session) == tree,
    decreases session.len(),
{
    if session.len() > 0 {
        let init = session.drop_last();
        let last = session.last();
        assert(fresh(tree, init)) by {
            assert forall|i: int| 0 <= i < init.len() implies !tree.contains_key(
                #[trigger] init[i].1,
            ) by {
                assert(init[i] == session[i]);
            }
        }
        lemma_placed_domain(tree, init, last.1);
        assert(!tree.contains_key(session[session.len() - 1].1));
        if targets(init, last.1) {
            let i = choose|i: int| 0 <= i < init.len() && init[i].1 == last.1;
            assert(session[i].1 == session[session.len() - 1].1);
        }
        assert(placed(tree, session).remove(last.1) =~= placed(tree, init));
        lemma_undo_placed(tree, init);
    }
}

proof fn lemma_rollback_from(
    tree: Tree,
    session: Seq<(PathV, PathV)>,
    plan: Seq<(PathV, PathV)>,
)
    requires
        fresh(tree, session),
    ensures
        ({
            let r = drive(placed(tree, session), Policy::Rollback, false, session, plan);
            r.2 ==> r.0 == tree
        }),
    decreases plan.len(),
{
    if plan.len() > 0 {
        let l = plan[0];
        let now = placed(tree, session);
        let d = decision(Policy::Rollback, kind_of(now, l));
        if d == Decision::Undo {
            lemma_undo_placed(tree, session);
        } else {
            let s1 = session.push(l);
            assert(s1.drop_last() =~= session);
            lemma_placed_domain(tree, session, l.1);
            assert(fresh(tree, s1)) by {
                assert forall|i: int, j: int| 0 <= i < j < s1.len() implies s1[i].1
                    != s1[j].1 by {
                    if j == session.len() {
                        assert(session[i].1 == s1[i].1);
                    } else {
                        assert(session[i].1 != session[j].1);
                    }
                }
                assert forall|i: int| 0 <= i < s1.len() implies !tree.contains_key(
                    #[trigger] s1[i].1,
                ) by {
                    if i < session.len() {
                        assert(s1[i] == session[i]);
                    }
                }
            }
            lemma_rollback_from(tree, s1, plan.drop_first());
        }
    }
}

/// One call of `Run::step`, followed by `Run::confirm` where the decision
/// makes a link, leaves the run's session where one step of `drive` leaves it.
pub proof fn lemma_run_follows_drive(
    session: Seq<(PathV, PathV)>,
    dry_run: bool,
    d: Decision,
    link: (PathV, PathV),
)
    ensures
        links(d) ==> confirm_session(step_session(session, d), dry_run, link) == session_after(
            session,
            dry_run,
            d,
            link,
        ),
        !links(d) ==> step_session(session, d) == session_after(session, dry_run, d, link),
{
}

/// A real run under `Rollback` that is aborted leaves the target tree exactly
/// as it was: the links it made are removed, and what it met in its way was
/// never touched.
pub proof fn lemma_rollback_restores(tree: Tree, plan: Seq<(PathV, PathV)>)
    ensures
        ({
            let r = drive(tree, Policy::Rollback, false, Seq::empty(), plan);
            r.2 ==> r.0 == tree
        }),
{
    lemma_rollback_from(tree, Seq::empty(), plan);
}

/// The decisions a run takes, in order; an abort or an undo is the last.
pub open spec fn decisions(
    tree: Tree,
    policy: Policy,
    dry_run: bool,
    session: Seq<(PathV, PathV)>,
    plan: Seq<(PathV, PathV)>,
) -> Seq<Decision>
    decreases plan.len(),
{
    if plan.len() == 0 {
        Seq::empty()
    } else {
        let l = plan[0];
        let d = decision(policy, kind_of(tree, l));
        if d == Decision::Abort || d == Decision::Undo {
            seq![d]
        } else {
            let next = if links(d) && !dry_run {
                tree.insert(l.1, Node::Link(l.0))
            } else {
                tree
            };
            seq![d] + decisions(
                next,
                policy,
                dry_run,
                session_after(session, dry_run, d, l),
                plan.drop_first(),
            )
        }
    }
}

proof fn lemma_same_view_same_decisions(
    a: Tree,
    b: Tree,
    policy: Policy,
    dry_a: bool,
    dry_b: bool,
    sa: Seq<(PathV, PathV)>,
    sb: Seq<(PathV, PathV)>,
    plan: Seq<(PathV, PathV)>,
)
    requires
        distinct_destinations(plan),
        forall|i: int| 0 <= i < plan.len() ==> #[trigger] kind_of(a, plan[i]) == kind_of(b, plan[i]),
    ensures
        decisions(a, policy, dry_a, sa, plan) == decisions(b, policy, dry_b, sb, plan),
        drive(a, policy, dry_a, sa, plan).2 == drive(b, policy, dry_b, sb, plan).2,
    decreases plan.len(),
{
    if plan.len() > 0 {
        let l = plan[0];
        let rest = plan.drop_first();
        assert(kind_of(a, plan[0]) == kind_of(b, plan[0]));
        let d = decision(policy, kind_of(a, l));
        if d != Decision::Abort && d != Decision::Undo {
            let na = if links(d) && !dry_a { a.insert(l.1, Node::Link(l.0)) } else { a };
            let nb = if links(d) && !dry_b { b.insert(l.1, Node::Link(l.0)) } else { b };
            assert(distinct_destinations(rest)) by {
                assert forall|i: int, j: int| 0 <= i < j < rest.len() implies rest[i].1
                    != rest[j].1 by {
                    assert(plan[i + 1].1 != plan[j + 1].1);
                }
            }
            assert forall|i: int| 0 <= i < rest.len() implies #[trigger] kind_of(na, rest[i])
                == kind_of(nb, rest[i]) by {
                assert(rest[i] == plan[i + 1]);
                assert(plan[0].1 != plan[i + 1].1);
                assert(kind_of(a, plan[i + 1]) == kind_of(b, plan[i + 1]));
            }
            lemma_same_view_same_decisions(
                na,
                nb,
                policy,
                dry_a,
                dry_b,
                session_after(sa, dry_a, d, l),
                session_after(sb, dry_b, d, l),
                rest,
            );
        }
    }
}

/// A dry run is a faithful preview: over the same tree and plan it takes the
/// same decisions, in the same order, and ends in an abort exactly when the
/// real run does. Where there is anything to deploy, it decides something.
pub proof fn lemma_dry_run_previews_real_run(
    tree: Tree,
    policy: Policy,
    plan: Seq<(PathV, PathV)>,
)
    requires
        distinct_destinations(plan),
    ensures
        decisions(tree, policy, true, Seq::empty(), plan) == decisions(
            tree,
            policy,
            false,
            Seq::empty(),
            plan,
        ),
        drive(tree, policy, true, Seq::empty(), plan).2 == drive(
            tree,
            policy,
            false,
            Seq::empty(),
            plan,
        ).2,
        plan.len() > 0 ==> decisions(tree, policy, true, Seq::empty(), plan).len() > 0,
{
    lemma_same_view_same_decisions(
        tree,
        tree,
        policy,
        true,
        false,
        Seq::empty(),
        Seq::empty(),
        plan,
    );
}

} // verus!
