use vstd::prelude::*;

use crate::conflict::EntryKind;
use crate::layout::{destination_of, Layout, PlannedLink};
use crate::path::{components, is_prefix, join, same_path, strip_prefix, PathV};

verus! {

/// An entry found under the target directory.
pub struct Found {
    pub path: Vec<String>,
    pub kind: EntryKind,
    /// Where a symlink points; empty for anything else.
    pub points_to: Vec<String>,
}

/// `f` is a link that deploying the package would have made: a symlink whose
/// place under the target mirrors the place of what it points at in the package.
pub open spec fn deployed_link(prefix: PathV, target: PathV, f: Found) -> bool {
    &&& f.kind == EntryKind::Symlink
    &&& is_prefix(prefix, components(f.points_to@))
    &&& components(f.path@) == destination_of(prefix, target, components(f.points_to@))
}

fn is_deployed_link(layout: &Layout, f: &Found) -> (r: bool)
    requires
        layout.wf(),
    ensures
        r == deployed_link(layout.prefix_view(), layout.target_view(), *f),
{
    match f.kind {
        EntryKind::Symlink => match strip_prefix(&f.points_to, &layout.source_prefix) {
            None => false,
            Some(rel) => {
                let expected = join(&layout.target, &rel);
                same_path(&f.path, &expected)
            },
        },
        _ => false,
    }
}

/// Marks which of the found entries are to be removed to take the package out
/// of the target: exactly its links. Nothing but a symlink is ever marked.
pub fn removals(layout: &Layout, found: &Vec<Found>) -> (r: Vec<bool>)
    requires
        layout.wf(),
    ensures
        r@.len() == found@.len(),
        forall|i: int|
            0 <= i < r@.len() ==> r@[i] == deployed_link(
                layout.prefix_view(),
                layout.target_view(),
                found@[i],
            ),
        forall|i: int| 0 <= i < r@.len() && r@[i] ==> found@[i].kind == EntryKind::Symlink,
{
    let mut r: Vec<bool> = Vec::new();
    let mut i: usize = 0;
    while i < found.len()
        invariant
            layout.wf(),
            i <= found.len(),
            r@.len() == i,
            forall|j: int|
                0 <= j < i ==> r@[j] == deployed_link(
                    layout.prefix_view(),
                    layout.target_view(),
                    found@[j],
                ),
        decreases found.len() - i,
    {
        let b = is_deployed_link(layout, &found[i]);
        r.push(b);
        i = i + 1;
    }
    r
}

/// `f` is no symlink, yet stands where one of the planned links would go.
pub open spec fn in_the_way(planned: Seq<PlannedLink>, f: Found) -> bool {
    &&& f.kind != EntryKind::Symlink
    &&& exists|j: int| 0 <= j < planned.len() && planned[j]@.1 == components(f.path@)
}

/// Marks the found entries that taking the package out leaves alone although
/// they stand at one of its paths: files and directories where `planned` would
/// put a link. They are to be reported, never removed.
pub fn left_in_place(planned: &Vec<PlannedLink>, found: &Vec<Found>) -> (r: Vec<bool>)
    ensures
        r@.len() == found@.len(),
        forall|i: int| 0 <= i < r@.len() ==> r@[i] == in_the_way(planned@, found@[i]),
{
    let mut r: Vec<bool> = Vec::new();
    let mut i: usize = 0;
    while i < found.len()
        invariant
            i <= found.len(),
            r@.len() == i,
            forall|k: int| 0 <= k < i ==> r@[k] == in_the_way(planned@, found@[k]),
        decreases found.len() - i,
    {
        let f = &found[i];
        let mut hit = false;
        if f.kind != EntryKind::Symlink {
            let mut j: usize = 0;
            while j < planned.len() && !hit
                invariant
                    j <= planned.len(),
                    hit ==> exists|m: int|
                        0 <= m < planned@.len() && planned@[m]@.1 == components(f.path@),
                    !hit ==> forall|m: int|
                        0 <= m < j ==> planned@[m]@.1 != components(f.path@),
                decreases planned.len() - j,
            {
                if same_path(&planned[j].destination, &f.path) {
                    hit = true;
                }
                j = j + 1;
            }
        }
        r.push(hit);
        i = i + 1;
    }
    r
}

/// How many entries of `marks` are set.
pub open spec fn marked(marks: Seq<bool>) -> nat
    decreases marks.len(),
{
    if marks.len() == 0 {
        0
    } else {
        marked(marks.drop_last()) + if marks.last() {
            1nat
        } else {
            0nat
        }
    }
}

proof fn lemma_marked_bound(marks: Seq<bool>)
    ensures
        marked(marks) <= marks.len(),
    decreases marks.len(),
{
    if marks.len() > 0 {
        lemma_marked_bound(marks.drop_last());
    }
}

/// The number of links that taking the package out removes: the entries that
/// `removals` marked.
pub fn count_removed(marks: &Vec<bool>) -> (r: usize)
    ensures
        r == marked(marks@),
{
    let mut n: usize = 0;
    let mut i: usize = 0;
    while i < marks.len()
        invariant
            i <= marks.len(),
            n == marked(marks@.subrange(0, i as int)),
        decreases marks.len() - i,
    {
        assert(marks@.subrange(0, i as int + 1).drop_last() =~= marks@.subrange(0, i as int));
        proof {
            lemma_marked_bound(marks@.subrange(0, i as int));
        }
        if marks[i] {
            n = n + 1;
        }
        i = i + 1;
    }
    assert(marks@.subrange(0, marks.len() as int) =~= marks@);
    n
}

} // verus!
