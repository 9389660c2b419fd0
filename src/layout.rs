use vstd::prelude::*;

use crate::error::EngineError;
use crate::path::{components, is_prefix, join, strip_prefix, PathV};

verus! {

/// Where a package comes from and where its links go.
pub struct Layout {
    /// The directory that holds the packages.
    pub dir: Vec<String>,
    /// The package's name, a single path component.
    pub package: String,
    /// `dir` followed by `package`.
    pub source_prefix: Vec<String>,
    /// The directory under which the links are made.
    pub target: Vec<String>,
}

/// A link to be made: `destination` will point at `source`.
pub struct PlannedLink {
    pub source: Vec<String>,
    pub destination: Vec<String>,
}

impl View for PlannedLink {
    type V = (PathV, PathV);

    open spec fn view(&self) -> (PathV, PathV) {
        (components(self.source@), components(self.destination@))
    }
}

impl Clone for PlannedLink {
    fn clone(&self) -> (r: PlannedLink)
        ensures
            r@ == self@,
    {
        PlannedLink { source: self.source.clone(), destination: self.destination.clone() }
    }
}

/// Where a link from `source` lands: the target followed by the source's path
/// inside the package.
pub open spec fn destination_of(prefix: PathV, target: PathV, source: PathV) -> PathV {
    target + source.subrange(prefix.len() as int, source.len() as int)
}

impl Layout {
    pub open spec fn wf(&self) -> bool {
        components(self.source_prefix@) == components(self.dir@).push(self.package@)
    }

    pub open spec fn prefix_view(&self) -> PathV {
        components(self.source_prefix@)
    }

    pub open spec fn target_view(&self) -> PathV {
        components(self.target@)
    }

    /// Works out the source prefix and the target directory. Without an explicit
    /// target, links go into the parent of `dir`, which a root does not have.
    pub fn resolve(dir: Vec<String>, package: String, target: Option<Vec<String>>) -> (r: Result<
        Layout,
        EngineError,
    >)
        ensures
            r is Err <==> (target is None && dir.len() == 0),
            r is Err ==> r->Err_0 == EngineError::Configuration,
            r is Ok ==> {
                let l = r->Ok_0;
                &&& l.wf()
                &&& components(l.dir@) == components(dir@)
                &&& l.package@ == package@
                &&& match target {
                    Some(t) => l.target_view() == components(t@),
                    None => l.target_view() == components(dir@).drop_last(),
                }
            },
    {
        let target = match target {
            Some(t) => t,
            None => {
                if dir.len() == 0 {
                    return Err(EngineError::Configuration);
                }
                let mut parent = dir.clone();
                parent.pop();
                assert(components(parent@) =~= components(dir@).drop_last());
                parent
            },
        };
        let tail = vec![package.clone()];
        assert(components(tail@) =~= seq![package@]);
        let source_prefix = join(&dir, &tail);
        assert(components(source_prefix@) =~= components(dir@).push(package@));
        Ok(Layout { dir, package, source_prefix, target })
    }

    /// Plans the link for one walked entry. An entry that does not lie under the
    /// source prefix gets no link.
    pub fn plan(&self, source: &Vec<String>) -> (r: Option<PlannedLink>)
        requires
            self.wf(),
        ensures
            r is Some <==> is_prefix(self.prefix_view(), components(source@)),
            r is Some ==> r->Some_0@ == (
                components(source@),
                destination_of(self.prefix_view(), self.target_view(), components(source@)),
            ),
            r is Some ==> is_prefix(self.target_view(), r->Some_0@.1),
    {
        match strip_prefix(source, &self.source_prefix) {
            None => None,
            Some(rel) => {
                let destination = join(&self.target, &rel);
                assert(components(destination@).subrange(0, self.target@.len() as int)
                    =~= self.target_view());
                Some(PlannedLink { source: source.clone(), destination })
            },
        }
    }
}

} // verus!
