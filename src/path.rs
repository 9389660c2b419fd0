use vstd::prelude::*;

verus! {

/// A path as the sequence of its components.
pub type PathV = Seq<Seq<char>>;

/// The abstract value of a component list.
pub open spec fn components(v: Seq<String>) -> PathV {
    v.map_values(|s: String| s@)
}

/// `prefix` is a leading run of components of `path`.
pub open spec fn is_prefix(prefix: PathV, path: PathV) -> bool {
    prefix.len() <= path.len() && path.subrange(0, prefix.len() as int) == prefix
}

/// Whether `prefix` is a leading run of components of `path`.
pub fn starts_with(path: &Vec<String>, prefix: &Vec<String>) -> (r: bool)
    ensures
        r == is_prefix(components(prefix@), components(path@)),
{
    if prefix.len() > path.len() {
        return false;
    }
    let mut i: usize = 0;
    while i < prefix.len()
        invariant
            prefix.len() <= path.len(),
            i <= prefix.len(),
            forall|j: int| 0 <= j < i ==> path@[j]@ == prefix@[j]@,
        decreases prefix.len() - i,
    {
        if path[i] != prefix[i] {
            assert(components(path@).subrange(0, prefix.len() as int)[i as int] != components(prefix@)[i as int]);
            return false;
        }
        i = i + 1;
    }
    assert(components(path@).subrange(0, prefix.len() as int) =~= components(prefix@));
    true
}

proof fn lemma_components_push(v: Seq<String>, x: String)
    ensures
        components(v.push(x)) == components(v).push(x@),
{
    assert(components(v.push(x)) =~= components(v).push(x@));
}

/// Whether two component lists name the same path.
pub fn same_path(a: &Vec<String>, b: &Vec<String>) -> (r: bool)
    ensures
        r == (components(a@) == components(b@)),
{
    if a.len() != b.len() {
        return false;
    }
    let r = starts_with(a, b);
    assert(components(a@).subrange(0, b.len() as int) =~= components(a@));
    r
}

/// The components of `path` after its first `n`.
pub fn suffix_from(path: &Vec<String>, n: usize) -> (r: Vec<String>)
    requires
        n <= path.len(),
    ensures
        components(r@) == components(path@).subrange(n as int, path.len() as int),
{
    let mut r: Vec<String> = Vec::new();
    let mut i: usize = n;
    while i < path.len()
        invariant
            n <= i <= path.len(),
            components(r@) =~= components(path@).subrange(n as int, i as int),
        decreases path.len() - i,
    {
        proof {
            lemma_components_push(r@, path@[i as int]);
        }
        r.push(path[i].clone());
        i = i + 1;
        assert(components(r@) =~= components(path@).subrange(n as int, i as int));
    }
    r
}

/// `path` with `prefix` taken off its front, or `None` where `prefix` does not lead it.
pub fn strip_prefix(path: &Vec<String>, prefix: &Vec<String>) -> (r: Option<Vec<String>>)
    ensures
        r.is_some() == is_prefix(components(prefix@), components(path@)),
        r.is_some() ==> components(r.unwrap()@) == components(path@).subrange(
            prefix.len() as int,
            path.len() as int,
        ),
{
    if starts_with(path, prefix) {
        Some(suffix_from(path, prefix.len()))
    } else {
        None
    }
}

/// `base` followed by the components of `rel`.
pub fn join(base: &Vec<String>, rel: &Vec<String>) -> (r: Vec<String>)
    ensures
        components(r@) == components(base@) + components(rel@),
{
    let mut r: Vec<String> = Vec::new();
    let mut i: usize = 0;
    while i < base.len()
        invariant
            i <= base.len(),
            components(r@) =~= components(base@).subrange(0, i as int),
        decreases base.len() - i,
    {
        proof {
            lemma_components_push(r@, base@[i as int]);
        }
        r.push(base[i].clone());
        i = i + 1;
        assert(components(r@) =~= components(base@).subrange(0, i as int));
    }
    let mut j: usize = 0;
    while j < rel.len()
        invariant
            j <= rel.len(),
            components(r@) =~= components(base@) + components(rel@).subrange(0, j as int),
        decreases rel.len() - j,
    {
        proof {
            lemma_components_push(r@, rel@[j as int]);
        }
        r.push(rel[j].clone());
        j = j + 1;
        assert(components(r@) =~= components(base@) + components(rel@).subrange(0, j as int));
    }
    assert(components(rel@).subrange(0, rel.len() as int) =~= components(rel@));
    r
}

} // verus!
