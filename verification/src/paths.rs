//! Module paths and the visibility lattice.
//!
//! A `ModulePath` addresses a module as the ordered list of its segment
//! names, rooted at the sentinel segment `crate`. `Vis` is the four-level
//! visibility lattice; `accessible_from` is the single source of truth for
//! every visibility question the rest of the library asks.

use vstd::prelude::*;
use vstd::string::*;

verus! {

/// The address of a module: an ordered, non-empty list of segment names
/// rooted at the sentinel segment `crate`.
pub struct ModulePath {
    pub segments: Vec<String>,
}

impl View for ModulePath {
    type V = Seq<Seq<char>>;

    open spec fn view(&self) -> Seq<Seq<char>> {
        self.segments.deep_view()
    }
}

impl DeepView for ModulePath {
    type V = Seq<Seq<char>>;

    open spec fn deep_view(&self) -> Seq<Seq<char>> {
        self.segments.deep_view()
    }
}

/// `q` starts with `p`: the segment sequence of `p` is a prefix of `q`'s.
pub open spec fn seq_starts_with(q: Seq<Seq<char>>, p: Seq<Seq<char>>) -> bool {
    p.len() <= q.len() && forall|i: int| 0 <= i < p.len() ==> q[i] == p[i]
}

/// The display form of a path: its segments joined by `::`.
pub open spec fn join_segments(segs: Seq<Seq<char>>) -> Seq<char>
    decreases segs.len(),
{
    if segs.len() == 0 {
        Seq::empty()
    } else if segs.len() == 1 {
        segs[0]
    } else {
        join_segments(segs.drop_last()) + "::"@ + segs.last()
    }
}

/// Pushing one element extends a vector's deep view by that element's
/// deep view.
pub proof fn lemma_deep_push<T: DeepView>(v1: Vec<T>, v2: Vec<T>)
    requires
        v1@.len() + 1 == v2@.len(),
        forall|j: int| 0 <= j < v1@.len() ==> v2@[j] == v1@[j],
    ensures
        v2.deep_view() =~= v1.deep_view().push(v2@[v1@.len() as int].deep_view()),
{
    assert forall|j: int| 0 <= j < v2@.len() implies v2.deep_view()[j] == v1.deep_view().push(
        v2@[v1@.len() as int].deep_view(),
    )[j] by {
        assert(v2.deep_view()[j] == v2@[j].deep_view());
        if j < v1@.len() {
            assert(v2@[j] == v1@[j]);
            assert(v1.deep_view()[j] == v1@[j].deep_view());
        }
    }
}

/// Concatenating two vectors concatenates their deep views.
pub proof fn lemma_deep_append<T: DeepView>(pre: Vec<T>, suf: Vec<T>, joined: Vec<T>)
    requires
        joined@ == pre@ + suf@,
    ensures
        joined.deep_view() =~= pre.deep_view() + suf.deep_view(),
{
    assert forall|j: int| 0 <= j < joined@.len() implies joined.deep_view()[j] == (
    pre.deep_view() + suf.deep_view())[j] by {
        assert(joined.deep_view()[j] == joined@[j].deep_view());
        if j < pre@.len() {
            assert(joined@[j] == pre@[j]);
            assert(pre.deep_view()[j] == pre@[j].deep_view());
        } else {
            assert(joined@[j] == suf@[j - pre@.len()]);
            assert(suf.deep_view()[j - pre@.len()] == suf@[j - pre@.len()].deep_view());
        }
    }
}

/// Join the strings of `v` with the path separator `::`.
pub fn join_strings(v: &Vec<String>) -> (r: String)
    ensures
        r@ == join_segments(v.deep_view()),
{
    let mut out = String::new();
    let mut i: usize = 0;
    while i < v.len()
        invariant
            i <= v.len(),
            out@ == join_segments(v.deep_view().take(i as int)),
        decreases v.len() - i,
    {
        if i > 0 {
            out.append("::");
        }
        out.append(v[i].as_str());
        proof {
            let dv = v.deep_view();
            let t = dv.take(i + 1);
            assert(t.drop_last() =~= dv.take(i as int));
            assert(t.last() == dv[i as int]);
            assert(dv[i as int] == v@[i as int]@);
            if i == 0 {
                assert(out@ =~= join_segments(dv.take(1)));
            }
        }
        i += 1;
    }
    proof {
        assert(v.deep_view().take(v.deep_view().len() as int) =~= v.deep_view());
    }
    out
}

/// Clone a vector of strings, keeping each string's characters.
pub fn clone_strings(v: &Vec<String>) -> (r: Vec<String>)
    ensures
        r.deep_view() == v.deep_view(),
{
    let mut r: Vec<String> = Vec::new();
    let mut i: usize = 0;
    while i < v.len()
        invariant
            i <= v.len(),
            r@.len() == i,
            forall|j: int| 0 <= j < i ==> r@[j]@ == v@[j]@,
        decreases v.len() - i,
    {
        r.push(v[i].clone());
        i += 1;
    }
    proof {
        assert forall|j: int| 0 <= j < v@.len() implies r.deep_view()[j] == v.deep_view()[j] by {
            assert(r.deep_view()[j] == r@[j]@);
            assert(v.deep_view()[j] == v@[j]@);
        }
        assert(r.deep_view() =~= v.deep_view());
    }
    r
}

/// Compare two strings by their characters.
pub fn str_eq(a: &String, b: &String) -> (r: bool)
    ensures
        r == (a@ == b@),
{
    a.eq(b)
}

/// Compare a string to a string slice by their characters.
pub fn str_eq_str(a: &String, b: &str) -> (r: bool)
    ensures
        r == (a@ == b@),
{
    let owned = b.to_owned();
    a.eq(&owned)
}

impl ModulePath {
    /// The path of the package root module.
    pub fn root() -> (r: ModulePath)
        ensures
            r@ =~= seq!["crate"@],
    {
        let mut segments: Vec<String> = Vec::new();
        segments.push("crate".to_owned());
        let r = ModulePath { segments };
        proof {
            assert(r@ =~= seq!["crate"@]);
        }
        r
    }

    /// The path of the child module named `name`.
    pub fn child(&self, name: &str) -> (r: ModulePath)
        ensures
            r@ == self@.push(name@),
    {
        let mut segments = clone_strings(&self.segments);
        segments.push(name.to_owned());
        let r = ModulePath { segments };
        proof {
            assert(r@ =~= self@.push(name@));
        }
        r
    }

    /// The parent module, or `None` at the root.
    pub fn parent(&self) -> (r: Option<ModulePath>)
        ensures
            match r {
                Option::None => self@.len() <= 1,
                Option::Some(p) => self@.len() > 1 && p@ == self@.drop_last(),
            },
    {
        if self.segments.len() <= 1 {
            Option::None
        } else {
            let mut segments = clone_strings(&self.segments);
            segments.pop();
            let p = ModulePath { segments };
            proof {
                assert(p@ =~= self@.drop_last());
            }
            Option::Some(p)
        }
    }

    /// The display form of the path, segments joined by `::`.
    pub fn display(&self) -> (r: String)
        ensures
            r@ == join_segments(self@),
    {
        let mut out = String::new();
        let mut i: usize = 0;
        while i < self.segments.len()
            invariant
                i <= self.segments.len(),
                out@ == join_segments(self@.take(i as int)),
            decreases self.segments.len() - i,
        {
            if i > 0 {
                out.append("::");
            }
            out.append(self.segments[i].as_str());
            proof {
                let t = self@.take(i + 1);
                assert(t.drop_last() =~= self@.take(i as int));
                assert(t.last() == self@[i as int]);
                if i == 0 {
                    assert(out@ =~= join_segments(self@.take(1)));
                }
            }
            i += 1;
        }
        proof {
            assert(self@.take(self.segments.len() as int) =~= self@);
        }
        out
    }

    /// The last segment, or `crate` for an empty segment list.
    pub fn last(&self) -> (r: &str)
        ensures
            r@ == if self@.len() > 0 {
                self@.last()
            } else {
                "crate"@
            },
    {
        if self.segments.len() == 0 {
            "crate"
        } else {
            self.segments[self.segments.len() - 1].as_str()
        }
    }

    /// Structural equality of two paths.
    pub fn path_eq(&self, other: &ModulePath) -> (r: bool)
        ensures
            r == (self@ == other@),
    {
        if self.segments.len() != other.segments.len() {
            proof {
                assert(self@.len() != other@.len());
            }
            return false;
        }
        let mut i: usize = 0;
        while i < self.segments.len()
            invariant
                i <= self.segments.len(),
                self.segments.len() == other.segments.len(),
                forall|j: int| 0 <= j < i ==> self@[j] == other@[j],
            decreases self.segments.len() - i,
        {
            if !str_eq(&self.segments[i], &other.segments[i]) {
                proof {
                    assert(self@[i as int] != other@[i as int]);
                }
                return false;
            }
            i += 1;
        }
        proof {
            assert(self@ =~= other@);
        }
        true
    }

    /// Whether this path lies in the subtree of `prefix` (or equals it).
    pub fn starts_with(&self, prefix: &ModulePath) -> (r: bool)
        ensures
            r == seq_starts_with(self@, prefix@),
    {
        if prefix.segments.len() > self.segments.len() {
            return false;
        }
        let mut i: usize = 0;
        while i < prefix.segments.len()
            invariant
                i <= prefix.segments.len(),
                prefix.segments.len() <= self.segments.len(),
                forall|j: int| 0 <= j < i ==> self@[j] == prefix@[j],
            decreases prefix.segments.len() - i,
        {
            if !str_eq(&self.segments[i], &prefix.segments[i]) {
                proof {
                    assert(self@[i as int] != prefix@[i as int]);
                }
                return false;
            }
            i += 1;
        }
        true
    }

    /// Clone the path, keeping its segments.
    pub fn clone_path(&self) -> (r: ModulePath)
        ensures
            r@ == self@,
    {
        ModulePath { segments: clone_strings(&self.segments) }
    }
}

/// The visibility of an item: who may refer to it.
#[derive(Clone, Copy, PartialEq, Eq, Structural, Debug)]
pub enum Vis {
    /// Visible everywhere.
    Public,
    /// Visible throughout the package.
    PubCrate,
    /// Visible to the defining module's parent and that parent's subtree.
    PubSuper,
    /// Visible to the defining module's subtree, and to enclosing modules
    /// that can see into it.
    Private,
}

/// The accessibility predicate: may a reference standing in `accessor`
/// legally name an item of visibility `v` defined in `defining`?
pub open spec fn spec_accessible(v: Vis, defining: Seq<Seq<char>>, accessor: Seq<Seq<char>>) -> bool {
    match v {
        Vis::Public => true,
        Vis::PubCrate => true,
        Vis::PubSuper => defining.len() > 1 && seq_starts_with(accessor, defining.drop_last()),
        Vis::Private => seq_starts_with(accessor, defining) || seq_starts_with(
            defining,
            accessor,
        ),
    }
}

impl Vis {
    /// Decide accessibility; this never panics and agrees with
    /// `spec_accessible` on every input.
    pub fn accessible_from(&self, defining_module: &ModulePath, accessor_module: &ModulePath) -> (r:
        bool)
        ensures
            r == spec_accessible(*self, defining_module@, accessor_module@),
    {
        match self {
            Vis::Public => true,
            Vis::PubCrate => true,
            Vis::PubSuper => {
                match defining_module.parent() {
                    Option::Some(parent) => accessor_module.starts_with(&parent),
                    Option::None => false,
                }
            },
            Vis::Private => {
                accessor_module.starts_with(defining_module) || defining_module.starts_with(
                    accessor_module,
                )
            },
        }
    }
}

/// Accessibility is reflexive: an item is always accessible from the module
/// that defines it. The one input left out is a `PubSuper` item defined in
/// the root module, whose parent does not exist.
pub proof fn lemma_accessible_reflexive(v: Vis, m: Seq<Seq<char>>)
    requires
        v is PubSuper ==> m.len() > 1,
    ensures
        spec_accessible(v, m, m),
{
    match v {
        Vis::PubSuper => {
            assert(seq_starts_with(m, m.drop_last()));
        },
        _ => {},
    }
}

/// A `Private` item accessible from a module `m` inside the defining
/// module's subtree is accessible from every descendant of `m`.
pub proof fn lemma_private_monotonic_under_descent(
    defining: Seq<Seq<char>>,
    m: Seq<Seq<char>>,
    descendant: Seq<Seq<char>>,
)
    requires
        seq_starts_with(m, defining),
        spec_accessible(Vis::Private, defining, m),
        seq_starts_with(descendant, m),
    ensures
        spec_accessible(Vis::Private, defining, descendant),
{
    assert(seq_starts_with(descendant, defining));
}

} // verus!
