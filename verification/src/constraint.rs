//! The public entry point: a parsed constraint with its canonical text,
//! matcher and exactness flag, and a registry that interns constraints by
//! canonical text so canonically-equal constraints share one instance.

use vstd::prelude::*;

use crate::errors::SpecError;
use crate::matcher::{canon_leaf, canon_leaf_exec, classify_leaf, classify_tree, eval_matcher,
    eval_matcher_exec, leaf_err, leaf_exact, leaf_matcher_is, leaf_ok, tree_err, tree_matcher_is,
    tree_ok, untree_canon, untree_chars, wf_matcher, MatchEnum};
use crate::rx::string_of_chars;
use crate::tree::{compound, is_compound, spec_treeify, treeify};
use crate::version::chars_of;

verus! {

// ---------------------------------------------------------------------------
// What parsing a constraint text denotes.
// ---------------------------------------------------------------------------

/// On which texts `ConstraintSpec::parse` succeeds: a compound text must
/// parse as a tree whose every leaf classifies; a single leaf must
/// classify.
pub open spec fn spec_parse_ok(s: Seq<char>) -> bool {
    if is_compound(s) {
        spec_treeify(s) is Some && tree_ok(spec_treeify(s)->0)
    } else {
        leaf_ok(s)
    }
}

/// Which error a failing parse reports.
pub open spec fn spec_parse_err(s: Seq<char>) -> SpecError {
    if is_compound(s) {
        if spec_treeify(s) is None {
            SpecError::Syntax
        } else {
            tree_err(spec_treeify(s)->0)
        }
    } else {
        leaf_err(s)
    }
}

/// The canonical text of a constraint.
pub open spec fn spec_canonical(s: Seq<char>) -> Seq<char> {
    if is_compound(s) {
        untree_canon(spec_treeify(s)->0)
    } else {
        canon_leaf(s)
    }
}

/// What matcher a successful parse yields.
pub open spec fn spec_matcher_is(m: MatchEnum, s: Seq<char>) -> bool {
    if is_compound(s) {
        tree_matcher_is(m, spec_treeify(s)->0)
    } else {
        leaf_matcher_is(m, s)
    }
}

/// Whether the constraint denotes a single fully-qualified version: only
/// `==` constraints and plain literals do; a compound constraint never is.
pub open spec fn spec_exact(s: Seq<char>) -> bool {
    if is_compound(s) {
        false
    } else {
        leaf_exact(s)
    }
}

// ---------------------------------------------------------------------------
// ConstraintSpec.
// ---------------------------------------------------------------------------

/// A parsed version constraint: its canonical text, its matcher, and
/// whether it denotes one fully-qualified version.
pub struct ConstraintSpec {
    canonical: String,
    matcher: MatchEnum,
    exact: bool,
}

impl ConstraintSpec {
    /// Every regular expression held by the matcher compiles.
    #[verifier::type_invariant]
    spec fn type_inv(self) -> bool {
        wf_matcher(self.matcher)
    }

    pub closed spec fn canonical_spec(&self) -> Seq<char> {
        self.canonical@
    }

    pub closed spec fn matcher_spec(&self) -> MatchEnum {
        self.matcher
    }

    pub closed spec fn exact_spec(&self) -> bool {
        self.exact
    }

    /// Parse a constraint text. Succeeds exactly on the texts
    /// `spec_parse_ok` allows; the result carries the canonical text, a
    /// matcher classified as `spec_matcher_is` describes, and the
    /// exactness flag.
    pub fn parse(text: &str) -> (r: Result<ConstraintSpec, SpecError>)
        ensures
            match r {
                Ok(cs) => spec_parse_ok(text@) && cs.canonical_spec() == spec_canonical(text@)
                    && spec_matcher_is(cs.matcher_spec(), text@) && cs.exact_spec() == spec_exact(
                    text@,
                ),
                Err(e) => !spec_parse_ok(text@) && e == spec_parse_err(text@),
            },
    {
        let chars = chars_of(text);
        if compound(&chars) {
            match treeify(&chars) {
                Err(e) => Err(e),
                Ok(t) => {
                    let ghost ts = spec_treeify(chars@)->0;
                    match classify_tree(&t, Ghost(ts)) {
                        Err(e) => Err(e),
                        Ok(m) => {
                            let cv = untree_chars(&t, Ghost(ts));
                            let canonical = string_of_chars(&cv);
                            Ok(ConstraintSpec { canonical, matcher: m, exact: false })
                        },
                    }
                },
            }
        } else {
            match classify_leaf(&chars) {
                Err(e) => Err(e),
                Ok((m, ex)) => {
                    let cv = canon_leaf_exec(&chars);
                    let canonical = string_of_chars(&cv);
                    Ok(ConstraintSpec { canonical, matcher: m, exact: ex })
                },
            }
        }
    }

    /// Does the candidate version text satisfy this constraint? Never
    /// fails: a candidate no reading of which parses matches nothing.
    pub fn test(&self, candidate: &str) -> (b: bool)
        ensures
            b == eval_matcher(self.matcher_spec(), candidate@),
    {
        proof {
            use_type_invariant(self);
        }
        eval_matcher_exec(&self.matcher, candidate)
    }

    /// The canonical text of this constraint.
    pub fn canonical_text(&self) -> (r: &str)
        ensures
            r@ == self.canonical_spec(),
    {
        self.canonical.as_str()
    }

    /// Does this constraint denote a single fully-qualified version?
    pub fn is_exact(&self) -> (r: bool)
        ensures
            r == self.exact_spec(),
    {
        self.exact
    }

    /// Structural equality: two constraints are equal when their canonical
    /// texts are.
    pub fn same_constraint(&self, other: &ConstraintSpec) -> (r: bool)
        ensures
            r == (self.canonical_spec() == other.canonical_spec()),
    {
        self.canonical == other.canonical
    }
}

// ---------------------------------------------------------------------------
// The Spec trait: the read interface of a parsed constraint.
// ---------------------------------------------------------------------------

/// What any parsed constraint offers: its canonical text, its matcher,
/// its exactness, and matching of a candidate.
pub trait Spec: Sized {
    spec fn spec_canon(&self) -> Seq<char>;

    spec fn spec_matcher(&self) -> MatchEnum;

    spec fn spec_exactness(&self) -> bool;

    /// The constraint's canonical text.
    fn get_spec(&self) -> (r: &str)
        ensures
            r@ == self.spec_canon(),
    ;

    /// The constraint's matcher.
    fn get_matcher(&self) -> (r: &MatchEnum)
        ensures
            *r == self.spec_matcher(),
    ;

    /// Whether the constraint denotes one fully-qualified version.
    fn is_exact(&self) -> (r: bool)
        ensures
            r == self.spec_exactness(),
    ;

    /// The raw value shown for this constraint: its canonical text.
    fn raw_value(&self) -> (r: &str)
        ensures
            r@ == self.spec_canon(),
    ;

    /// The canonical text, but only when the constraint is exact.
    fn exact_value(&self) -> (r: Option<&str>)
        ensures
            match r {
                Some(t) => self.spec_exactness() && t@ == self.spec_canon(),
                None => !self.spec_exactness(),
            },
    ;

    /// Does the candidate text satisfy the constraint?
    fn test_match(&self, other: &str) -> (r: bool)
        ensures
            r == eval_matcher(self.spec_matcher(), other@),
    ;
}

impl Spec for ConstraintSpec {
    open spec fn spec_canon(&self) -> Seq<char> {
        self.canonical_spec()
    }

    open spec fn spec_matcher(&self) -> MatchEnum {
        self.matcher_spec()
    }

    open spec fn spec_exactness(&self) -> bool {
        self.exact_spec()
    }

    fn get_spec(&self) -> (r: &str) {
        self.canonical.as_str()
    }

    fn get_matcher(&self) -> (r: &MatchEnum) {
        &self.matcher
    }

    fn is_exact(&self) -> (r: bool) {
        self.exact
    }

    fn raw_value(&self) -> (r: &str) {
        self.canonical.as_str()
    }

    fn exact_value(&self) -> (r: Option<&str>) {
        if self.exact {
            Some(self.canonical.as_str())
        } else {
            None
        }
    }

    fn test_match(&self, other: &str) -> (r: bool) {
        self.test(other)
    }
}

// ---------------------------------------------------------------------------
// Interning.
// ---------------------------------------------------------------------------

/// A registry that interns constraints by canonical text: canonically
/// equal constraints share one instance. One registry serves a resolver
/// session; all its parses go through it.
pub struct SpecRegistry {
    specs: Vec<ConstraintSpec>,
}

impl SpecRegistry {
    /// No two interned constraints share a canonical text.
    pub closed spec fn wf(&self) -> bool {
        forall|i: int, j: int|
            0 <= i < j < self.specs@.len() ==> #[trigger] self.specs@[i].canonical_spec()
                != #[trigger] self.specs@[j].canonical_spec()
    }

    pub closed spec fn len_spec(&self) -> nat {
        self.specs@.len()
    }

    pub closed spec fn spec_at(&self, i: int) -> ConstraintSpec {
        self.specs@[i]
    }

    pub open spec fn canon_at(&self, i: int) -> Seq<char> {
        self.spec_at(i).canonical_spec()
    }

    /// Does the registry hold a constraint with this canonical text?
    pub open spec fn holds_canon(&self, c: Seq<char>) -> bool {
        exists|j: int| 0 <= j < self.len_spec() && self.canon_at(j) == c
    }

    pub fn new() -> (r: SpecRegistry)
        ensures
            r.wf(),
            r.len_spec() == 0,
    {
        SpecRegistry { specs: Vec::new() }
    }

    pub fn len(&self) -> (r: usize)
        ensures
            r == self.len_spec(),
    {
        self.specs.len()
    }

    /// The interned constraint with the given identity.
    pub fn get(&self, id: usize) -> (r: &ConstraintSpec)
        requires
            id < self.len_spec(),
        ensures
            *r == self.spec_at(id as int),
    {
        &self.specs[id]
    }

    /// What interning guarantees: on success the returned identity names
    /// a constraint whose canonical text is that of the parsed text; when
    /// that canonical text was already interned, the registry is unchanged
    /// (the caller converges on the shared instance), otherwise the new
    /// constraint is appended and everything interned before stays put.
    pub open spec fn intern_ok_post(
        pre: SpecRegistry,
        post: SpecRegistry,
        text: Seq<char>,
        id: int,
    ) -> bool {
        &&& spec_parse_ok(text)
        &&& 0 <= id < post.len_spec()
        &&& post.canon_at(id) == spec_canonical(text)
        &&& if pre.holds_canon(spec_canonical(text)) {
            post == pre
        } else {
            &&& post.len_spec() == pre.len_spec() + 1
            &&& id == pre.len_spec()
            &&& forall|j: int| 0 <= j < pre.len_spec() ==> post.spec_at(j) == pre.spec_at(j)
        }
    }

    /// Parse a constraint and intern it by canonical text. When a
    /// constraint with the same canonical text is already interned, the
    /// registry is unchanged and its identity is returned: canonically
    /// equal constraints converge on one shared instance. Otherwise the
    /// new constraint is appended.
    #[verifier::loop_isolation(false)]
    pub fn parse_interned(&mut self, text: &str) -> (r: Result<usize, SpecError>)
        requires
            old(self).wf(),
        ensures
            final(self).wf(),
            intern_post(*old(self), *final(self), text@, r),
    {
        match ConstraintSpec::parse(text) {
            Err(e) => Err(e),
            Ok(cs) => {
                let n = self.specs.len();
                let mut i: usize = 0;
                while i < n
                    invariant
                        i <= n,
                        n == self.specs@.len(),
                        cs.canonical_spec() == spec_canonical(text@),
                        forall|j: int|
                            0 <= j < i ==> #[trigger] self.specs@[j].canonical_spec()
                                != cs.canonical_spec(),
                        self == old(self),
                    decreases n - i,
                {
                    if self.specs[i].same_constraint(&cs) {
                        proof {
                            assert(old(self).canon_at(i as int) == spec_canonical(text@));
                            assert(old(self).holds_canon(spec_canonical(text@)));
                        }
                        return Ok(i);
                    }
                    i += 1;
                }
                proof {
                    assert forall|j: int|
                        0 <= j < old(self).len_spec() implies old(self).canon_at(j)
                        != spec_canonical(text@) by {
                        assert(old(self).canon_at(j) == old(self).specs@[j].canonical_spec());
                    }
                    assert(!old(self).holds_canon(spec_canonical(text@)));
                }
                let ghost prev = self.specs@;
                self.specs.push(cs);
                proof {
                    assert forall|a: int, b: int|
                        0 <= a < b < self.specs@.len() implies #[trigger] self.specs@[
                        a].canonical_spec() != #[trigger] self.specs@[b].canonical_spec() by {
                        if b < prev.len() {
                            assert(self.specs@[a] == prev[a]);
                            assert(self.specs@[b] == prev[b]);
                        } else {
                            assert(self.specs@[b] == cs);
                            assert(self.specs@[a] == prev[a]);
                            assert(prev[a].canonical_spec() != cs.canonical_spec());
                        }
                    }
                    assert(self.canon_at(n as int) == spec_canonical(text@));
                    assert forall|j: int| 0 <= j < prev.len() implies self.spec_at(j) == old(
                        self,
                    ).spec_at(j) by {
                        assert(self.specs@[j] == prev[j]);
                    }
                }
                Ok(n)
            },
        }
    }
}

// ---------------------------------------------------------------------------
// Laws.
// ---------------------------------------------------------------------------

/// What a call of `parse_interned` guarantees, stated over the registry
/// before and after the call.
pub open spec fn intern_post(
    pre: SpecRegistry,
    post: SpecRegistry,
    text: Seq<char>,
    r: Result<usize, SpecError>,
) -> bool {
    match r {
        Ok(id) => SpecRegistry::intern_ok_post(pre, post, text, id as int),
        Err(e) => !spec_parse_ok(text) && e == spec_parse_err(text) && post == pre,
    }
}

/// The constraint `*` accepts every candidate: whatever matcher a parse
/// of the single-character text `*` yields evaluates to true on every
/// candidate text.
pub proof fn lemma_star_matches_all(m: MatchEnum, v: Seq<char>)
    requires
        spec_matcher_is(m, seq!['*']),
    ensures
        eval_matcher(m, v),
{
    let s = seq!['*'];
    assert(!crate::tree::is_special('*'));
    assert(!is_compound(s));
    assert(crate::matcher::leaf_kind(s) == crate::matcher::LeafKind::Star);
}

/// Interning converges: when two texts share their canonical text and the
/// registry already holds it, a parse of either returns the identity of
/// the one shared instance; the registry keeps a single constraint per
/// canonical text.
pub proof fn lemma_interning_shared(r: SpecRegistry, c: Seq<char>, id1: int, id2: int)
    requires
        r.wf(),
        0 <= id1 < r.len_spec(),
        0 <= id2 < r.len_spec(),
        r.canon_at(id1) == c,
        r.canon_at(id2) == c,
    ensures
        id1 == id2,
{
}

} // verus!
