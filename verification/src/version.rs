//! The version model: a version string is parsed into an ordered, comparable
//! structure of release segments and an optional local-identifier part.
//!
//! A segment is an alternating sequence of numeric and alphabetic runs
//! (`2013a` becomes `[2013, "a"]`). Versions that differ only in trailing
//! zero segments compare equal (`1.7` equals `1.7.0`); an alphabetic run
//! sorts below a numeric run at the same position, so `1.0.0a` sorts below
//! `1.0.0`.

use vstd::prelude::*;
use vstd::string::*;

use crate::errors::SpecError;

verus! {

/// Three-way comparison result used throughout the engine.
#[derive(Clone, Copy, PartialEq, Eq, Structural, Debug)]
pub enum Rel {
    Less,
    Equal,
    Greater,
}

/// One run inside a version segment: a maximal numeric run or a maximal
/// alphabetic run (the `*` character counts as alphabetic, so that starred
/// texts such as `1.0.0*` still order against plain versions).
#[derive(Debug)]
pub enum Atom {
    Num(u64),
    Alpha(Vec<char>),
}

/// Spec-level mirror of `Atom`.
pub enum AtomS {
    Num(int),
    Alpha(Seq<char>),
}

impl View for Atom {
    type V = AtomS;

    open spec fn view(&self) -> AtomS {
        match self {
            Atom::Num(n) => AtomS::Num(*n as int),
            Atom::Alpha(cs) => AtomS::Alpha(cs@),
        }
    }
}

/// A version segment: what stands between two separators.
pub type Segment = Vec<Atom>;

/// A parsed version: release segments, and local-identifier segments when
/// the text carried a `+` part.
#[derive(Debug)]
pub struct Version {
    pub release: Vec<Segment>,
    pub local: Option<Vec<Segment>>,
}

/// Spec-level mirror of `Version`.
pub struct VersionS {
    pub release: Seq<Seq<AtomS>>,
    pub local: Option<Seq<Seq<AtomS>>>,
}

pub open spec fn seg_view(s: Segment) -> Seq<AtomS> {
    s@.map_values(|a: Atom| a@)
}

pub open spec fn segs_view(v: Vec<Segment>) -> Seq<Seq<AtomS>> {
    v@.map_values(|s: Segment| seg_view(s))
}

impl View for Version {
    type V = VersionS;

    open spec fn view(&self) -> VersionS {
        VersionS {
            release: segs_view(self.release),
            local: match self.local {
                Some(l) => Some(segs_view(l)),
                None => None,
            },
        }
    }
}

// ---------------------------------------------------------------------------
// Character classes of the version alphabet.
// ---------------------------------------------------------------------------

pub open spec fn is_digit(c: char) -> bool {
    48 <= c as u32 <= 57
}

pub open spec fn is_alpha(c: char) -> bool {
    (65 <= c as u32 <= 90) || (97 <= c as u32 <= 122) || c as u32 == 42
}

pub open spec fn is_sep(c: char) -> bool {
    c == '.' || c == '-'
}

pub fn digit(c: char) -> (b: bool)
    ensures
        b == is_digit(c),
{
    let u = c as u32;
    48 <= u && u <= 57
}

pub fn alpha(c: char) -> (b: bool)
    ensures
        b == is_alpha(c),
{
    let u = c as u32;
    (65 <= u && u <= 90) || (97 <= u && u <= 122) || u == 42
}

// ---------------------------------------------------------------------------
// Comparison.
// ---------------------------------------------------------------------------

pub open spec fn cmp_int(a: int, b: int) -> Rel {
    if a < b {
        Rel::Less
    } else if a == b {
        Rel::Equal
    } else {
        Rel::Greater
    }
}

pub open spec fn max2(a: nat, b: nat) -> nat {
    if a > b {
        a
    } else {
        b
    }
}

/// Lexicographic comparison of two alphabetic runs from position `i` on.
pub open spec fn cmp_chars_from(a: Seq<char>, b: Seq<char>, i: nat) -> Rel
    decreases max2(a.len(), b.len()) - i,
{
    if i >= a.len() && i >= b.len() {
        Rel::Equal
    } else if i >= a.len() {
        Rel::Less
    } else if i >= b.len() {
        Rel::Greater
    } else {
        let r = cmp_int(a[i as int] as u32 as int, b[i as int] as u32 as int);
        if r == Rel::Equal {
            cmp_chars_from(a, b, i + 1)
        } else {
            r
        }
    }
}

pub open spec fn cmp_chars(a: Seq<char>, b: Seq<char>) -> Rel {
    cmp_chars_from(a, b, 0)
}

/// An alphabetic run sorts below a numeric run at the same position.
pub open spec fn cmp_atoms(a: AtomS, b: AtomS) -> Rel {
    match (a, b) {
        (AtomS::Num(x), AtomS::Num(y)) => cmp_int(x, y),
        (AtomS::Alpha(x), AtomS::Alpha(y)) => cmp_chars(x, y),
        (AtomS::Alpha(_), AtomS::Num(_)) => Rel::Less,
        (AtomS::Num(_), AtomS::Alpha(_)) => Rel::Greater,
    }
}

pub open spec fn zero_atom() -> AtomS {
    AtomS::Num(0)
}

/// The atom at position `i`, a missing trailing atom counting as zero.
pub open spec fn atom_at(s: Seq<AtomS>, i: int) -> AtomS {
    if 0 <= i < s.len() {
        s[i]
    } else {
        zero_atom()
    }
}

/// Compare two segments atom by atom from position `i`, the shorter one
/// padded with zero atoms.
pub open spec fn cmp_segs_from(s: Seq<AtomS>, t: Seq<AtomS>, i: nat) -> Rel
    decreases max2(s.len(), t.len()) - i,
{
    if i >= s.len() && i >= t.len() {
        Rel::Equal
    } else {
        let r = cmp_atoms(atom_at(s, i as int), atom_at(t, i as int));
        if r == Rel::Equal {
            cmp_segs_from(s, t, i + 1)
        } else {
            r
        }
    }
}

pub open spec fn cmp_segs(s: Seq<AtomS>, t: Seq<AtomS>) -> Rel {
    cmp_segs_from(s, t, 0)
}

pub open spec fn zero_seg() -> Seq<AtomS> {
    seq![zero_atom()]
}

/// The segment at position `i`, a missing trailing segment counting as the
/// zero segment.
pub open spec fn seg_at(v: Seq<Seq<AtomS>>, i: int) -> Seq<AtomS> {
    if 0 <= i < v.len() {
        v[i]
    } else {
        zero_seg()
    }
}

/// Compare two segment lists element-wise from position `i`, the shorter
/// one padded with zero segments; this bakes in trailing-zero equivalence.
pub open spec fn cmp_seglists_from(x: Seq<Seq<AtomS>>, y: Seq<Seq<AtomS>>, i: nat) -> Rel
    decreases max2(x.len(), y.len()) - i,
{
    if i >= x.len() && i >= y.len() {
        Rel::Equal
    } else {
        let r = cmp_segs(seg_at(x, i as int), seg_at(y, i as int));
        if r == Rel::Equal {
            cmp_seglists_from(x, y, i + 1)
        } else {
            r
        }
    }
}

pub open spec fn cmp_seglists(x: Seq<Seq<AtomS>>, y: Seq<Seq<AtomS>>) -> Rel {
    cmp_seglists_from(x, y, 0)
}

/// Total order on versions: release segments first; local identifiers are
/// compared only when both sides declare one, and a version without a local
/// identifier sorts below one with it.
pub open spec fn cmp_version(a: VersionS, b: VersionS) -> Rel {
    let r = cmp_seglists(a.release, b.release);
    if r != Rel::Equal {
        r
    } else {
        match (a.local, b.local) {
            (Option::None, Option::None) => Rel::Equal,
            (Option::None, Option::Some(_)) => Rel::Less,
            (Option::Some(_), Option::None) => Rel::Greater,
            (Option::Some(la), Option::Some(lb)) => cmp_seglists(la, lb),
        }
    }
}

// ---------------------------------------------------------------------------
// Executable comparison.
// ---------------------------------------------------------------------------

pub fn cmp_chars_exec(a: &Vec<char>, b: &Vec<char>) -> (r: Rel)
    ensures
        r == cmp_chars(a@, b@),
{
    let mut i: usize = 0;
    loop
        invariant
            i <= a.len() || i <= b.len() || (i <= a.len() + b.len()),
            cmp_chars(a@, b@) == cmp_chars_from(a@, b@, i as nat),
        decreases a.len() + b.len() - i,
    {
        if i >= a.len() && i >= b.len() {
            return Rel::Equal;
        } else if i >= a.len() {
            return Rel::Less;
        } else if i >= b.len() {
            return Rel::Greater;
        } else {
            let x = a[i] as u32;
            let y = b[i] as u32;
            if x < y {
                return Rel::Less;
            } else if x > y {
                return Rel::Greater;
            }
        }
        i += 1;
    }
}

pub fn cmp_atoms_exec(a: &Atom, b: &Atom) -> (r: Rel)
    ensures
        r == cmp_atoms(a@, b@),
{
    match (a, b) {
        (Atom::Num(x), Atom::Num(y)) => {
            if x < y {
                Rel::Less
            } else if x == y {
                Rel::Equal
            } else {
                Rel::Greater
            }
        },
        (Atom::Alpha(x), Atom::Alpha(y)) => cmp_chars_exec(x, y),
        (Atom::Alpha(_), Atom::Num(_)) => Rel::Less,
        (Atom::Num(_), Atom::Alpha(_)) => Rel::Greater,
    }
}

/// The atom at position `i` of a segment, zero when past the end.
fn atom_at_exec(s: &Segment, i: usize) -> (a: Atom)
    ensures
        a@ == atom_at(seg_view(*s), i as int),
{
    if i < s.len() {
        proof {
            assert(seg_view(*s)[i as int] == s@[i as int]@);
        }
        s[i].clone_atom()
    } else {
        Atom::Num(0)
    }
}

impl Atom {
    /// Clone keeps the value.
    pub fn clone_atom(&self) -> (r: Atom)
        ensures
            r@ == self@,
    {
        match self {
            Atom::Num(n) => Atom::Num(*n),
            Atom::Alpha(cs) => {
                let mut v: Vec<char> = Vec::new();
                let mut i: usize = 0;
                while i < cs.len()
                    invariant
                        i <= cs.len(),
                        v@ == cs@.subrange(0, i as int),
                    decreases cs.len() - i,
                {
                    v.push(cs[i]);
                    i += 1;
                }
                proof {
                    assert(v@ =~= cs@);
                }
                Atom::Alpha(v)
            },
        }
    }
}

pub fn cmp_segs_exec(s: &Segment, t: &Segment) -> (r: Rel)
    ensures
        r == cmp_segs(seg_view(*s), seg_view(*t)),
{
    let mut i: usize = 0;
    loop
        invariant
            cmp_segs(seg_view(*s), seg_view(*t)) == cmp_segs_from(
                seg_view(*s),
                seg_view(*t),
                i as nat,
            ),
            i <= s.len() + t.len(),
        decreases s.len() + t.len() - i,
    {
        proof {
            assert(seg_view(*s).len() == s@.len());
            assert(seg_view(*t).len() == t@.len());
        }
        if i >= s.len() && i >= t.len() {
            return Rel::Equal;
        }
        let x = atom_at_exec(s, i);
        let y = atom_at_exec(t, i);
        let r = cmp_atoms_exec(&x, &y);
        if !matches!(r, Rel::Equal) {
            return r;
        }
        i += 1;
    }
}

/// The segment at position `i` of a segment list, the zero segment when
/// past the end.
fn seg_at_exec(v: &Vec<Segment>, i: usize) -> (s: Segment)
    ensures
        seg_view(s) == seg_at(segs_view(*v), i as int),
{
    if i < v.len() {
        proof {
            assert(segs_view(*v)[i as int] == seg_view(v@[i as int]));
        }
        clone_segment(&v[i])
    } else {
        let s: Segment = vec![Atom::Num(0)];
        proof {
            assert(seg_view(s) =~= zero_seg());
        }
        s
    }
}

pub fn clone_segment(s: &Segment) -> (r: Segment)
    ensures
        seg_view(r) == seg_view(*s),
{
    let mut v: Segment = Vec::new();
    let mut i: usize = 0;
    while i < s.len()
        invariant
            i <= s.len(),
            v@.len() == i,
            forall|j: int| 0 <= j < i ==> v@[j]@ == s@[j]@,
        decreases s.len() - i,
    {
        v.push(s[i].clone_atom());
        i += 1;
    }
    proof {
        assert(seg_view(v) =~= seg_view(*s));
    }
    v
}

pub fn cmp_seglists_exec(x: &Vec<Segment>, y: &Vec<Segment>) -> (r: Rel)
    ensures
        r == cmp_seglists(segs_view(*x), segs_view(*y)),
{
    let mut i: usize = 0;
    loop
        invariant
            cmp_seglists(segs_view(*x), segs_view(*y)) == cmp_seglists_from(
                segs_view(*x),
                segs_view(*y),
                i as nat,
            ),
            i <= x.len() + y.len(),
        decreases x.len() + y.len() - i,
    {
        proof {
            assert(segs_view(*x).len() == x@.len());
            assert(segs_view(*y).len() == y@.len());
        }
        if i >= x.len() && i >= y.len() {
            return Rel::Equal;
        }
        let s = seg_at_exec(x, i);
        let t = seg_at_exec(y, i);
        let r = cmp_segs_exec(&s, &t);
        if !matches!(r, Rel::Equal) {
            return r;
        }
        i += 1;
    }
}

// ---------------------------------------------------------------------------
// Trailing-zero equivalence.
// ---------------------------------------------------------------------------

proof fn lemma_cmp_chars_refl(a: Seq<char>, i: nat)
    ensures
        cmp_chars_from(a, a, i) == Rel::Equal,
    decreases a.len() - i,
{
    if i < a.len() {
        lemma_cmp_chars_refl(a, i + 1);
    }
}

proof fn lemma_cmp_atoms_refl(a: AtomS)
    ensures
        cmp_atoms(a, a) == Rel::Equal,
{
    match a {
        AtomS::Num(_) => {},
        AtomS::Alpha(x) => {
            lemma_cmp_chars_refl(x, 0);
        },
    }
}

proof fn lemma_cmp_segs_refl(s: Seq<AtomS>, i: nat)
    ensures
        cmp_segs_from(s, s, i) == Rel::Equal,
    decreases s.len() - i,
{
    if i < s.len() {
        lemma_cmp_atoms_refl(atom_at(s, i as int));
        lemma_cmp_segs_refl(s, i + 1);
    } else {
        lemma_cmp_atoms_refl(zero_atom());
    }
}

proof fn lemma_cmp_seglists_refl(x: Seq<Seq<AtomS>>, i: nat)
    ensures
        cmp_seglists_from(x, x, i) == Rel::Equal,
    decreases x.len() - i,
{
    if i < x.len() {
        lemma_cmp_segs_refl(seg_at(x, i as int), 0);
        lemma_cmp_seglists_refl(x, i + 1);
    }
}

proof fn lemma_cmp_seglists_push_zero(x: Seq<Seq<AtomS>>, i: nat)
    ensures
        cmp_seglists_from(x, x.push(zero_seg()), i) == Rel::Equal,
    decreases x.len() + 1 - i,
{
    if i < x.len() {
        assert(seg_at(x.push(zero_seg()), i as int) == seg_at(x, i as int));
        lemma_cmp_segs_refl(seg_at(x, i as int), 0);
        lemma_cmp_seglists_push_zero(x, i + 1);
    } else if i == x.len() {
        assert(seg_at(x.push(zero_seg()), i as int) == zero_seg());
        assert(seg_at(x, i as int) == zero_seg());
        lemma_cmp_segs_refl(zero_seg(), 0);
        lemma_cmp_seglists_push_zero(x, i + 1);
    }
}

/// Law: every version compares equal to itself.
pub proof fn lemma_cmp_version_refl(a: VersionS)
    ensures
        cmp_version(a, a) == Rel::Equal,
{
    lemma_cmp_seglists_refl(a.release, 0);
    match a.local {
        Some(l) => {
            lemma_cmp_seglists_refl(l, 0);
        },
        None => {},
    }
}

/// Law: trailing-zero equivalence. A version compares equal to the same
/// version with one more explicit zero release segment, so `1.7` and
/// `1.7.0` are the same version under every comparison operator.
pub proof fn lemma_trailing_zero_equal(a: VersionS)
    ensures
        cmp_version(
            a,
            VersionS { release: a.release.push(zero_seg()), local: a.local },
        ) == Rel::Equal,
{
    lemma_cmp_seglists_push_zero(a.release, 0);
    match a.local {
        Some(l) => {
            lemma_cmp_seglists_refl(l, 0);
        },
        None => {},
    }
}

// ---------------------------------------------------------------------------
// Prefix (wildcard) matching.
// ---------------------------------------------------------------------------

/// Does atom `t` begin with atom `o`? A numeric atom is a prefix only of
/// itself; an alphabetic atom is a prefix of any alphabetic atom whose run
/// of characters begins with it.
pub open spec fn atom_is_prefix(t: AtomS, o: AtomS) -> bool {
    match o {
        AtomS::Num(n) => t == AtomS::Num(n),
        AtomS::Alpha(oc) => match t {
            AtomS::Alpha(tc) => oc.is_prefix_of(tc),
            AtomS::Num(_) => false,
        },
    }
}

/// Does segment `t` begin with segment `o`? All atoms of `o` but the last
/// must equal the corresponding atom of `t` (zero-padded); the last atom of
/// `o` must be a prefix of the corresponding atom of `t`.
pub open spec fn seg_prefix_match(t: Seq<AtomS>, o: Seq<AtomS>) -> bool {
    o.len() > 0 ==> {
        let k = o.len() - 1;
        (forall|j: int|
            0 <= j < k ==> cmp_atoms(atom_at(t, j), atom_at(o, j)) == Rel::Equal) && atom_is_prefix(
            atom_at(t, k as int),
            o[k as int],
        )
    }
}

/// Does segment list `t` begin with segment list `o`? All segments of `o`
/// but the last must equal the corresponding segment of `t` (zero-padded);
/// the last segment of `o` must be a segment prefix of the corresponding
/// segment of `t`. An empty `o` matches everything.
pub open spec fn seglist_prefix_match(t: Seq<Seq<AtomS>>, o: Seq<Seq<AtomS>>) -> bool {
    o.len() > 0 ==> {
        let k = o.len() - 1;
        (forall|j: int|
            0 <= j < k ==> cmp_segs(seg_at(t, j), seg_at(o, j)) == Rel::Equal) && seg_prefix_match(
            seg_at(t, k as int),
            o[k as int],
        )
    }
}

pub open spec fn local_segs(v: VersionS) -> Seq<Seq<AtomS>> {
    match v.local {
        Some(l) => l,
        None => Seq::empty(),
    }
}

/// Does version `v` begin with prefix version `p`, segment for segment?
/// When `p` carries a local identifier, the release parts must compare
/// equal and the prefix test applies to the local parts; otherwise it
/// applies to the release parts. There is no zero-padding leniency on the
/// prefix itself: `1.0.1` does not begin with `1.0.0`.
pub open spec fn starts_with(v: VersionS, p: VersionS) -> bool {
    match p.local {
        Some(pl) => cmp_seglists(v.release, p.release) == Rel::Equal && seglist_prefix_match(
            local_segs(v),
            pl,
        ),
        None => seglist_prefix_match(v.release, p.release),
    }
}

fn is_char_prefix(oc: &Vec<char>, tc: &Vec<char>) -> (b: bool)
    ensures
        b == oc@.is_prefix_of(tc@),
{
    if oc.len() > tc.len() {
        return false;
    }
    let mut i: usize = 0;
    while i < oc.len()
        invariant
            i <= oc.len() <= tc.len(),
            forall|j: int| 0 <= j < i ==> oc@[j] == tc@[j],
        decreases oc.len() - i,
    {
        if oc[i] != tc[i] {
            proof {
                assert(oc@[i as int] != tc@.subrange(0, oc@.len() as int)[i as int]);
            }
            return false;
        }
        i += 1;
    }
    proof {
        assert(oc@ =~= tc@.subrange(0, oc@.len() as int));
    }
    true
}

fn atom_is_prefix_exec(t: &Atom, o: &Atom) -> (b: bool)
    ensures
        b == atom_is_prefix(t@, o@),
{
    match (t, o) {
        (Atom::Num(x), Atom::Num(y)) => x == y,
        (Atom::Alpha(tc), Atom::Alpha(oc)) => is_char_prefix(oc, tc),
        _ => false,
    }
}

fn seg_prefix_exec(t: &Segment, o: &Segment) -> (b: bool)
    ensures
        b == seg_prefix_match(seg_view(*t), seg_view(*o)),
{
    if o.len() == 0 {
        return true;
    }
    let k = o.len() - 1;
    let mut j: usize = 0;
    while j < k
        invariant
            k == o.len() - 1,
            o.len() >= 1,
            j <= k,
            forall|j2: int|
                0 <= j2 < j ==> cmp_atoms(
                    atom_at(seg_view(*t), j2),
                    atom_at(seg_view(*o), j2),
                ) == Rel::Equal,
        decreases k - j,
    {
        let x = atom_at_exec(t, j);
        let y = atom_at_exec(o, j);
        let r = cmp_atoms_exec(&x, &y);
        if !matches!(r, Rel::Equal) {
            proof {
                assert(cmp_atoms(atom_at(seg_view(*t), j as int), atom_at(seg_view(*o), j as int))
                    != Rel::Equal);
            }
            return false;
        }
        j += 1;
    }
    let tk = atom_at_exec(t, k);
    proof {
        assert(seg_view(*o)[k as int] == o@[k as int]@);
    }
    atom_is_prefix_exec(&tk, &o[k])
}

fn seglist_prefix_exec(t: &Vec<Segment>, o: &Vec<Segment>) -> (b: bool)
    ensures
        b == seglist_prefix_match(segs_view(*t), segs_view(*o)),
{
    if o.len() == 0 {
        return true;
    }
    let k = o.len() - 1;
    let mut j: usize = 0;
    while j < k
        invariant
            k == o.len() - 1,
            o.len() >= 1,
            j <= k,
            forall|j2: int|
                0 <= j2 < j ==> cmp_segs(
                    seg_at(segs_view(*t), j2),
                    seg_at(segs_view(*o), j2),
                ) == Rel::Equal,
        decreases k - j,
    {
        let x = seg_at_exec(t, j);
        let y = seg_at_exec(o, j);
        let r = cmp_segs_exec(&x, &y);
        if !matches!(r, Rel::Equal) {
            proof {
                assert(cmp_segs(seg_at(segs_view(*t), j as int), seg_at(segs_view(*o), j as int))
                    != Rel::Equal);
            }
            return false;
        }
        j += 1;
    }
    let tk = seg_at_exec(t, k);
    proof {
        assert(segs_view(*o)[k as int] == seg_view(o@[k as int]));
    }
    seg_prefix_exec(&tk, &o[k])
}

impl Version {
    /// Does this version begin with the given prefix version?
    pub fn begins_with(&self, p: &Version) -> (b: bool)
        ensures
            b == starts_with(self@, p@),
    {
        match &p.local {
            Some(pl) => {
                let r = cmp_seglists_exec(&self.release, &p.release);
                if !matches!(r, Rel::Equal) {
                    return false;
                }
                match &self.local {
                    Some(vl) => seglist_prefix_exec(vl, pl),
                    None => {
                        let empty: Vec<Segment> = Vec::new();
                        proof {
                            assert(segs_view(empty) =~= local_segs(self@));
                        }
                        seglist_prefix_exec(&empty, pl)
                    },
                }
            },
            None => seglist_prefix_exec(&self.release, &p.release),
        }
    }
}

impl Version {
    /// Total comparison of two parsed versions.
    pub fn compare(&self, other: &Version) -> (r: Rel)
        ensures
            r == cmp_version(self@, other@),
    {
        let r = cmp_seglists_exec(&self.release, &other.release);
        if !matches!(r, Rel::Equal) {
            return r;
        }
        match (&self.local, &other.local) {
            (Option::None, Option::None) => Rel::Equal,
            (Option::None, Option::Some(_)) => Rel::Less,
            (Option::Some(_), Option::None) => Rel::Greater,
            (Option::Some(la), Option::Some(lb)) => cmp_seglists_exec(la, lb),
        }
    }
}

// ---------------------------------------------------------------------------
// Parsing. The tokenizer is a single left-to-right pass described by the
// spec-level step function below; the executable parser mirrors it.
// ---------------------------------------------------------------------------

/// The tokenizer state after some prefix of the text has been read.
pub struct ParseSt {
    /// False once an ill-formed character sequence has been seen.
    pub ok: bool,
    /// Completed release segments.
    pub release: Seq<Seq<AtomS>>,
    /// Completed local-identifier segments; `Some` once a `+` was read.
    pub local: Option<Seq<Seq<AtomS>>>,
    /// Completed runs of the segment being read.
    pub cur: Seq<AtomS>,
    /// The run being read; `None` directly after a separator or at start.
    pub run: Option<AtomS>,
}

pub open spec fn init_st() -> ParseSt {
    ParseSt { ok: true, release: seq![], local: None, cur: seq![], run: None }
}

pub open spec fn fail_st(st: ParseSt) -> ParseSt {
    ParseSt { ok: false, ..st }
}

/// Close the current segment and append it to the part being built.
pub open spec fn close_segment(st: ParseSt) -> ParseSt {
    let seg = st.cur.push(st.run->0);
    match st.local {
        Some(l) => ParseSt { local: Some(l.push(seg)), cur: seq![], run: None, ..st },
        None => ParseSt { release: st.release.push(seg), cur: seq![], run: None, ..st },
    }
}

/// One step of the tokenizer. Space characters are skipped; `.` and `-`
/// close a segment; `+` closes the release part and opens the local part;
/// digits and alphabetic characters extend or start a run; anything else
/// is rejected, as is an empty segment, a second `+`, or a numeric run
/// beyond the 64-bit range.
pub open spec fn step(st: ParseSt, c: char) -> ParseSt {
    if !st.ok {
        st
    } else if c == ' ' {
        st
    } else if is_digit(c) {
        let d = c as u32 - 48;
        match st.run {
            Some(AtomS::Num(n)) => if n * 10 + d > u64::MAX {
                fail_st(st)
            } else {
                ParseSt { run: Some(AtomS::Num(n * 10 + d)), ..st }
            },
            Some(AtomS::Alpha(a)) => ParseSt {
                cur: st.cur.push(AtomS::Alpha(a)),
                run: Some(AtomS::Num(d as int)),
                ..st
            },
            None => ParseSt { run: Some(AtomS::Num(d as int)), ..st },
        }
    } else if is_alpha(c) {
        match st.run {
            Some(AtomS::Alpha(a)) => ParseSt { run: Some(AtomS::Alpha(a.push(c))), ..st },
            Some(AtomS::Num(n)) => ParseSt {
                cur: st.cur.push(AtomS::Num(n)),
                run: Some(AtomS::Alpha(seq![c])),
                ..st
            },
            None => ParseSt { run: Some(AtomS::Alpha(seq![c])), ..st },
        }
    } else if is_sep(c) {
        if st.run is None {
            fail_st(st)
        } else {
            close_segment(st)
        }
    } else if c == '+' {
        if st.run is None || st.local is Some {
            fail_st(st)
        } else {
            ParseSt { local: Some(seq![]), ..close_segment(st) }
        }
    } else {
        fail_st(st)
    }
}

/// The tokenizer state after the first `i` characters of `s`.
pub open spec fn fold_st(s: Seq<char>, i: int) -> ParseSt
    decreases i,
{
    if i <= 0 {
        init_st()
    } else {
        step(fold_st(s, i - 1), s[i - 1])
    }
}

/// What a version text denotes: `None` when the text is rejected. A text
/// is rejected when it is empty, holds a character outside the version
/// alphabet, has an empty segment, more than one `+`, or a numeric run
/// beyond the 64-bit range.
pub open spec fn parse_version(s: Seq<char>) -> Option<VersionS> {
    let st = fold_st(s, s.len() as int);
    if !st.ok || st.run is None {
        None
    } else {
        let fin = close_segment(st);
        Some(VersionS { release: fin.release, local: fin.local })
    }
}

/// Remove the trailing run of `*` and `.` characters, as done before a
/// trailing-wildcard text is parsed as a version prefix.
pub open spec fn trim_stars(s: Seq<char>) -> Seq<char>
    decreases s.len(),
{
    if s.len() > 0 && (s.last() == '*' || s.last() == '.') {
        trim_stars(s.drop_last())
    } else {
        s
    }
}

pub fn trim_stars_exec(s: &Vec<char>) -> (r: Vec<char>)
    ensures
        r@ == trim_stars(s@),
{
    let mut end = s.len();
    proof {
        assert(s@.take(s@.len() as int) =~= s@);
    }
    while end > 0 && (s[end - 1] == '*' || s[end - 1] == '.')
        invariant
            end <= s@.len(),
            trim_stars(s@) == trim_stars(s@.take(end as int)),
        decreases end,
    {
        proof {
            assert(s@.take(end as int).last() == s@[end - 1]);
            assert(s@.take(end as int).drop_last() =~= s@.take(end - 1 as int));
        }
        end -= 1;
    }
    let mut r: Vec<char> = Vec::new();
    let mut i: usize = 0;
    while i < end
        invariant
            i <= end <= s@.len(),
            r@ == s@.subrange(0, i as int),
        decreases end - i,
    {
        r.push(s[i]);
        proof {
            assert(r@ =~= s@.subrange(0, i + 1 as int));
        }
        i += 1;
    }
    proof {
        if end > 0 {
            assert(s@.take(end as int).last() == s@[end - 1]);
        }
        assert(trim_stars(s@.take(end as int)) == s@.take(end as int));
        assert(r@ =~= s@.take(end as int));
    }
    r
}

proof fn lemma_err_sticky(s: Seq<char>, i: int, j: int)
    requires
        0 <= i <= j,
        !fold_st(s, i).ok,
    ensures
        !fold_st(s, j).ok,
    decreases j - i,
{
    if j > i {
        lemma_err_sticky(s, i, j - 1);
    }
}

/// Read the characters of a string into a vector.
pub fn chars_of(s: &str) -> (v: Vec<char>)
    ensures
        v@ == s@,
{
    let n = s.unicode_len();
    let mut v: Vec<char> = Vec::new();
    let mut i: usize = 0;
    while i < n
        invariant
            i <= n,
            n == s@.len(),
            v@ == s@.subrange(0, i as int),
        decreases n - i,
    {
        v.push(s.get_char(i));
        proof {
            assert(v@ =~= s@.subrange(0, i + 1 as int));
        }
        i += 1;
    }
    proof {
        assert(v@ =~= s@);
    }
    v
}

impl Version {
    /// Parse a version text. Fails exactly when the spec-level tokenizer
    /// rejects the text.
    pub fn parse(text: &str) -> (r: Result<Version, SpecError>)
        ensures
            match r {
                Ok(v) => parse_version(text@) == Some(v@),
                Err(e) => parse_version(text@) is None && e == SpecError::VersionParse,
            },
    {
        let chars = chars_of(text);
        Self::parse_chars(&chars)
    }

    /// Parse a version from a character vector.
    pub fn parse_chars(chars: &Vec<char>) -> (r: Result<Version, SpecError>)
        ensures
            match r {
                Ok(v) => parse_version(chars@) == Some(v@),
                Err(e) => parse_version(chars@) is None && e == SpecError::VersionParse,
            },
    {
        let n = chars.len();
        let mut release: Vec<Segment> = Vec::new();
        let mut local: Option<Vec<Segment>> = None;
        let mut cur: Segment = Vec::new();
        let mut run: Option<Atom> = None;
        let mut i: usize = 0;
        proof {
            assert(segs_view(release) =~= seq![]);
            assert(seg_view(cur) =~= seq![]);
        }
        while i < n
            invariant
                i <= n,
                n == chars@.len(),
                fold_st(chars@, i as int) == (ParseSt {
                    ok: true,
                    release: segs_view(release),
                    local: match local {
                        Some(l) => Some(segs_view(l)),
                        None => None,
                    },
                    cur: seg_view(cur),
                    run: match run {
                        Some(a) => Some(a@),
                        None => None,
                    },
                }),
            decreases n - i,
        {
            let ghost st = fold_st(chars@, i as int);
            proof {
                assert(fold_st(chars@, i + 1 as int) == step(st, chars@[i as int]));
            }
            let c = chars[i];
            if c == ' ' {
                // skipped
            } else if digit(c) {
                let d = (c as u32 - 48) as u64;
                let prev = run;
                match prev {
                    Some(Atom::Num(nv)) => {
                        let m = nv.checked_mul(10);
                        match m {
                            Some(m1) => {
                                match m1.checked_add(d) {
                                    Some(v2) => {
                                        run = Some(Atom::Num(v2));
                                    },
                                    None => {
                                        proof {
                                            lemma_err_sticky(chars@, i + 1, n as int);
                                        }
                                        return Err(SpecError::VersionParse);
                                    },
                                }
                            },
                            None => {
                                proof {
                                    lemma_err_sticky(chars@, i + 1, n as int);
                                }
                                return Err(SpecError::VersionParse);
                            },
                        }
                    },
                    Some(Atom::Alpha(a)) => {
                        cur.push(Atom::Alpha(a));
                        run = Some(Atom::Num(d));
                        proof {
                            assert(seg_view(cur) =~= st.cur.push(AtomS::Alpha(a@)));
                        }
                    },
                    None => {
                        run = Some(Atom::Num(d));
                    },
                }
            } else if alpha(c) {
                let prev = run;
                match prev {
                    Some(Atom::Alpha(mut a)) => {
                        a.push(c);
                        run = Some(Atom::Alpha(a));
                    },
                    Some(Atom::Num(nv)) => {
                        cur.push(Atom::Num(nv));
                        let single: Vec<char> = vec![c];
                        proof {
                            assert(seg_view(cur) =~= st.cur.push(AtomS::Num(nv as int)));
                            assert(single@ =~= seq![c]);
                        }
                        run = Some(Atom::Alpha(single));
                    },
                    None => {
                        let single: Vec<char> = vec![c];
                        proof {
                            assert(single@ =~= seq![c]);
                        }
                        run = Some(Atom::Alpha(single));
                    },
                }
            } else if c == '.' || c == '-' {
                let prev = run;
                match prev {
                    None => {
                        proof {
                            lemma_err_sticky(chars@, i + 1, n as int);
                        }
                        return Err(SpecError::VersionParse);
                    },
                    Some(a) => {
                        let mut seg = cur;
                        seg.push(a);
                        cur = Vec::new();
                        run = None;
                        proof {
                            assert(seg_view(seg) =~= st.cur.push(st.run->0));
                            assert(seg_view(cur) =~= Seq::<AtomS>::empty());
                        }
                        let lv = local;
                        match lv {
                            Some(mut l) => {
                                l.push(seg);
                                proof {
                                    assert(segs_view(l) =~= close_segment(st).local->0);
                                }
                                local = Some(l);
                            },
                            None => {
                                release.push(seg);
                                proof {
                                    assert(segs_view(release) =~= close_segment(st).release);
                                }
                                local = None;
                            },
                        }
                    },
                }
            } else if c == '+' {
                let prev = run;
                let already = local.is_some();
                match prev {
                    None => {
                        proof {
                            lemma_err_sticky(chars@, i + 1, n as int);
                        }
                        return Err(SpecError::VersionParse);
                    },
                    Some(a) => {
                        if already {
                            proof {
                                lemma_err_sticky(chars@, i + 1, n as int);
                            }
                            return Err(SpecError::VersionParse);
                        }
                        let mut seg = cur;
                        seg.push(a);
                        cur = Vec::new();
                        run = None;
                        release.push(seg);
                        let fresh: Vec<Segment> = Vec::new();
                        proof {
                            assert(seg_view(seg) =~= st.cur.push(st.run->0));
                            assert(seg_view(cur) =~= Seq::<AtomS>::empty());
                            assert(segs_view(release) =~= close_segment(st).release);
                            assert(segs_view(fresh) =~= Seq::<Seq<AtomS>>::empty());
                        }
                        local = Some(fresh);
                    },
                }
            } else {
                proof {
                    lemma_err_sticky(chars@, i + 1, n as int);
                }
                return Err(SpecError::VersionParse);
            }
            i += 1;
        }
        let ghost st = fold_st(chars@, n as int);
        let prev = run;
        match prev {
            None => Err(SpecError::VersionParse),
            Some(a) => {
                let mut seg = cur;
                seg.push(a);
                proof {
                    assert(seg_view(seg) =~= st.cur.push(st.run->0));
                }
                let lv = local;
                match lv {
                    Some(mut l) => {
                        l.push(seg);
                        proof {
                            assert(segs_view(l) =~= close_segment(st).local->0);
                        }
                        Ok(Version { release, local: Some(l) })
                    },
                    None => {
                        release.push(seg);
                        proof {
                            assert(segs_view(release) =~= close_segment(st).release);
                        }
                        Ok(Version { release, local: None })
                    },
                }
            },
        }
    }
}

} // verus!
