//! Comparison operators: their textual tokens and their evaluation
//! semantics on top of version comparison.

use vstd::prelude::*;

use crate::version::{cmp_version, starts_with, Rel, Segment, Version, VersionS};

verus! {

/// The recognized comparison operators. `CompatibleEqual` is the single
/// `=`; `NotEqualStartsWith` is derived from `!=X.*`; `StartsWith` serves
/// bare trailing-`*` wildcard constraints.
#[derive(Clone, Copy, PartialEq, Eq, Structural, Debug)]
pub enum CompOp {
    StrictEqual,
    CompatibleEqual,
    NotEqual,
    NotEqualStartsWith,
    Less,
    LessEqual,
    Greater,
    GreaterEqual,
    CompatibleRelease,
    StartsWith,
}

pub open spec fn is_op_char(c: char) -> bool {
    c == '=' || c == '<' || c == '>' || c == '!' || c == '~'
}

pub fn op_char(c: char) -> (b: bool)
    ensures
        b == is_op_char(c),
{
    c == '=' || c == '<' || c == '>' || c == '!' || c == '~'
}

pub open spec fn two_char_op(a: char, b: char) -> Option<CompOp> {
    if a == '=' && b == '=' {
        Some(CompOp::StrictEqual)
    } else if a == '!' && b == '=' {
        Some(CompOp::NotEqual)
    } else if a == '<' && b == '=' {
        Some(CompOp::LessEqual)
    } else if a == '>' && b == '=' {
        Some(CompOp::GreaterEqual)
    } else if a == '~' && b == '=' {
        Some(CompOp::CompatibleRelease)
    } else {
        None
    }
}

pub open spec fn one_char_op(a: char) -> Option<CompOp> {
    if a == '=' {
        Some(CompOp::CompatibleEqual)
    } else if a == '<' {
        Some(CompOp::Less)
    } else if a == '>' {
        Some(CompOp::Greater)
    } else {
        None
    }
}

/// What must hold of the text after an operator token: nonempty, not
/// opening with a further operator character, and free of spaces.
pub open spec fn ok_op_rest(rest: Seq<char>) -> bool {
    rest.len() > 0 && !is_op_char(rest[0]) && (forall|i: int| 0 <= i < rest.len() ==> rest[i] != ' ')
}

/// Split an operator-led text into its operator and the version text:
/// the longest valid operator token such that the character following it
/// is not itself an operator character.
pub open spec fn split_op(s: Seq<char>) -> Option<(CompOp, Seq<char>)> {
    if s.len() >= 2 && two_char_op(s[0], s[1]) is Some {
        let rest = s.skip(2);
        if ok_op_rest(rest) {
            Some((two_char_op(s[0], s[1])->0, rest))
        } else {
            None
        }
    } else if s.len() >= 1 && one_char_op(s[0]) is Some {
        let rest = s.skip(1);
        if ok_op_rest(rest) {
            Some((one_char_op(s[0])->0, rest))
        } else {
            None
        }
    } else {
        None
    }
}

/// Executable mirror of `split_op`; returns the operator and the length
/// of its token.
pub fn split_op_exec(s: &Vec<char>) -> (r: Option<(CompOp, usize)>)
    ensures
        match r {
            Some(p) => split_op(s@) == Some((p.0, s@.skip(p.1 as int))) && 1 <= p.1 <= 2 && p.1
                <= s@.len(),
            None => split_op(s@) is None,
        },
{
    let two: Option<CompOp> = if s.len() >= 2 {
        let a = s[0];
        let b = s[1];
        if a == '=' && b == '=' {
            Some(CompOp::StrictEqual)
        } else if a == '!' && b == '=' {
            Some(CompOp::NotEqual)
        } else if a == '<' && b == '=' {
            Some(CompOp::LessEqual)
        } else if a == '>' && b == '=' {
            Some(CompOp::GreaterEqual)
        } else if a == '~' && b == '=' {
            Some(CompOp::CompatibleRelease)
        } else {
            None
        }
    } else {
        None
    };
    match two {
        Some(op) => {
            if check_op_rest(s, 2) {
                Some((op, 2))
            } else {
                None
            }
        },
        None => {
            let one: Option<CompOp> = if s.len() >= 1 {
                let a = s[0];
                if a == '=' {
                    Some(CompOp::CompatibleEqual)
                } else if a == '<' {
                    Some(CompOp::Less)
                } else if a == '>' {
                    Some(CompOp::Greater)
                } else {
                    None
                }
            } else {
                None
            };
            match one {
                Some(op) => {
                    if check_op_rest(s, 1) {
                        Some((op, 1))
                    } else {
                        None
                    }
                },
                None => None,
            }
        },
    }
}

fn check_op_rest(s: &Vec<char>, k: usize) -> (b: bool)
    requires
        k <= 2,
    ensures
        b == (k <= s@.len() && ok_op_rest(s@.skip(k as int))),
{
    if k > s.len() {
        return false;
    }
    if s.len() == k {
        return false;
    }
    if op_char(s[k]) {
        proof {
            assert(s@.skip(k as int)[0] == s@[k as int]);
        }
        return false;
    }
    let mut i: usize = k;
    while i < s.len()
        invariant
            k <= i <= s@.len(),
            forall|j: int| k <= j < i ==> s@[j] != ' ',
        decreases s@.len() - i,
    {
        if s[i] == ' ' {
            proof {
                assert(s@.skip(k as int)[i - k] == s@[i as int]);
            }
            return false;
        }
        i += 1;
    }
    proof {
        assert(s@.skip(k as int)[0] == s@[k as int]);
        assert(forall|j: int|
            0 <= j < s@.skip(k as int).len() ==> s@.skip(k as int)[j] == s@[j + k]);
    }
    true
}

/// Does the version text end in the two characters `.*`?
pub open spec fn ends_dot_star(v: Seq<char>) -> bool {
    v.len() >= 2 && v[v.len() - 2] == '.' && v[v.len() - 1] == '*'
}

/// Operator-leaf classification: split off the operator token, then apply
/// the trailing-`.*` rule: `!=X.*` becomes `NotEqualStartsWith X`; `~=X.*`
/// is rejected; any other operator simply drops the `.*`.
pub open spec fn classify_operator_leaf(s: Seq<char>) -> Option<(CompOp, Seq<char>)> {
    match split_op(s) {
        None => None,
        Some((op, v)) => if ends_dot_star(v) {
            if op == CompOp::NotEqual {
                Some((CompOp::NotEqualStartsWith, v.take(v.len() - 2)))
            } else if op == CompOp::CompatibleRelease {
                None
            } else {
                Some((op, v.take(v.len() - 2)))
            }
        } else {
            Some((op, v))
        },
    }
}

/// Executable mirror of `classify_operator_leaf`; returns the operator and
/// the version text.
pub fn classify_operator_leaf_exec(s: &Vec<char>) -> (r: Option<(CompOp, Vec<char>)>)
    ensures
        match r {
            Some(p) => classify_operator_leaf(s@) == Some((p.0, p.1@)),
            None => classify_operator_leaf(s@) is None,
        },
{
    match split_op_exec(s) {
        None => None,
        Some((op, k)) => {
            let mut v: Vec<char> = Vec::new();
            let mut i: usize = k;
            while i < s.len()
                invariant
                    k <= i <= s@.len(),
                    v@ == s@.subrange(k as int, i as int),
                decreases s@.len() - i,
            {
                v.push(s[i]);
                proof {
                    assert(v@ =~= s@.subrange(k as int, i + 1 as int));
                }
                i += 1;
            }
            proof {
                assert(v@ =~= s@.skip(k as int));
            }
            let n = v.len();
            let dot_star = n >= 2 && v[n - 2] == '.' && v[n - 1] == '*';
            if dot_star {
                if matches!(op, CompOp::NotEqual) {
                    let mut w = v;
                    w.pop();
                    w.pop();
                    proof {
                        assert(w@ =~= s@.skip(k as int).take(s@.skip(k as int).len() - 2));
                    }
                    Some((CompOp::NotEqualStartsWith, w))
                } else if matches!(op, CompOp::CompatibleRelease) {
                    None
                } else {
                    let mut w = v;
                    w.pop();
                    w.pop();
                    proof {
                        assert(w@ =~= s@.skip(k as int).take(s@.skip(k as int).len() - 2));
                    }
                    Some((op, w))
                }
            } else {
                Some((op, v))
            }
        },
    }
}

// ---------------------------------------------------------------------------
// Operator evaluation.
// ---------------------------------------------------------------------------

/// The prefix version used by the compatible-release operator: the bound
/// with its last release segment removed and no local identifier.
pub open spec fn rel_prefix_version(b: VersionS) -> VersionS {
    VersionS {
        release: if b.release.len() > 0 {
            b.release.drop_last()
        } else {
            b.release
        },
        local: None,
    }
}

/// Does candidate version `c` satisfy the bound `op b`?
pub open spec fn satisfies(c: VersionS, op: CompOp, b: VersionS) -> bool {
    match op {
        CompOp::StrictEqual => cmp_version(c, b) == Rel::Equal,
        CompOp::CompatibleEqual => starts_with(c, b),
        CompOp::NotEqual => cmp_version(c, b) != Rel::Equal,
        CompOp::NotEqualStartsWith => !starts_with(c, b),
        CompOp::Less => cmp_version(c, b) == Rel::Less,
        CompOp::LessEqual => cmp_version(c, b) != Rel::Greater,
        CompOp::Greater => cmp_version(c, b) == Rel::Greater,
        CompOp::GreaterEqual => cmp_version(c, b) != Rel::Less,
        CompOp::CompatibleRelease => cmp_version(c, b) != Rel::Less && starts_with(
            c,
            rel_prefix_version(b),
        ),
        CompOp::StartsWith => starts_with(c, b),
    }
}

fn release_prefix(b: &Version) -> (p: Version)
    ensures
        p@ == rel_prefix_version(b@),
{
    let mut rel: Vec<Segment> = Vec::new();
    let n = b.release.len();
    let keep = if n > 0 {
        n - 1
    } else {
        0
    };
    let mut i: usize = 0;
    while i < keep
        invariant
            i <= keep,
            keep <= b.release@.len(),
            rel@.len() == i,
            forall|j: int|
                0 <= j < i ==> crate::version::seg_view(rel@[j]) == crate::version::seg_view(
                    b.release@[j],
                ),
        decreases keep - i,
    {
        rel.push(crate::version::clone_segment(&b.release[i]));
        i += 1;
    }
    proof {
        if b@.release.len() > 0 {
            assert(crate::version::segs_view(rel) =~= b@.release.drop_last());
        } else {
            assert(crate::version::segs_view(rel) =~= b@.release);
        }
    }
    Version { release: rel, local: None }
}

/// Executable evaluation of `c op b`.
pub fn satisfies_exec(c: &Version, op: CompOp, b: &Version) -> (r: bool)
    ensures
        r == satisfies(c@, op, b@),
{
    match op {
        CompOp::StrictEqual => matches!(c.compare(b), Rel::Equal),
        CompOp::CompatibleEqual => c.begins_with(b),
        CompOp::NotEqual => !matches!(c.compare(b), Rel::Equal),
        CompOp::NotEqualStartsWith => !c.begins_with(b),
        CompOp::Less => matches!(c.compare(b), Rel::Less),
        CompOp::LessEqual => !matches!(c.compare(b), Rel::Greater),
        CompOp::Greater => matches!(c.compare(b), Rel::Greater),
        CompOp::GreaterEqual => !matches!(c.compare(b), Rel::Less),
        CompOp::CompatibleRelease => {
            if matches!(c.compare(b), Rel::Less) {
                false
            } else {
                let p = release_prefix(b);
                c.begins_with(&p)
            }
        },
        CompOp::StartsWith => c.begins_with(b),
    }
}

} // verus!
