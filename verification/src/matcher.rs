//! Matchers: the classification of a single constraint leaf into an
//! executable matcher, recursive AND/OR evaluators over constraint trees,
//! and the canonical text of a constraint.

use vstd::prelude::*;

use crate::compop::{classify_operator_leaf, classify_operator_leaf_exec, is_op_char, op_char,
    satisfies, satisfies_exec, split_op, split_op_exec, CompOp};
use crate::errors::SpecError;
use crate::rx::{regex_compiles, regex_is_match, regex_match, regex_ok, string_of_chars};
use crate::tree::{tree_models, Combinator, ConstraintTree, TreeS};
use crate::version::{chars_of, parse_version, starts_with, trim_stars, trim_stars_exec, Version,
    VersionS};

verus! {

// ---------------------------------------------------------------------------
// Leaf taxonomy.
// ---------------------------------------------------------------------------

/// The seven shapes a constraint leaf can take, tried in this order.
#[derive(Clone, Copy, PartialEq, Eq, Structural, Debug)]
pub enum LeafKind {
    /// Anchored regular expression: starts with `^` or ends with `$`.
    Rgx,
    /// Operator form: first character is one of `= < > ! ~`.
    Oper,
    /// The single character `*`: matches everything.
    Star,
    /// A `*` somewhere other than a trailing run: shell-style pattern.
    InnerWild,
    /// A trailing `*` run: version-prefix match.
    TrailWild,
    /// Plain version literal without `@`.
    Plain,
    /// Literal containing `@`: matched as exact text.
    AtText,
}

/// Remove only the trailing run of `*` characters.
pub open spec fn star_only_trim(s: Seq<char>) -> Seq<char>
    decreases s.len(),
{
    if s.len() > 0 && s.last() == '*' {
        star_only_trim(s.drop_last())
    } else {
        s
    }
}

pub open spec fn has_inner_star(s: Seq<char>) -> bool {
    exists|i: int| 0 <= i < star_only_trim(s).len() && star_only_trim(s)[i] == '*'
}

pub open spec fn leaf_kind(s: Seq<char>) -> LeafKind {
    if s.len() > 0 && (s[0] == '^' || s.last() == '$') {
        LeafKind::Rgx
    } else if s.len() > 0 && is_op_char(s[0]) {
        LeafKind::Oper
    } else if s.len() == 1 && s[0] == '*' {
        LeafKind::Star
    } else if has_inner_star(s) {
        LeafKind::InnerWild
    } else if s.len() > 0 && s.last() == '*' {
        LeafKind::TrailWild
    } else if !s.contains('@') {
        LeafKind::Plain
    } else {
        LeafKind::AtText
    }
}

fn star_only_trim_exec(s: &Vec<char>) -> (r: Vec<char>)
    ensures
        r@ == star_only_trim(s@),
{
    let mut end = s.len();
    proof {
        assert(s@.take(s@.len() as int) =~= s@);
    }
    while end > 0 && s[end - 1] == '*'
        invariant
            end <= s@.len(),
            star_only_trim(s@) == star_only_trim(s@.take(end as int)),
        decreases end,
    {
        proof {
            assert(s@.take(end as int).last() == s@[end - 1]);
            assert(s@.take(end as int).drop_last() =~= s@.take(end - 1 as int));
        }
        end -= 1;
    }
    let mut r: Vec<char> = Vec::new();
    let mut i: usize = 0;
    while i < end
        invariant
            i <= end <= s@.len(),
            r@ == s@.subrange(0, i as int),
        decreases end - i,
    {
        r.push(s[i]);
        proof {
            assert(r@ =~= s@.subrange(0, i + 1 as int));
        }
        i += 1;
    }
    proof {
        if end > 0 {
            assert(s@.take(end as int).last() == s@[end - 1]);
        }
        assert(star_only_trim(s@.take(end as int)) == s@.take(end as int));
        assert(r@ =~= s@.take(end as int));
    }
    r
}

fn contains_char(s: &Vec<char>, c: char) -> (b: bool)
    ensures
        b == s@.contains(c),
{
    let mut i: usize = 0;
    while i < s.len()
        invariant
            i <= s@.len(),
            forall|j: int| 0 <= j < i ==> s@[j] != c,
        decreases s@.len() - i,
    {
        if s[i] == c {
            return true;
        }
        i += 1;
    }
    proof {
        assert(!s@.contains(c));
    }
    false
}

/// Decide which of the seven leaf shapes the text takes.
pub fn leaf_kind_exec(s: &Vec<char>) -> (k: LeafKind)
    ensures
        k == leaf_kind(s@),
{
    let n = s.len();
    if n > 0 && (s[0] == '^' || s[n - 1] == '$') {
        return LeafKind::Rgx;
    }
    if n > 0 && op_char(s[0]) {
        return LeafKind::Oper;
    }
    if n == 1 && s[0] == '*' {
        return LeafKind::Star;
    }
    let trimmed = star_only_trim_exec(s);
    if contains_char(&trimmed, '*') {
        return LeafKind::InnerWild;
    }
    proof {
        assert(!has_inner_star(s@));
    }
    if n > 0 && s[n - 1] == '*' {
        return LeafKind::TrailWild;
    }
    if !contains_char(s, '@') {
        return LeafKind::Plain;
    }
    LeafKind::AtText
}

// ---------------------------------------------------------------------------
// The glob translation for internal wildcards.
// ---------------------------------------------------------------------------

/// How one character of a shell-style pattern reads as a regular
/// expression: `.` and `+` are escaped, `*` becomes `.*`.
pub open spec fn glob_escape(c: char) -> Seq<char> {
    if c == '.' {
        seq!['\\', '.']
    } else if c == '+' {
        seq!['\\', '+']
    } else if c == '*' {
        seq!['.', '*']
    } else {
        seq![c]
    }
}

pub open spec fn glob_body(s: Seq<char>) -> Seq<char>
    decreases s.len(),
{
    if s.len() == 0 {
        seq![]
    } else {
        glob_escape(s[0]) + glob_body(s.drop_first())
    }
}

/// The anchored regular expression a shell-style leaf is translated to.
pub open spec fn glob_pattern(s: Seq<char>) -> Seq<char> {
    seq!['^', '(', '?', ':'] + glob_body(s) + seq![')', '$']
}

proof fn lemma_glob_push(u: Seq<char>, c: char)
    ensures
        glob_body(u.push(c)) == glob_body(u) + glob_escape(c),
    decreases u.len(),
{
    if u.len() == 0 {
        assert(u.push(c)[0] == c);
        assert(u.push(c).drop_first() =~= Seq::<char>::empty());
        assert(glob_body(u.push(c)) == glob_escape(c) + glob_body(u.push(c).drop_first()));
        assert(glob_body(Seq::<char>::empty()) =~= Seq::<char>::empty());
        assert(glob_body(u.push(c)) =~= glob_escape(c));
        assert(glob_body(u) =~= Seq::<char>::empty());
        assert(glob_body(u) + glob_escape(c) =~= glob_escape(c));
    } else {
        assert(u.push(c).drop_first() =~= u.drop_first().push(c));
        lemma_glob_push(u.drop_first(), c);
        assert(u.push(c)[0] == u[0]);
        assert(glob_body(u.push(c)) == glob_escape(u[0]) + (glob_body(u.drop_first())
            + glob_escape(c)));
        assert(glob_escape(u[0]) + (glob_body(u.drop_first()) + glob_escape(c)) =~= (glob_escape(
            u[0],
        ) + glob_body(u.drop_first())) + glob_escape(c));
    }
}

fn build_glob_pattern(s: &Vec<char>) -> (r: Vec<char>)
    ensures
        r@ == glob_pattern(s@),
{
    let mut acc: Vec<char> = vec!['^', '(', '?', ':'];
    proof {
        assert(acc@ =~= seq!['^', '(', '?', ':']);
        assert(s@.take(0) =~= Seq::<char>::empty());
        assert(acc@ =~= seq!['^', '(', '?', ':'] + glob_body(s@.take(0)));
    }
    let mut i: usize = 0;
    while i < s.len()
        invariant
            i <= s@.len(),
            acc@ == seq!['^', '(', '?', ':'] + glob_body(s@.take(i as int)),
        decreases s@.len() - i,
    {
        let c = s[i];
        proof {
            assert(s@.take(i + 1 as int) =~= s@.take(i as int).push(s@[i as int]));
            lemma_glob_push(s@.take(i as int), s@[i as int]);
        }
        if c == '.' {
            acc.push('\\');
            acc.push('.');
        } else if c == '+' {
            acc.push('\\');
            acc.push('+');
        } else if c == '*' {
            acc.push('.');
            acc.push('*');
        } else {
            acc.push(c);
        }
        proof {
            assert(acc@ =~= seq!['^', '(', '?', ':'] + glob_body(s@.take(i + 1 as int)));
        }
        i += 1;
    }
    acc.push(')');
    acc.push('$');
    proof {
        assert(s@.take(s@.len() as int) =~= s@);
        assert(acc@ =~= glob_pattern(s@));
    }
    acc
}

// ---------------------------------------------------------------------------
// Matchers.
// ---------------------------------------------------------------------------

/// An executable matcher: the classified form of a constraint.
pub enum MatchEnum {
    /// True when any child matches (an OR tree).
    MatchAny(Vec<MatchEnum>),
    /// True when all children match (an AND tree).
    MatchAll(Vec<MatchEnum>),
    /// Full-text match of an anchored regular expression.
    MatchRegex(String),
    /// Version comparison under an operator.
    MatchOperator(CompOp, Version),
    /// Matches every candidate.
    MatchAlways,
    /// Matches no candidate.
    MatchNever,
    /// Matches the candidate byte for byte.
    MatchExact(Vec<char>),
}

/// A matcher is well formed when every regular-expression pattern in it
/// compiles; evaluation relies on this.
pub open spec fn wf_matcher(m: MatchEnum) -> bool
    decreases m,
{
    match m {
        MatchEnum::MatchAny(ms) => forall|i: int|
            0 <= i < ms@.len() ==> wf_matcher(#[trigger] ms@[i]),
        MatchEnum::MatchAll(ms) => forall|i: int|
            0 <= i < ms@.len() ==> wf_matcher(#[trigger] ms@[i]),
        MatchEnum::MatchRegex(p) => regex_ok(p@),
        _ => true,
    }
}

/// How an operator matcher reads a candidate text: a text that itself
/// carries an operator token compares the constraint's version under that
/// operator against the text's version; a text with a trailing `*` asks
/// whether the constraint's version begins with the trimmed prefix; any
/// other text is parsed as a version and tested against the bound. A text
/// that parses under none of these readings matches nothing.
pub open spec fn eval_operator(op: CompOp, v: VersionS, text: Seq<char>) -> bool {
    match split_op(text) {
        Some(p) => match parse_version(p.1) {
            Some(w) => satisfies(v, p.0, w),
            None => false,
        },
        None => if text.len() > 0 && text.last() == '*' {
            match parse_version(trim_stars(text)) {
                Some(pr) => starts_with(v, pr),
                None => false,
            }
        } else {
            match parse_version(text) {
                Some(w) => satisfies(w, op, v),
                None => false,
            }
        },
    }
}

/// What a matcher says of a candidate text.
pub open spec fn eval_matcher(m: MatchEnum, text: Seq<char>) -> bool
    decreases m,
{
    match m {
        MatchEnum::MatchAny(ms) => exists|i: int|
            0 <= i < ms@.len() && eval_matcher(#[trigger] ms@[i], text),
        MatchEnum::MatchAll(ms) => forall|i: int|
            0 <= i < ms@.len() ==> eval_matcher(#[trigger] ms@[i], text),
        MatchEnum::MatchRegex(p) => regex_match(p@, text),
        MatchEnum::MatchOperator(op, v) => eval_operator(op, v@, text),
        MatchEnum::MatchAlways => true,
        MatchEnum::MatchNever => false,
        MatchEnum::MatchExact(t) => text == t@,
    }
}

fn tail_chars(s: &Vec<char>, k: usize) -> (r: Vec<char>)
    requires
        k <= s@.len(),
    ensures
        r@ == s@.skip(k as int),
{
    let mut r: Vec<char> = Vec::new();
    let mut i: usize = k;
    while i < s.len()
        invariant
            k <= i <= s@.len(),
            r@ == s@.subrange(k as int, i as int),
        decreases s@.len() - i,
    {
        r.push(s[i]);
        proof {
            assert(r@ =~= s@.subrange(k as int, i + 1 as int));
        }
        i += 1;
    }
    proof {
        assert(r@ =~= s@.skip(k as int));
    }
    r
}

fn copy_chars(s: &Vec<char>) -> (r: Vec<char>)
    ensures
        r@ == s@,
{
    tail_chars(s, 0)
}

fn chars_eq(a: &Vec<char>, b: &Vec<char>) -> (r: bool)
    ensures
        r == (a@ == b@),
{
    if a.len() != b.len() {
        return false;
    }
    let mut i: usize = 0;
    while i < a.len()
        invariant
            i <= a@.len(),
            a@.len() == b@.len(),
            forall|j: int| 0 <= j < i ==> a@[j] == b@[j],
        decreases a@.len() - i,
    {
        if a[i] != b[i] {
            return false;
        }
        i += 1;
    }
    proof {
        assert(a@ =~= b@);
    }
    true
}

fn eval_operator_exec(op: CompOp, v: &Version, text: &Vec<char>) -> (b: bool)
    ensures
        b == eval_operator(op, v@, text@),
{
    match split_op_exec(text) {
        Some((op2, k)) => {
            let rest = tail_chars(text, k);
            match Version::parse_chars(&rest) {
                Ok(w) => satisfies_exec(v, op2, &w),
                Err(_) => false,
            }
        },
        None => {
            let n = text.len();
            if n > 0 && text[n - 1] == '*' {
                let trimmed = trim_stars_exec(text);
                match Version::parse_chars(&trimmed) {
                    Ok(pr) => v.begins_with(&pr),
                    Err(_) => false,
                }
            } else {
                match Version::parse_chars(text) {
                    Ok(w) => satisfies_exec(&w, op, v),
                    Err(_) => false,
                }
            }
        },
    }
}

/// Evaluate a matcher against a candidate text.
#[verifier::loop_isolation(false)]
pub fn eval_matcher_exec(m: &MatchEnum, text: &str) -> (b: bool)
    requires
        wf_matcher(*m),
    ensures
        b == eval_matcher(*m, text@),
    decreases *m,
{
    match m {
        MatchEnum::MatchAny(ms) => {
            let mut i: usize = 0;
            while i < ms.len()
                invariant
                    i <= ms@.len(),
                    forall|j: int| 0 <= j < i ==> !eval_matcher(#[trigger] ms@[j], text@),
                decreases ms@.len() - i,
            {
                proof {
                    assert(decreases_to!(*m => *ms));
                    assert(decreases_to!(*ms => ms@));
                    assert(decreases_to!(ms@ => ms@[i as int]));
                }
                if eval_matcher_exec(&ms[i], text) {
                    return true;
                }
                i += 1;
            }
            false
        },
        MatchEnum::MatchAll(ms) => {
            let mut i: usize = 0;
            while i < ms.len()
                invariant
                    i <= ms@.len(),
                    forall|j: int| 0 <= j < i ==> eval_matcher(#[trigger] ms@[j], text@),
                decreases ms@.len() - i,
            {
                proof {
                    assert(decreases_to!(*m => *ms));
                    assert(decreases_to!(*ms => ms@));
                    assert(decreases_to!(ms@ => ms@[i as int]));
                }
                if !eval_matcher_exec(&ms[i], text) {
                    return false;
                }
                i += 1;
            }
            true
        },
        MatchEnum::MatchRegex(p) => regex_is_match(p.as_str(), text),
        MatchEnum::MatchOperator(op, v) => {
            let chars = chars_of(text);
            eval_operator_exec(*op, v, &chars)
        },
        MatchEnum::MatchAlways => true,
        MatchEnum::MatchNever => false,
        MatchEnum::MatchExact(t) => {
            let chars = chars_of(text);
            chars_eq(&chars, t)
        },
    }
}

// ---------------------------------------------------------------------------
// Leaf classification.
// ---------------------------------------------------------------------------

/// On which leaf texts classification succeeds.
pub open spec fn leaf_ok(s: Seq<char>) -> bool {
    match leaf_kind(s) {
        LeafKind::Rgx => s[0] == '^' && s.last() == '$' && regex_ok(s),
        LeafKind::Oper => classify_operator_leaf(s) is Some && parse_version(
            (classify_operator_leaf(s)->0).1,
        ) is Some,
        LeafKind::Star => true,
        LeafKind::InnerWild => regex_ok(glob_pattern(s)),
        LeafKind::TrailWild => parse_version(trim_stars(s)) is Some,
        LeafKind::Plain => parse_version(s) is Some,
        LeafKind::AtText => true,
    }
}

/// Which error a failing leaf classification reports.
pub open spec fn leaf_err(s: Seq<char>) -> SpecError {
    match leaf_kind(s) {
        LeafKind::Rgx => if !(s[0] == '^' && s.last() == '$') {
            SpecError::Operator
        } else {
            SpecError::RegexCompile
        },
        LeafKind::Oper => if classify_operator_leaf(s) is None {
            SpecError::Operator
        } else {
            SpecError::VersionParse
        },
        LeafKind::InnerWild => SpecError::RegexCompile,
        _ => SpecError::VersionParse,
    }
}

/// What matcher a successfully classified leaf yields.
pub open spec fn leaf_matcher_is(m: MatchEnum, s: Seq<char>) -> bool {
    match leaf_kind(s) {
        LeafKind::Rgx => m is MatchRegex && m->MatchRegex_0@ == s,
        LeafKind::Oper => m is MatchOperator && m->MatchOperator_0 == (classify_operator_leaf(s)->0).0 && m->MatchOperator_1@ == parse_version((classify_operator_leaf(s)->0).1)->0,
        LeafKind::Star => m is MatchAlways,
        LeafKind::InnerWild => m is MatchRegex && m->MatchRegex_0@ == glob_pattern(s),
        LeafKind::TrailWild => m is MatchOperator && m->MatchOperator_0 == CompOp::StartsWith
            && m->MatchOperator_1@ == parse_version(trim_stars(s))->0,
        LeafKind::Plain => m is MatchOperator && m->MatchOperator_0 == CompOp::StrictEqual
            && m->MatchOperator_1@ == parse_version(s)->0,
        LeafKind::AtText => m is MatchExact && m->MatchExact_0@ == s,
    }
}

/// Whether a leaf denotes a single fully-qualified version: only the `==`
/// operator and plain literals do.
pub open spec fn leaf_exact(s: Seq<char>) -> bool {
    match leaf_kind(s) {
        LeafKind::Oper => classify_operator_leaf(s) is Some && (classify_operator_leaf(s)->0).0
            == CompOp::StrictEqual,
        LeafKind::Plain => true,
        LeafKind::AtText => true,
        _ => false,
    }
}

/// Classify one leaf into a matcher and its exactness flag.
pub fn classify_leaf(chars: &Vec<char>) -> (r: Result<(MatchEnum, bool), SpecError>)
    ensures
        match r {
            Ok(p) => leaf_ok(chars@) && leaf_matcher_is(p.0, chars@) && p.1 == leaf_exact(chars@)
                && wf_matcher(p.0),
            Err(e) => !leaf_ok(chars@) && e == leaf_err(chars@),
        },
{
    let kind = leaf_kind_exec(chars);
    match kind {
        LeafKind::Rgx => {
            let n = chars.len();
            if !(chars[0] == '^' && chars[n - 1] == '$') {
                return Err(SpecError::Operator);
            }
            let pat = string_of_chars(chars);
            if regex_compiles(pat.as_str()) {
                Ok((MatchEnum::MatchRegex(pat), false))
            } else {
                Err(SpecError::RegexCompile)
            }
        },
        LeafKind::Oper => {
            match classify_operator_leaf_exec(chars) {
                None => Err(SpecError::Operator),
                Some((op, vtext)) => {
                    match Version::parse_chars(&vtext) {
                        Ok(v) => Ok(
                            (MatchEnum::MatchOperator(op, v), matches!(op, CompOp::StrictEqual)),
                        ),
                        Err(_) => Err(SpecError::VersionParse),
                    }
                },
            }
        },
        LeafKind::Star => Ok((MatchEnum::MatchAlways, false)),
        LeafKind::InnerWild => {
            let pat_chars = build_glob_pattern(chars);
            let pat = string_of_chars(&pat_chars);
            if regex_compiles(pat.as_str()) {
                Ok((MatchEnum::MatchRegex(pat), false))
            } else {
                Err(SpecError::RegexCompile)
            }
        },
        LeafKind::TrailWild => {
            let trimmed = trim_stars_exec(chars);
            match Version::parse_chars(&trimmed) {
                Ok(v) => Ok((MatchEnum::MatchOperator(CompOp::StartsWith, v), false)),
                Err(_) => Err(SpecError::VersionParse),
            }
        },
        LeafKind::Plain => {
            match Version::parse_chars(chars) {
                Ok(v) => Ok((MatchEnum::MatchOperator(CompOp::StrictEqual, v), true)),
                Err(_) => Err(SpecError::VersionParse),
            }
        },
        LeafKind::AtText => Ok((MatchEnum::MatchExact(copy_chars(chars)), true)),
    }
}

// ---------------------------------------------------------------------------
// Tree classification.
// ---------------------------------------------------------------------------

/// On which trees classification succeeds: every leaf classifies.
pub open spec fn tree_ok(ts: TreeS) -> bool
    decreases ts,
{
    match ts {
        TreeS::Leaf(s) => leaf_ok(s),
        TreeS::Node(_, parts) => forall|i: int|
            0 <= i < parts.len() ==> tree_ok(#[trigger] parts[i]),
    }
}

/// Which error a failing tree classification reports: that of the first
/// failing leaf, left to right.
pub open spec fn tree_err(ts: TreeS) -> SpecError
    decreases ts, 0int,
{
    match ts {
        TreeS::Leaf(s) => leaf_err(s),
        TreeS::Node(_, parts) => tree_err_list(parts),
    }
}

pub open spec fn tree_err_list(parts: Seq<TreeS>) -> SpecError
    decreases parts, 1int,
{
    if parts.len() == 0 {
        SpecError::Syntax
    } else if !tree_ok(parts[0]) {
        tree_err(parts[0])
    } else {
        tree_err_list(parts.drop_first())
    }
}

proof fn lemma_err_list(parts: Seq<TreeS>, i: int)
    requires
        0 <= i < parts.len(),
        forall|j: int| 0 <= j < i ==> tree_ok(#[trigger] parts[j]),
        !tree_ok(parts[i]),
    ensures
        tree_err_list(parts) == tree_err(parts[i]),
    decreases i,
{
    if i == 0 {
    } else {
        assert(tree_ok(parts[0]));
        lemma_err_list(parts.drop_first(), i - 1);
        assert(parts.drop_first()[i - 1] == parts[i]);
    }
}

/// What matcher a successfully classified tree yields: an OR node becomes
/// a `MatchAny` over its classified children, an AND node a `MatchAll`;
/// leaves classify as above.
pub open spec fn tree_matcher_is(m: MatchEnum, ts: TreeS) -> bool
    decreases ts,
{
    match ts {
        TreeS::Leaf(s) => leaf_matcher_is(m, s),
        TreeS::Node(c, parts) => {
            match c {
                Combinator::Or => m is MatchAny && m->MatchAny_0@.len() == parts.len() && (forall|
                    i: int,
                |
                    0 <= i < parts.len() ==> tree_matcher_is(
                        m->MatchAny_0@[i],
                        #[trigger] parts[i],
                    )),
                Combinator::And => m is MatchAll && m->MatchAll_0@.len() == parts.len() && (forall|
                    i: int,
                |
                    0 <= i < parts.len() ==> tree_matcher_is(
                        m->MatchAll_0@[i],
                        #[trigger] parts[i],
                    )),
            }
        },
    }
}

// ---------------------------------------------------------------------------
// Canonical text.
// ---------------------------------------------------------------------------

/// The canonical text of a leaf: a trailing-wildcard leaf is normalized to
/// its trimmed version text followed by `.*`; every other leaf keeps its
/// text.
pub open spec fn canon_leaf(s: Seq<char>) -> Seq<char> {
    if leaf_kind(s) == LeafKind::TrailWild {
        trim_stars(s) + seq!['.', '*']
    } else {
        s
    }
}

pub fn canon_leaf_exec(s: &Vec<char>) -> (r: Vec<char>)
    ensures
        r@ == canon_leaf(s@),
{
    let k = leaf_kind_exec(s);
    if matches!(k, LeafKind::TrailWild) {
        let mut t = trim_stars_exec(s);
        t.push('.');
        t.push('*');
        proof {
            assert(t@ =~= trim_stars(s@) + seq!['.', '*']);
        }
        t
    } else {
        copy_chars(s)
    }
}

pub open spec fn sep_char(c: Combinator) -> char {
    match c {
        Combinator::And => ',',
        Combinator::Or => '|',
    }
}

/// The canonical text of a tree: children joined by their combinator's
/// separator, leaves canonicalized. Grouping characters are not re-added;
/// parsing the canonical text again is a fixed point of this
/// serialization.
pub open spec fn untree_canon(ts: TreeS) -> Seq<char>
    decreases ts, 0int, 0int,
{
    match ts {
        TreeS::Leaf(s) => canon_leaf(s),
        TreeS::Node(c, parts) => join_canon(parts, sep_char(c), 0),
    }
}

pub open spec fn join_canon(parts: Seq<TreeS>, sep: char, i: int) -> Seq<char>
    decreases parts, 1int, parts.len() - i,
{
    if i < 0 || i >= parts.len() {
        seq![]
    } else if i == parts.len() - 1 {
        untree_canon(parts[i])
    } else {
        untree_canon(parts[i]) + seq![sep] + join_canon(parts, sep, i + 1)
    }
}

fn append_chars(acc: &mut Vec<char>, s: &Vec<char>)
    ensures
        final(acc)@ == old(acc)@ + s@,
{
    let mut i: usize = 0;
    while i < s.len()
        invariant
            i <= s@.len(),
            acc@ == old(acc)@ + s@.subrange(0, i as int),
        decreases s@.len() - i,
    {
        acc.push(s[i]);
        proof {
            assert(acc@ =~= old(acc)@ + s@.subrange(0, i + 1 as int));
        }
        i += 1;
    }
    proof {
        assert(acc@ =~= old(acc)@ + s@);
    }
}

/// Serialize a tree to its canonical text.
#[verifier::loop_isolation(false)]
pub fn untree_chars(t: &ConstraintTree, Ghost(ts): Ghost<TreeS>) -> (r: Vec<char>)
    requires
        tree_models(*t, ts),
    ensures
        r@ == untree_canon(ts),
    decreases *t,
{
    match t {
        ConstraintTree::Leaf(s) => {
            let r = canon_leaf_exec(s);
            r
        },
        ConstraintTree::Node(c, parts) => {
            let ghost mparts = ts->Node_1;
            let sep: char = if matches!(c, Combinator::And) {
                ','
            } else {
                '|'
            };
            proof {
                assert(sep == sep_char(ts->Node_0));
            }
            let n = parts.len();
            let mut acc: Vec<char> = Vec::new();
            let mut i: usize = 0;
            while i < n
                invariant
                    i <= n,
                    n == parts@.len(),
                    i == 0 ==> acc@ == Seq::<char>::empty(),
                    0 < i < n ==> join_canon(mparts, sep, 0) == acc@ + seq![sep] + join_canon(
                        mparts,
                        sep,
                        i as int,
                    ),
                    i == n && n > 0 ==> join_canon(mparts, sep, 0) == acc@,
                decreases n - i,
            {
                if i > 0 {
                    acc.push(sep);
                }
                proof {
                    assert(decreases_to!(*t => *parts));
                    assert(decreases_to!(*parts => parts@));
                    assert(decreases_to!(parts@ => parts@[i as int]));
                    assert(tree_models(parts@[i as int], mparts[i as int]));
                }
                let part = untree_chars(&parts[i], Ghost(mparts[i as int]));
                append_chars(&mut acc, &part);
                proof {
                    if i == 0 {
                        if n == 1 {
                            assert(acc@ =~= untree_canon(mparts[0]));
                            assert(join_canon(mparts, sep, 0) == untree_canon(mparts[0]));
                        } else {
                            assert(acc@ =~= untree_canon(mparts[0]));
                            assert(join_canon(mparts, sep, 0) == untree_canon(mparts[0]) + seq![
                                sep
                            ] + join_canon(mparts, sep, 1));
                            assert(join_canon(mparts, sep, 0) =~= acc@ + seq![sep] + join_canon(
                                mparts,
                                sep,
                                1,
                            ));
                        }
                    } else {
                        if i + 1 == n {
                            assert(join_canon(mparts, sep, i as int) == untree_canon(
                                mparts[i as int],
                            ));
                            assert(join_canon(mparts, sep, 0) =~= acc@);
                        } else {
                            assert(join_canon(mparts, sep, i as int) == untree_canon(
                                mparts[i as int],
                            ) + seq![sep] + join_canon(mparts, sep, i + 1 as int));
                            assert(join_canon(mparts, sep, 0) =~= acc@ + seq![sep] + join_canon(
                                mparts,
                                sep,
                                i + 1 as int,
                            ));
                        }
                    }
                }
                i += 1;
            }
            proof {
                if n == 0 {
                    assert(acc@ =~= join_canon(mparts, sep, 0));
                }
                assert(untree_canon(ts) == join_canon(mparts, sep, 0));
            }
            acc
        },
    }
}

impl Default for MatchEnum {
    /// The default matcher matches nothing.
    fn default() -> (r: Self)
        ensures
            r is MatchNever,
    {
        MatchEnum::MatchNever
    }
}

/// Classify a constraint tree into a matcher.
#[verifier::loop_isolation(false)]
pub fn classify_tree(t: &ConstraintTree, Ghost(ts): Ghost<TreeS>) -> (r: Result<
    MatchEnum,
    SpecError,
>)
    requires
        tree_models(*t, ts),
    ensures
        match r {
            Ok(m) => tree_ok(ts) && tree_matcher_is(m, ts) && wf_matcher(m),
            Err(e) => !tree_ok(ts) && e == tree_err(ts),
        },
    decreases *t,
{
    match t {
        ConstraintTree::Leaf(s) => {
            match classify_leaf(s) {
                Ok((m, _)) => Ok(m),
                Err(e) => Err(e),
            }
        },
        ConstraintTree::Node(c, parts) => {
            let ghost mparts = ts->Node_1;
            let mut children: Vec<MatchEnum> = Vec::new();
            let mut i: usize = 0;
            while i < parts.len()
                invariant
                    i <= parts@.len(),
                    children@.len() == i,
                    forall|j: int| 0 <= j < i ==> tree_ok(#[trigger] mparts[j]),
                    forall|j: int|
                        0 <= j < i ==> tree_matcher_is(#[trigger] children@[j], mparts[j]),
                    forall|j: int| 0 <= j < i ==> wf_matcher(#[trigger] children@[j]),
                decreases parts@.len() - i,
            {
                proof {
                    assert(decreases_to!(*t => *parts));
                    assert(decreases_to!(*parts => parts@));
                    assert(decreases_to!(parts@ => parts@[i as int]));
                    assert(tree_models(parts@[i as int], mparts[i as int]));
                }
                match classify_tree(&parts[i], Ghost(mparts[i as int])) {
                    Ok(m) => {
                        children.push(m);
                    },
                    Err(e) => {
                        proof {
                            lemma_err_list(mparts, i as int);
                        }
                        return Err(e);
                    },
                }
                i += 1;
            }
            if matches!(c, Combinator::Or) {
                Ok(MatchEnum::MatchAny(children))
            } else {
                Ok(MatchEnum::MatchAll(children))
            }
        },
    }
}

} // verus!
