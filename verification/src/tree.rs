//! Constraint trees: a compound constraint text is parsed into a recursive
//! tree of AND/OR nodes over leaf tokens, and serialized back to canonical
//! text. `,` joins AND-siblings and binds tighter than `|`, which joins
//! OR-siblings; parentheses group. Same-combinator children are flattened
//! into their parent, so a node's children never repeat its combinator.

use vstd::prelude::*;

use crate::errors::SpecError;

verus! {

/// AND joins siblings with `,`; OR joins them with `|`.
#[derive(Clone, Copy, PartialEq, Eq, Structural, Debug)]
pub enum Combinator {
    And,
    Or,
}

/// A constraint tree: a leaf token, or a combinator over parts.
pub enum ConstraintTree {
    Leaf(Vec<char>),
    Node(Combinator, Vec<ConstraintTree>),
}

/// Spec-level mirror of `ConstraintTree`.
pub enum TreeS {
    Leaf(Seq<char>),
    Node(Combinator, Seq<TreeS>),
}

/// Does the executable tree hold exactly the spec tree?
pub open spec fn tree_models(t: ConstraintTree, m: TreeS) -> bool
    decreases t,
{
    match t {
        ConstraintTree::Leaf(s) => m == TreeS::Leaf(s@),
        ConstraintTree::Node(c, parts) => match m {
            TreeS::Node(mc, mparts) => c == mc && parts@.len() == mparts.len() && (forall|i: int|
                0 <= i < parts@.len() ==> tree_models(#[trigger] parts@[i], mparts[i])),
            TreeS::Leaf(_) => false,
        },
    }
}

pub open spec fn trees_model(ts: Seq<ConstraintTree>, ms: Seq<TreeS>) -> bool {
    ts.len() == ms.len() && (forall|i: int|
        0 <= i < ts.len() ==> tree_models(#[trigger] ts[i], ms[i]))
}

pub open spec fn is_special(c: char) -> bool {
    c == '(' || c == ')' || c == '|' || c == ','
}

pub fn special(c: char) -> (b: bool)
    ensures
        b == is_special(c),
{
    c == '(' || c == ')' || c == '|' || c == ','
}

/// Does the text contain a grouping or combinator character? Only such a
/// text is parsed as a tree; anything else is a single leaf.
pub open spec fn is_compound(s: Seq<char>) -> bool {
    exists|i: int| 0 <= i < s.len() && is_special(#[trigger] s[i])
}

pub fn compound(chars: &Vec<char>) -> (b: bool)
    ensures
        b == is_compound(chars@),
{
    let mut i: usize = 0;
    while i < chars.len()
        invariant
            i <= chars@.len(),
            forall|j: int| 0 <= j < i ==> !is_special(chars@[j]),
        decreases chars@.len() - i,
    {
        if special(chars[i]) {
            return true;
        }
        i += 1;
    }
    false
}

// ---------------------------------------------------------------------------
// The parser, as a left-to-right fold over the characters.
// ---------------------------------------------------------------------------

/// One grouping level being built: completed OR-operands, and the terms of
/// the AND-group currently collecting.
pub struct FrameS {
    pub ors: Seq<TreeS>,
    pub ands: Seq<TreeS>,
}

/// Where the parser stands: expecting a term, just after a term, or inside
/// a leaf token.
#[derive(Clone, Copy, PartialEq, Eq, Structural, Debug)]
pub enum TMode {
    WantTerm,
    HaveTerm,
    InLeaf,
}

/// The parser state: enclosing levels, the current level, the mode, and
/// the partial leaf token.
pub struct TSt {
    pub ok: bool,
    pub stack: Seq<FrameS>,
    pub fr: FrameS,
    pub mode: TMode,
    pub cur: Seq<char>,
}

pub open spec fn empty_frame() -> FrameS {
    FrameS { ors: seq![], ands: seq![] }
}

pub open spec fn tinit() -> TSt {
    TSt { ok: true, stack: seq![], fr: empty_frame(), mode: TMode::WantTerm, cur: seq![] }
}

pub open spec fn tfail(st: TSt) -> TSt {
    TSt { ok: false, ..st }
}

/// Add a term to an AND-group, splicing the children of an AND node so
/// that a node never repeats its parent's combinator.
pub open spec fn push_and(ands: Seq<TreeS>, t: TreeS) -> Seq<TreeS> {
    match t {
        TreeS::Node(Combinator::And, ps) => ands + ps,
        _ => ands.push(t),
    }
}

/// Add an operand to an OR-level, splicing the children of an OR node.
pub open spec fn push_or(ors: Seq<TreeS>, t: TreeS) -> Seq<TreeS> {
    match t {
        TreeS::Node(Combinator::Or, ps) => ors + ps,
        _ => ors.push(t),
    }
}

pub open spec fn collapse_and(ands: Seq<TreeS>) -> TreeS {
    if ands.len() == 1 {
        ands[0]
    } else {
        TreeS::Node(Combinator::And, ands)
    }
}

pub open spec fn collapse_or(ors: Seq<TreeS>) -> TreeS {
    if ors.len() == 1 {
        ors[0]
    } else {
        TreeS::Node(Combinator::Or, ors)
    }
}

/// Close the leaf token being read and add it to the AND-group.
pub open spec fn close_leaf(st: TSt) -> TSt {
    TSt {
        fr: FrameS { ors: st.fr.ors, ands: push_and(st.fr.ands, TreeS::Leaf(st.cur)) },
        cur: seq![],
        mode: TMode::HaveTerm,
        ..st
    }
}

/// One step of the tree parser.
pub open spec fn tstep(st: TSt, c: char) -> TSt {
    if !st.ok {
        st
    } else {
        let st1 = if st.mode == TMode::InLeaf && (c == ' ' || is_special(c)) {
            close_leaf(st)
        } else {
            st
        };
        if c == ' ' {
            st1
        } else if !is_special(c) {
            match st1.mode {
                TMode::WantTerm => TSt { cur: seq![c], mode: TMode::InLeaf, ..st1 },
                TMode::InLeaf => TSt { cur: st1.cur.push(c), ..st1 },
                TMode::HaveTerm => tfail(st1),
            }
        } else if c == '(' {
            if st1.mode == TMode::WantTerm {
                TSt { stack: st1.stack.push(st1.fr), fr: empty_frame(), ..st1 }
            } else {
                tfail(st1)
            }
        } else if c == ',' {
            if st1.mode == TMode::HaveTerm {
                TSt { mode: TMode::WantTerm, ..st1 }
            } else {
                tfail(st1)
            }
        } else if c == '|' {
            if st1.mode == TMode::HaveTerm {
                TSt {
                    fr: FrameS {
                        ors: push_or(st1.fr.ors, collapse_and(st1.fr.ands)),
                        ands: seq![],
                    },
                    mode: TMode::WantTerm,
                    ..st1
                }
            } else {
                tfail(st1)
            }
        } else {
            if st1.mode == TMode::HaveTerm && st1.stack.len() > 0 {
                let group = collapse_or(push_or(st1.fr.ors, collapse_and(st1.fr.ands)));
                let parent = st1.stack.last();
                TSt {
                    stack: st1.stack.drop_last(),
                    fr: FrameS { ors: parent.ors, ands: push_and(parent.ands, group) },
                    mode: TMode::HaveTerm,
                    ..st1
                }
            } else {
                tfail(st1)
            }
        }
    }
}

pub open spec fn tfold(s: Seq<char>, i: int) -> TSt
    decreases i,
{
    if i <= 0 {
        tinit()
    } else {
        tstep(tfold(s, i - 1), s[i - 1])
    }
}

/// What a compound constraint text denotes: `None` when the grouping or
/// combinator syntax is malformed (unbalanced parentheses, an empty
/// operand next to `|` or `,`, adjacent terms).
pub open spec fn spec_treeify(s: Seq<char>) -> Option<TreeS> {
    let st0 = tfold(s, s.len() as int);
    let st = if st0.ok && st0.mode == TMode::InLeaf {
        close_leaf(st0)
    } else {
        st0
    };
    if !st.ok || st.mode != TMode::HaveTerm || st.stack.len() != 0 {
        None
    } else {
        Some(collapse_or(push_or(st.fr.ors, collapse_and(st.fr.ands))))
    }
}

proof fn lemma_terr_sticky(s: Seq<char>, i: int, j: int)
    requires
        0 <= i <= j,
        !tfold(s, i).ok,
    ensures
        !tfold(s, j).ok,
    decreases j - i,
{
    if j > i {
        lemma_terr_sticky(s, i, j - 1);
    }
}

// ---------------------------------------------------------------------------
// Executable parser.
// ---------------------------------------------------------------------------

/// One grouping level of the executable parser.
pub struct FrameE {
    pub ors: Vec<ConstraintTree>,
    pub ands: Vec<ConstraintTree>,
}

#[verifier::loop_isolation(false)]
fn push_and_exec(
    ands: &mut Vec<ConstraintTree>,
    t: ConstraintTree,
    Ghost(msl): Ghost<Seq<TreeS>>,
    Ghost(mt): Ghost<TreeS>,
)
    requires
        trees_model(old(ands)@, msl),
        tree_models(t, mt),
    ensures
        trees_model(final(ands)@, push_and(msl, mt)),
{
    match t {
        ConstraintTree::Node(c, ps) => {
            if matches!(c, Combinator::And) {
                let ghost mps = mt->Node_1;
                let mut ps = ps;
                let ghost total = mps.len() as int;
                let ghost mut k: int = 0;
                proof {
                    assert(trees_model(ps@, mps.skip(0)));
                    assert(msl + mps.take(0) =~= msl);
                    assert(trees_model(ands@, msl + mps.take(0)));
                }
                while ps.len() > 0
                    invariant
                        0 <= k <= total,
                        ps@.len() == total - k,
                        trees_model(ps@, mps.skip(k)),
                        trees_model(ands@, msl + mps.take(k)),
                    decreases ps@.len(),
                {
                    let ghost prev = ps@;
                    let p = ps.remove(0);
                    proof {
                        assert(tree_models(prev[0], mps.skip(k)[0]));
                        assert(mps.skip(k)[0] == mps[k]);
                        assert(p == prev[0]);
                        assert(tree_models(p, mps[k]));
                    }
                    ands.push(p);
                    proof {
                        assert forall|i2: int| 0 <= i2 < ps@.len() implies tree_models(
                            #[trigger] ps@[i2],
                            mps.skip(k + 1 as int)[i2],
                        ) by {
                            assert(ps@[i2] == prev[i2 + 1]);
                            assert(mps.skip(k + 1 as int)[i2] == mps.skip(k)[i2 + 1]);
                            assert(tree_models(prev[i2 + 1], mps.skip(k)[i2 + 1]));
                        }
                        assert(trees_model(ps@, mps.skip(k + 1 as int)));
                        assert forall|i2: int| 0 <= i2 < ands@.len() implies tree_models(
                            #[trigger] ands@[i2],
                            (msl + mps.take(k + 1 as int))[i2],
                        ) by {
                            if i2 < ands@.len() - 1 {
                                assert((msl + mps.take(k + 1 as int))[i2] == (msl + mps.take(
                                    k,
                                ))[i2]);
                            } else {
                                assert((msl + mps.take(k + 1 as int))[i2] == mps[k]);
                            }
                        }
                        assert(trees_model(ands@, msl + mps.take(k + 1 as int)));
                    }
                    proof {
                        k = k + 1;
                    }
                }
                proof {
                    assert(mps.take(total) =~= mps);
                    assert(push_and(msl, mt) == msl + mps);
                }
            } else {
                let rebuilt = ConstraintTree::Node(c, ps);
                proof {
                    assert(tree_models(rebuilt, mt));
                }
                ands.push(rebuilt);
                proof {
                    assert(push_and(msl, mt) == msl.push(mt));
                    assert forall|i: int| 0 <= i < ands@.len() implies tree_models(
                        #[trigger] ands@[i],
                        msl.push(mt)[i],
                    ) by {}
                }
            }
        },
        leaf => {
            ands.push(leaf);
            proof {
                assert(push_and(msl, mt) == msl.push(mt));
                assert forall|i: int| 0 <= i < ands@.len() implies tree_models(
                    #[trigger] ands@[i],
                    msl.push(mt)[i],
                ) by {}
            }
        },
    }
}

#[verifier::loop_isolation(false)]
fn push_or_exec(
    ors: &mut Vec<ConstraintTree>,
    t: ConstraintTree,
    Ghost(msl): Ghost<Seq<TreeS>>,
    Ghost(mt): Ghost<TreeS>,
)
    requires
        trees_model(old(ors)@, msl),
        tree_models(t, mt),
    ensures
        trees_model(final(ors)@, push_or(msl, mt)),
{
    match t {
        ConstraintTree::Node(c, ps) => {
            if matches!(c, Combinator::Or) {
                let ghost mps = mt->Node_1;
                let mut ps = ps;
                let ghost total = mps.len() as int;
                let ghost mut k: int = 0;
                proof {
                    assert(trees_model(ps@, mps.skip(0)));
                    assert(msl + mps.take(0) =~= msl);
                }
                while ps.len() > 0
                    invariant
                        0 <= k <= total,
                        ps@.len() == total - k,
                        trees_model(ps@, mps.skip(k)),
                        trees_model(ors@, msl + mps.take(k)),
                    decreases ps@.len(),
                {
                    let ghost prev = ps@;
                    let p = ps.remove(0);
                    proof {
                        assert(tree_models(prev[0], mps.skip(k)[0]));
                        assert(mps.skip(k)[0] == mps[k]);
                        assert(p == prev[0]);
                        assert(tree_models(p, mps[k]));
                    }
                    ors.push(p);
                    proof {
                        assert forall|i2: int| 0 <= i2 < ps@.len() implies tree_models(
                            #[trigger] ps@[i2],
                            mps.skip(k + 1 as int)[i2],
                        ) by {
                            assert(ps@[i2] == prev[i2 + 1]);
                            assert(mps.skip(k + 1 as int)[i2] == mps.skip(k)[i2 + 1]);
                            assert(tree_models(prev[i2 + 1], mps.skip(k)[i2 + 1]));
                        }
                        assert(trees_model(ps@, mps.skip(k + 1 as int)));
                        assert forall|i2: int| 0 <= i2 < ors@.len() implies tree_models(
                            #[trigger] ors@[i2],
                            (msl + mps.take(k + 1 as int))[i2],
                        ) by {
                            if i2 < ors@.len() - 1 {
                                assert((msl + mps.take(k + 1 as int))[i2] == (msl + mps.take(
                                    k,
                                ))[i2]);
                            } else {
                                assert((msl + mps.take(k + 1 as int))[i2] == mps[k]);
                            }
                        }
                        assert(trees_model(ors@, msl + mps.take(k + 1 as int)));
                    }
                    proof {
                        k = k + 1;
                    }
                }
                proof {
                    assert(mps.take(total) =~= mps);
                }
            } else {
                let rebuilt = ConstraintTree::Node(c, ps);
                ors.push(rebuilt);
                proof {
                    assert forall|i: int| 0 <= i < ors@.len() implies tree_models(
                        #[trigger] ors@[i],
                        msl.push(mt)[i],
                    ) by {}
                }
            }
        },
        leaf => {
            ors.push(leaf);
            proof {
                assert forall|i: int| 0 <= i < ors@.len() implies tree_models(
                    #[trigger] ors@[i],
                    msl.push(mt)[i],
                ) by {}
            }
        },
    }
}

fn collapse_and_exec(ands: Vec<ConstraintTree>, Ghost(ms): Ghost<Seq<TreeS>>) -> (t:
    ConstraintTree)
    requires
        trees_model(ands@, ms),
    ensures
        tree_models(t, collapse_and(ms)),
{
    if ands.len() == 1 {
        let mut a = ands;
        a.remove(0)
    } else {
        ConstraintTree::Node(Combinator::And, ands)
    }
}

fn collapse_or_exec(ors: Vec<ConstraintTree>, Ghost(ms): Ghost<Seq<TreeS>>) -> (t: ConstraintTree)
    requires
        trees_model(ors@, ms),
    ensures
        tree_models(t, collapse_or(ms)),
{
    if ors.len() == 1 {
        let mut a = ors;
        a.remove(0)
    } else {
        ConstraintTree::Node(Combinator::Or, ors)
    }
}

pub open spec fn stack_models(sv: Seq<FrameE>, ss: Seq<FrameS>) -> bool {
    sv.len() == ss.len() && (forall|i: int|
        0 <= i < sv.len() ==> #[trigger] trees_model(sv[i].ors@, ss[i].ors) && trees_model(
            sv[i].ands@,
            ss[i].ands,
        ))
}

/// Parse a compound constraint text into a tree. Fails exactly when the
/// spec-level parser rejects the text, always with a syntax error.
#[verifier::loop_isolation(false)]
pub fn treeify(chars: &Vec<char>) -> (r: Result<ConstraintTree, SpecError>)
    ensures
        match r {
            Ok(t) => spec_treeify(chars@) is Some && tree_models(t, spec_treeify(chars@)->0),
            Err(e) => spec_treeify(chars@) is None && e == SpecError::Syntax,
        },
{
    let n = chars.len();
    let mut stack: Vec<FrameE> = Vec::new();
    let mut ors: Vec<ConstraintTree> = Vec::new();
    let mut ands: Vec<ConstraintTree> = Vec::new();
    let mut mode = TMode::WantTerm;
    let mut cur: Vec<char> = Vec::new();
    let mut i: usize = 0;
    while i < n
        invariant
            i <= n,
            n == chars@.len(),
            tfold(chars@, i as int).ok,
            stack_models(stack@, tfold(chars@, i as int).stack),
            trees_model(ors@, tfold(chars@, i as int).fr.ors),
            trees_model(ands@, tfold(chars@, i as int).fr.ands),
            mode == tfold(chars@, i as int).mode,
            cur@ == tfold(chars@, i as int).cur,
        decreases n - i,
    {
        let ghost st = tfold(chars@, i as int);
        proof {
            assert(tfold(chars@, i + 1 as int) == tstep(st, chars@[i as int]));
        }
        let c = chars[i];
        let sp = special(c);
        if matches!(mode, TMode::InLeaf) && (c == ' ' || sp) {
            let leaf = ConstraintTree::Leaf(cur);
            cur = Vec::new();
            push_and_exec(&mut ands, leaf, Ghost(st.fr.ands), Ghost(TreeS::Leaf(st.cur)));
            mode = TMode::HaveTerm;
        }
        let ghost st1 = if st.mode == TMode::InLeaf && (chars@[i as int] == ' ' || is_special(
            chars@[i as int],
        )) {
            close_leaf(st)
        } else {
            st
        };
        if c == ' ' {
            // skipped between tokens
        } else if !sp {
            match mode {
                TMode::WantTerm => {
                    cur = vec![c];
                    mode = TMode::InLeaf;
                    proof {
                        assert(cur@ =~= seq![c]);
                    }
                },
                TMode::InLeaf => {
                    cur.push(c);
                },
                TMode::HaveTerm => {
                    proof {
                        lemma_terr_sticky(chars@, i + 1, n as int);
                    }
                    return Err(SpecError::Syntax);
                },
            }
        } else if c == '(' {
            if matches!(mode, TMode::WantTerm) {
                let ghost prevstack = stack@;
                let ghost po = ors@;
                let ghost pa = ands@;
                stack.push(FrameE { ors, ands });
                ors = Vec::new();
                ands = Vec::new();
                proof {
                    let ghost target = st1.stack.push(st1.fr);
                    assert(st1 == st);
                    assert(stack@.len() == target.len());
                    assert forall|j: int|
                        0 <= j < stack@.len() implies #[trigger] trees_model(
                        stack@[j].ors@,
                        target[j].ors,
                    ) && trees_model(stack@[j].ands@, target[j].ands) by {
                        assert(st1.stack == st.stack);
                        if j < stack@.len() - 1 {
                            assert(stack@[j] == prevstack[j]);
                            assert(target[j] == st1.stack[j]);
                            assert(trees_model(prevstack[j].ors@, st.stack[j].ors));
                            assert(trees_model(prevstack[j].ands@, st.stack[j].ands));
                        } else {
                            assert(stack@[j].ors@ == po);
                            assert(stack@[j].ands@ == pa);
                            assert(target[j] == st1.fr);
                            assert(st1.fr.ors == st.fr.ors);
                        }
                    }
                    assert(stack_models(stack@, target));
                    assert(target == st1.stack.push(st1.fr));
                }
            } else {
                proof {
                    lemma_terr_sticky(chars@, i + 1, n as int);
                }
                return Err(SpecError::Syntax);
            }
        } else if c == ',' {
            if matches!(mode, TMode::HaveTerm) {
                mode = TMode::WantTerm;
            } else {
                proof {
                    lemma_terr_sticky(chars@, i + 1, n as int);
                }
                return Err(SpecError::Syntax);
            }
        } else if c == '|' {
            if matches!(mode, TMode::HaveTerm) {
                let t = collapse_and_exec(ands, Ghost(st1.fr.ands));
                ands = Vec::new();
                push_or_exec(&mut ors, t, Ghost(st1.fr.ors), Ghost(collapse_and(st1.fr.ands)));
                mode = TMode::WantTerm;
            } else {
                proof {
                    lemma_terr_sticky(chars@, i + 1, n as int);
                }
                return Err(SpecError::Syntax);
            }
        } else {
            if matches!(mode, TMode::HaveTerm) && stack.len() > 0 {
                let t = collapse_and_exec(ands, Ghost(st1.fr.ands));
                push_or_exec(&mut ors, t, Ghost(st1.fr.ors), Ghost(collapse_and(st1.fr.ands)));
                let g = collapse_or_exec(
                    ors,
                    Ghost(push_or(st1.fr.ors, collapse_and(st1.fr.ands))),
                );
                let ghost prevstack = stack@;
                let parent = stack.pop().unwrap();
                ors = parent.ors;
                ands = parent.ands;
                proof {
                    assert(prevstack[prevstack.len() - 1].ors@ == ors@);
                    assert(trees_model(ors@, st1.stack.last().ors));
                    assert(trees_model(ands@, st1.stack.last().ands));
                }
                push_and_exec(
                    &mut ands,
                    g,
                    Ghost(st1.stack.last().ands),
                    Ghost(collapse_or(push_or(st1.fr.ors, collapse_and(st1.fr.ands)))),
                );
                mode = TMode::HaveTerm;
                proof {
                    let ghost target = st1.stack.drop_last();
                    assert(st1.stack == st.stack);
                    assert(prevstack.len() == st.stack.len());
                    assert(stack@.len() == target.len());
                    assert forall|j: int|
                        0 <= j < stack@.len() implies #[trigger] trees_model(
                        stack@[j].ors@,
                        target[j].ors,
                    ) && trees_model(stack@[j].ands@, target[j].ands) by {
                        assert(st1.stack == st.stack);
                        assert(stack@[j] == prevstack[j]);
                        assert(target[j] == st1.stack[j]);
                        assert(trees_model(prevstack[j].ors@, st.stack[j].ors));
                        assert(trees_model(prevstack[j].ands@, st.stack[j].ands));
                    }
                    assert(stack_models(stack@, target));
                    assert(target == st1.stack.drop_last());
                }
            } else {
                proof {
                    lemma_terr_sticky(chars@, i + 1, n as int);
                }
                return Err(SpecError::Syntax);
            }
        }
        i += 1;
    }
    let ghost st0 = tfold(chars@, n as int);
    if matches!(mode, TMode::InLeaf) {
        let leaf = ConstraintTree::Leaf(cur);
        push_and_exec(&mut ands, leaf, Ghost(st0.fr.ands), Ghost(TreeS::Leaf(st0.cur)));
        mode = TMode::HaveTerm;
    }
    let ghost st = if st0.ok && st0.mode == TMode::InLeaf {
        close_leaf(st0)
    } else {
        st0
    };
    if !matches!(mode, TMode::HaveTerm) || stack.len() != 0 {
        return Err(SpecError::Syntax);
    }
    let t = collapse_and_exec(ands, Ghost(st.fr.ands));
    push_or_exec(&mut ors, t, Ghost(st.fr.ors), Ghost(collapse_and(st.fr.ands)));
    let g = collapse_or_exec(ors, Ghost(push_or(st.fr.ors, collapse_and(st.fr.ands))));
    Ok(g)
}

} // verus!
