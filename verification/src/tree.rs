//! The concrete tree: what the recognizer found in a pattern, production by
//! production, before any of it is given a meaning.

use vstd::prelude::*;

verus! {

/// The productions of the grammar. Each node of a concrete tree says which
/// one it stands for.
#[derive(Debug, Clone, Copy, PartialEq, Eq, Hash, Structural)]
pub enum Rule {
    Pattern,
    Expression,
    Observation,
    ObservationGroup,
    Comparison,
    And,
    Or,
    FollowedBy,
    Not,
    Exists,
    Path,
    Object,
    Step,
    Property,
    Index,
    Equal,
    NotEqual,
    Gt,
    Lt,
    Ge,
    Le,
    In,
    Like,
    Match,
    IsSubset,
    IsSuperset,
    Value,
    List,
    String,
    Bool,
    Float,
    Int,
    Time,
    Hex,
    Bin,
    Qualifier,
    Repeat,
    Within,
    Interval,
    PosInt,
    PosFloat,
}

/// A node of the concrete tree. A token has a text and no children; a node
/// that stands for a larger production has children and an empty text. The
/// text of a quoted token is what stands between its quotes, except for a
/// quoted property name, which keeps them.
#[derive(Debug, PartialEq, Eq)]
pub struct Pair {
    pub rule: Rule,
    pub text: String,
    pub inner: Vec<Pair>,
}

/// The mathematical value of a [`Pair`].
pub ghost struct Tree {
    pub rule: Rule,
    pub text: Seq<char>,
    pub inner: Seq<Tree>,
}

impl Tree {
    /// A token: a text, no children.
    pub open spec fn token(rule: Rule, text: Seq<char>) -> Tree {
        Tree { rule, text, inner: Seq::empty() }
    }

    /// A node with children and no text of its own.
    pub open spec fn node(rule: Rule, inner: Seq<Tree>) -> Tree {
        Tree { rule, text: Seq::empty(), inner }
    }

    /// Whether the tree is at most `height` high: a token is one high, and a
    /// node one higher than its highest child.
    pub open spec fn within(self, height: nat) -> bool
        decreases height,
    {
        height > 0 && forall|i: int|
            0 <= i < self.inner.len() ==> (#[trigger] self.inner[i]).within((height - 1) as nat)
    }
}

/// A tree that is at most so high is at most higher.
pub proof fn lemma_within_higher(t: Tree, height: nat, higher: nat)
    requires
        t.within(height),
        height <= higher,
    ensures
        t.within(higher),
    decreases height,
{
    assert forall|i: int| 0 <= i < t.inner.len() implies (#[trigger] t.inner[i]).within(
        (higher - 1) as nat,
    ) by {
        lemma_within_higher(t.inner[i], (height - 1) as nat, (higher - 1) as nat);
    }
}

/// How high a tree may be for the builders to build it: the trees of the
/// grammar are no higher, however deep their groups nest.
pub const MAX_TREE_HEIGHT: usize = 263;

/// Whether every node of the sequence is at most `height` high.
pub open spec fn all_within(items: Seq<Tree>, height: nat) -> bool {
    forall|i: int| 0 <= i < items.len() ==> (#[trigger] items[i]).within(height)
}

/// The values of a sequence of nodes, one for one.
pub open spec fn trees(pairs: Seq<Pair>) -> Seq<Tree>
    decreases pairs,
{
    Seq::new(
        pairs.len(),
        |i: int|
            if 0 <= i < pairs.len() {
                pairs[i].model()
            } else {
                arbitrary()
            },
    )
}

impl Pair {
    /// The value of the node, by recursion over its children.
    pub open spec fn model(&self) -> Tree
        decreases self,
    {
        Tree { rule: self.rule, text: self.text@, inner: trees(self.inner@) }
    }

    /// A token: a text, no children.
    pub fn token(rule: Rule, text: String) -> (pair: Self)
        ensures
            pair@ == Tree::token(rule, text@),
    {
        let pair = Pair { rule, text, inner: Vec::new() };
        assert(pair@.inner =~= Seq::empty());
        pair
    }

    /// A node with children and no text of its own.
    pub fn node(rule: Rule, inner: Vec<Pair>) -> (pair: Self)
        ensures
            pair@ == Tree::node(rule, trees(inner@)),
    {
        Pair { rule, text: String::new(), inner }
    }

    /// Whether the tree is at most `limit` high. The test goes no deeper
    /// into the tree than `limit` nodes.
    pub fn within(&self, limit: usize) -> (fits: bool)
        ensures
            fits == self@.within(limit as nat),
        decreases limit,
    {
        if limit == 0 {
            return false;
        }
        let mut i: usize = 0;
        while i < self.inner.len()
            invariant
                i <= self.inner.len(),
                limit > 0,
                forall|k: int|
                    0 <= k < i ==> (#[trigger] self@.inner[k]).within((limit - 1) as nat),
            decreases self.inner.len() - i,
        {
            if !self.inner[i].within(limit - 1) {
                assert(!self@.inner[i as int].within((limit - 1) as nat));
                return false;
            }
            i += 1;
        }
        true
    }

    /// The production that the node stands for.
    pub fn as_rule(&self) -> (rule: Rule)
        ensures
            rule == self@.rule,
    {
        self.rule
    }

    /// The text of a token.
    pub fn as_str(&self) -> (text: &str)
        ensures
            text@ == self@.text,
    {
        self.text.as_str()
    }

    /// The children, in the order in which they were read.
    pub fn inner(&self) -> (inner: &Vec<Pair>)
        ensures
            trees(inner@) == self@.inner,
    {
        &self.inner
    }
}

impl Clone for Pair {
    fn clone(&self) -> (copy: Self)
        ensures
            copy@ == self@,
        decreases self,
    {
        let mut inner: Vec<Pair> = Vec::new();
        let mut i: usize = 0;
        while i < self.inner.len()
            invariant
                i <= self.inner.len(),
                inner@.len() == i,
                forall|k: int| 0 <= k < i ==> (#[trigger] inner@[k])@ == self.inner@[k]@,
            decreases self.inner.len() - i,
        {
            let child = self.inner[i].clone();
            inner.push(child);
            i += 1;
        }
        assert(trees(inner@) =~= trees(self.inner@));
        Pair { rule: self.rule, text: self.text.clone(), inner }
    }
}

impl View for Pair {
    type V = Tree;

    open spec fn view(&self) -> Tree {
        self.model()
    }
}

/// Adding a child to a list of nodes adds its value to their values.
pub proof fn lemma_trees_push(pairs: Seq<Pair>, pair: Pair)
    ensures
        trees(pairs.push(pair)) == trees(pairs).push(pair@),
{
    assert(trees(pairs.push(pair)) =~= trees(pairs).push(pair@));
}

/// A list of no nodes has no values.
pub proof fn lemma_trees_empty()
    ensures
        trees(Seq::<Pair>::empty()) == Seq::<Tree>::empty(),
{
    assert(trees(Seq::<Pair>::empty()) =~= Seq::<Tree>::empty());
}

} // verus!
