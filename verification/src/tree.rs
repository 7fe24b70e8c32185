//! The filter tree: condition leaves and AND/OR groups.

use vstd::prelude::*;
use crate::error::FilterError;

verus! {

/// The logical connective of a group node.
#[derive(Clone, Copy, Debug, PartialEq, Eq, Structural)]
pub enum Operator {
    AND,
    OR,
}

impl Operator {
    /// The number that stands for this connective on the wire.
    pub open spec fn spec_code(self) -> u8 {
        match self {
            Operator::AND => 1u8,
            Operator::OR => 2u8,
        }
    }

    /// The number that stands for this connective on the wire: 1 for AND, 2 for OR.
    pub fn code(&self) -> (c: u8)
        ensures
            c == self.spec_code(),
    {
        match self {
            Operator::AND => 1u8,
            Operator::OR => 2u8,
        }
    }
}

/// A filter tree as a mathematical value.
pub enum Tree {
    /// One test on a transaction attribute.
    Condition { key: Seq<char>, value: Seq<u8> },
    /// The combination of `children`, in this order, under `kind`.
    Group { kind: Operator, children: Seq<Tree> },
}

/// The attribute names a condition may carry.
pub open spec fn is_known_key(key: Seq<char>) -> bool {
    key == "to"@ || key == "from"@ || key == "method"@ || key == "value"@
}

/// A path of child indices as plain integers.
pub open spec fn path_of(path: Seq<usize>) -> Seq<int> {
    path.map_values(|i: usize| i as int)
}

impl Tree {
    /// The children of a group; a condition has none.
    pub open spec fn children(self) -> Seq<Tree> {
        match self {
            Tree::Condition { .. } => Seq::empty(),
            Tree::Group { children, .. } => children,
        }
    }

    /// The node reached from this one by taking, at each step, the child whose
    /// index `path` gives; `None` where `path` leaves the tree.
    pub open spec fn node_at(self, path: Seq<int>) -> Option<Tree>
        decreases path.len(),
    {
        if path.len() == 0 {
            Some(self)
        } else if 0 <= path[0] < self.children().len() {
            self.children()[path[0]].node_at(path.drop_first())
        } else {
            None
        }
    }

    /// Whether `path` leads to a group, the only kind of node that takes
    /// children.
    pub open spec fn has_group_at(self, path: Seq<int>) -> bool {
        self.node_at(path) matches Some(t) && t is Group
    }

    /// This tree with `child` appended to the children of the group at
    /// `path`. Where `path` leads to no group the tree stays as it is.
    pub open spec fn attach(self, path: Seq<int>, child: Tree) -> Tree
        decreases path.len(),
    {
        match self {
            Tree::Condition { .. } => self,
            Tree::Group { kind, children } => if path.len() == 0 {
                Tree::Group { kind, children: children.push(child) }
            } else if 0 <= path[0] < children.len() {
                Tree::Group {
                    kind,
                    children: children.update(
                        path[0],
                        children[path[0]].attach(path.drop_first(), child),
                    ),
                }
            } else {
                self
            },
        }
    }

    /// Whether this tree is `old` grown: every node of `old` is where it was,
    /// a condition as it was, a group of the same kind with the children it
    /// had, in the order it had them, in front of any new ones.
    pub open spec fn extends(self, old: Tree) -> bool
        decreases old,
    {
        match old {
            Tree::Condition { .. } => self == old,
            Tree::Group { kind, children } => {
                &&& self is Group
                &&& self->kind == kind
                &&& children.len() <= self.children().len()
                &&& forall|i: int|
                    0 <= i < children.len() ==> self.children()[i].extends(#[trigger] children[i])
            },
        }
    }
}

/// Every tree is itself grown by nothing.
pub proof fn lemma_extends_itself(t: Tree)
    ensures
        t.extends(t),
    decreases t,
{
    match t {
        Tree::Condition { .. } => {},
        Tree::Group { kind, children } => {
            assert forall|i: int| 0 <= i < children.len() implies t.children()[i].extends(
                #[trigger] children[i],
            ) by {
                lemma_extends_itself(children[i]);
            }
        },
    }
}

/// Children are only ever appended: whatever is attached and wherever, no
/// node of the tree is taken away, changed or moved.
pub proof fn lemma_attach_extends(t: Tree, at: Seq<int>, child: Tree)
    ensures
        t.attach(at, child).extends(t),
    decreases at.len(),
{
    let grown = t.attach(at, child);
    match t {
        Tree::Condition { .. } => {},
        Tree::Group { kind, children } => {
            assert forall|i: int| 0 <= i < children.len() implies grown.children()[i].extends(
                #[trigger] children[i],
            ) by {
                if at.len() > 0 && at[0] == i {
                    lemma_attach_extends(children[i], at.drop_first(), child);
                } else {
                    lemma_extends_itself(children[i]);
                }
            }
        },
    }
}

/// Appending a child under one group leaves every group where it was:
/// a path that led to a group still does.
pub proof fn lemma_attach_keeps_groups(t: Tree, at: Seq<int>, child: Tree, other: Seq<int>)
    requires
        t.has_group_at(other),
    ensures
        t.attach(at, child).has_group_at(other),
    decreases other.len(),
{
    if other.len() > 0 && at.len() > 0 && at[0] == other[0] {
        lemma_attach_keeps_groups(
            t.children()[at[0]],
            at.drop_first(),
            child,
            other.drop_first(),
        );
    }
}

/// Appending a child changes the group it goes under in one way only: the
/// child stands behind the children that were there.
pub proof fn lemma_attach_appends(t: Tree, at: Seq<int>, child: Tree)
    requires
        t.has_group_at(at),
    ensures
        t.attach(at, child).node_at(at) == Some(
            Tree::Group {
                kind: t.node_at(at)->0->kind,
                children: t.node_at(at)->0.children().push(child),
            },
        ),
    decreases at.len(),
{
    if at.len() > 0 {
        lemma_attach_appends(t.children()[at[0]], at.drop_first(), child);
    }
}

/// The node one step below the node at `path` is that node's child.
pub proof fn lemma_node_at_push(t: Tree, path: Seq<int>, k: int)
    requires
        t.node_at(path) is Some,
        0 <= k < t.node_at(path)->0.children().len(),
    ensures
        t.node_at(path.push(k)) == Some(t.node_at(path)->0.children()[k]),
    decreases path.len(),
{
    let longer = path.push(k);
    if path.len() == 0 {
        assert(t.children()[k].node_at(longer.drop_first()) == Some(t.children()[k]));
    } else {
        lemma_node_at_push(t.children()[path[0]], path.drop_first(), k);
        assert(longer.drop_first() =~= path.drop_first().push(k));
    }
}

/// The key and the raw bytes of one condition.
#[derive(Debug)]
pub struct FilterKV {
    pub key: String,
    pub value: Vec<u8>,
}

/// A node of the tree, in the shape it has on the wire: a condition has an
/// `operand` and nothing else, a group has an `operator` and, once it has
/// children, `nodes`.
#[derive(Debug)]
pub struct Node {
    pub operand: Option<FilterKV>,
    pub operator: Option<Operator>,
    pub nodes: Option<Vec<Node>>,
}

impl Clone for FilterKV {
    fn clone(&self) -> (res: Self)
        ensures
            res.key@ == self.key@,
            res.value@ == self.value@,
    {
        FilterKV { key: self.key.clone(), value: self.value.clone() }
    }
}

impl Clone for Node {
    /// A copy that shares nothing with the node it was made from.
    fn clone(&self) -> (res: Self)
        ensures
            res@ == self@,
            self.wf() ==> res.wf(),
        decreases self,
    {
        let operand = match &self.operand {
            Some(kv) => Some(kv.clone()),
            None => None,
        };
        let nodes = match &self.nodes {
            Some(v) => {
                let mut copies: Vec<Node> = Vec::new();
                let mut i: usize = 0;
                while i < v.len()
                    invariant
                        self.nodes == Some(*v),
                        i <= v.len(),
                        copies.len() == i,
                        forall|j: int| 0 <= j < i ==> (#[trigger] copies@[j])@ == v@[j]@,
                        forall|j: int| 0 <= j < i && v@[j].wf() ==> (#[trigger] copies@[j]).wf(),
                    decreases v.len() - i,
                {
                    proof {
                        assert(decreases_to!(self.nodes => self.nodes->0));
                    }
                    let copy = v[i].clone();
                    copies.push(copy);
                    i += 1;
                }
                Some(copies)
            },
            None => None,
        };
        let res = Node { operand, operator: self.operator, nodes };
        assert(res@.children() =~= self@.children());
        res
    }
}

impl View for Node {
    type V = Tree;

    open spec fn view(&self) -> Tree
        decreases self,
    {
        match self.operand {
            Some(kv) => Tree::Condition { key: kv.key@, value: kv.value@ },
            None => Tree::Group {
                kind: match self.operator {
                    Some(kind) => kind,
                    None => Operator::AND,
                },
                children: match self.nodes {
                    Some(v) => Seq::new(
                        v@.len(),
                        |i: int|
                            if 0 <= i < v@.len() {
                                v@[i]@
                            } else {
                                Tree::Group { kind: Operator::AND, children: Seq::empty() }
                            },
                    ),
                    None => Seq::empty(),
                },
            },
        }
    }
}

impl Node {
    /// A node is well formed when it is either a condition with a known key
    /// and no children, or a group whose list of children, where it has one,
    /// is not empty and holds well-formed nodes.
    pub open spec fn wf(self) -> bool
        decreases self,
    {
        match self.operand {
            Some(kv) => self.operator is None && self.nodes is None && is_known_key(kv.key@),
            None => self.operator is Some && match self.nodes {
                Some(v) => v@.len() > 0 && forall|i: int|
                    0 <= i < v@.len() ==> (#[trigger] v@[i]).wf(),
                None => true,
            },
        }
    }

    /// A condition on the attribute `key` with the raw bytes `value`.
    pub fn condition(key: &str, value: Vec<u8>) -> (node: Node)
        requires
            is_known_key(key@),
        ensures
            node.wf(),
            node@ == (Tree::Condition { key: key@, value: value@ }),
    {
        Node {
            operand: Some(FilterKV { key: key.to_owned(), value }),
            operator: None,
            nodes: None,
        }
    }

    /// A group of the given kind with no children yet.
    pub fn group(kind: Operator) -> (node: Node)
        ensures
            node.wf(),
            node@ == (Tree::Group { kind, children: Seq::empty() }),
    {
        Node { operand: None, operator: Some(kind), nodes: None }
    }

    /// Whether this node is a condition.
    pub fn is_condition(&self) -> (b: bool)
        ensures
            b == (self@ is Condition),
    {
        self.operand.is_some()
    }

    /// Whether `path` leads from this node to a group.
    pub fn has_group_at(&self, path: &[usize]) -> (b: bool)
        requires
            self.wf(),
        ensures
            b == self@.has_group_at(path_of(path@)),
    {
        assert(path_of(path@).skip(0) =~= path_of(path@));
        self.has_group_from(path, 0)
    }

    fn has_group_from(&self, path: &[usize], at: usize) -> (b: bool)
        requires
            self.wf(),
            at <= path@.len(),
        ensures
            b == self@.has_group_at(path_of(path@).skip(at as int)),
        decreases path@.len() - at,
    {
        let ghost rest = path_of(path@).skip(at as int);
        if at == path.len() {
            self.operand.is_none()
        } else {
            let i = path[at];
            assert(rest.drop_first() == path_of(path@).skip(at + 1));
            match &self.nodes {
                Some(v) => if i < v.len() {
                    v[i].has_group_from(path, at + 1)
                } else {
                    false
                },
                None => false,
            }
        }
    }

    /// Appends `child` to the children of the group that `path` leads to and
    /// gives the index at which it then stands among them. Where `path`
    /// leads to no group, nothing is changed.
    pub fn attach(&mut self, path: &[usize], child: Node) -> (res: Result<usize, FilterError>)
        requires
            old(self).wf(),
            child.wf(),
        ensures
            final(self).wf(),
            match res {
                Ok(k) => {
                    &&& old(self)@.has_group_at(path_of(path@))
                    &&& final(self)@ == old(self)@.attach(path_of(path@), child@)
                    &&& k == old(self)@.node_at(path_of(path@))->0.children().len()
                },
                Err(e) => {
                    &&& e == FilterError::InvalidAttachment
                    &&& !old(self)@.has_group_at(path_of(path@))
                    &&& *final(self) == *old(self)
                },
            },
    {
        assert(path_of(path@).skip(0) =~= path_of(path@));
        if self.has_group_at(path) {
            Ok(self.attach_from(path, 0, child))
        } else {
            Err(FilterError::InvalidAttachment)
        }
    }

    /// Appends `child` under the group that the part of `path` from index
    /// `at` on leads to.
    pub(crate) fn attach_from(&mut self, path: &[usize], at: usize, child: Node) -> (k: usize)
        requires
            old(self).wf(),
            child.wf(),
            at <= path@.len(),
            old(self)@.has_group_at(path_of(path@).skip(at as int)),
        ensures
            final(self).wf(),
            final(self)@ == old(self)@.attach(path_of(path@).skip(at as int), child@),
            k == old(self)@.node_at(path_of(path@).skip(at as int))->0.children().len(),
        decreases path@.len() - at,
    {
        let ghost rest = path_of(path@).skip(at as int);
        if at == path.len() {
            match &mut self.nodes {
                Some(v) => {
                    let k = v.len();
                    v.push(child);
                    assert(self@.children() =~= old(self)@.children().push(child@));
                    k
                },
                None => {
                    let mut v: Vec<Node> = Vec::new();
                    v.push(child);
                    self.nodes = Some(v);
                    assert(self@.children() =~= old(self)@.children().push(child@));
                    0
                },
            }
        } else {
            let i = path[at];
            assert(rest.drop_first() == path_of(path@).skip(at + 1));
            let kids = self.nodes.as_mut().unwrap();
            let k = kids[i].attach_from(path, at + 1, child);
            assert(self@.children() =~= old(self)@.children().update(
                i as int,
                old(self)@.children()[i as int].attach(rest.drop_first(), child@),
            ));
            k
        }
    }
}

} // verus!
