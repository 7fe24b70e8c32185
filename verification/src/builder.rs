//! The builder: a tree under construction and the place in it where the next
//! node goes.
//!
//! Two choices are made here on purpose.
//!
//! * One saved position. Opening a group remembers the position it was opened
//!   from in a single slot, and `exit` returns there and empties the slot. A
//!   second `exit` in a row therefore changes nothing: after two nested groups
//!   the position is at the outer group, not at the place the outer group was
//!   opened from.
//! * A root condition is wrapped. A condition added to an empty filter is the
//!   root. The next node added turns the root into an AND group that holds
//!   the old root first and the new node second, and the position is that
//!   group. A condition never has children.

use vstd::prelude::*;
use crate::error::FilterError;
use crate::parse::{address, address_bytes, bytes, hex_bytes};
use crate::tree::{Node, Operator, Tree, is_known_key, path_of};
use crate::tree::{
    lemma_attach_appends, lemma_attach_extends, lemma_attach_keeps_groups, lemma_node_at_push,
};
use crate::value::{U256, be_bytes, from_u256};

verus! {

/// What a builder holds, as a mathematical value: the tree so far, the
/// position under which the next node goes, and the one saved position. A
/// position is the path of child indices that leads to it from the root.
pub struct BuilderState {
    pub root: Option<Tree>,
    pub current: Option<Seq<int>>,
    pub saved: Option<Seq<int>>,
}

impl BuilderState {
    /// The state of a fresh builder.
    pub open spec fn empty() -> BuilderState {
        BuilderState { root: None, current: None, saved: None }
    }

    /// Without a root there are no positions. With one, the current position
    /// is the root itself or a group, and the saved position, where there is
    /// one, is a group.
    pub open spec fn wf(self) -> bool {
        match self.root {
            None => self.current is None && self.saved is None,
            Some(t) => {
                &&& self.current matches Some(p) && (p.len() == 0 || t.has_group_at(p))
                &&& self.saved matches Some(q) ==> t.has_group_at(q)
            },
        }
    }

    /// The nodes that a node placed now gets as its elder siblings: none in
    /// an empty filter, the root where it is a condition, and otherwise the
    /// children of the group at the current position.
    pub open spec fn siblings(self) -> Seq<Tree> {
        match self.root {
            None => Seq::empty(),
            Some(t) => match t {
                Tree::Condition { .. } => seq![t],
                Tree::Group { .. } => t.node_at(self.current->0)->0.children(),
            },
        }
    }

    /// The tree once `child` has been placed: the root of an empty filter,
    /// the second child of the AND group that wraps a root condition, or
    /// the last child of the group at the current position.
    pub open spec fn grown(self, child: Tree) -> Tree {
        match self.root {
            None => child,
            Some(t) => match t {
                Tree::Condition { .. } => Tree::Group {
                    kind: Operator::AND,
                    children: seq![t, child],
                },
                Tree::Group { .. } => t.attach(self.current->0, child),
            },
        }
    }

    /// The state after `child` has been placed and the position kept.
    pub open spec fn add(self, child: Tree) -> BuilderState {
        BuilderState {
            root: Some(self.grown(child)),
            current: Some(
                match self.current {
                    Some(p) => p,
                    None => Seq::empty(),
                },
            ),
            saved: self.saved,
        }
    }

    /// The state after a condition has been added.
    pub open spec fn condition(self, key: Seq<char>, value: Seq<u8>) -> BuilderState {
        self.add(Tree::Condition { key, value })
    }

    /// The state after an empty group of `kind` has been placed and entered:
    /// the position it was opened from is saved, and the new group is the
    /// current position. In an empty filter the group is the root and
    /// nothing is saved.
    pub open spec fn open_group(self, kind: Operator) -> BuilderState {
        let group = Tree::Group { kind, children: Seq::empty() };
        match self.current {
            None => self.add(group),
            Some(p) => BuilderState {
                root: Some(self.grown(group)),
                current: Some(p.push(self.siblings().len() as int)),
                saved: Some(p),
            },
        }
    }

    /// The state after leaving a group: back at the saved position, with the
    /// slot empty; unchanged where nothing was saved.
    pub open spec fn exit(self) -> BuilderState {
        match self.saved {
            Some(q) => BuilderState { root: self.root, current: Some(q), saved: None },
            None => self,
        }
    }

    /// The state after the nodes of `children` have been placed one after
    /// another.
    pub open spec fn add_all(self, children: Seq<Tree>) -> BuilderState
        decreases children.len(),
    {
        if children.len() == 0 {
            self
        } else {
            self.add_all(children.drop_last()).add(children.last())
        }
    }
}

/// Placing a node keeps a state well formed. The node stands behind the
/// siblings it found, and a root that is a group only grows.
pub proof fn lemma_add(s: BuilderState, child: Tree)
    requires
        s.wf(),
    ensures
        s.add(child).wf(),
        s.root is Some ==> s.add(child).siblings() == s.siblings().push(child),
        s.root matches Some(t) ==> (t is Group ==> s.grown(child).extends(t)),
{
    match s.root {
        None => {},
        Some(t) => {
            let p = s.current->0;
            match t {
                Tree::Condition { .. } => {},
                Tree::Group { .. } => {
                    lemma_attach_extends(t, p, child);
                    lemma_attach_keeps_groups(t, p, child, p);
                    lemma_attach_appends(t, p, child);
                    if s.saved is Some {
                        lemma_attach_keeps_groups(t, p, child, s.saved->0);
                    }
                },
            }
        },
    }
}

/// Opening a group keeps a state well formed.
pub proof fn lemma_open_group_wf(s: BuilderState, kind: Operator)
    requires
        s.wf(),
    ensures
        s.open_group(kind).wf(),
{
    let group = Tree::Group { kind, children: Seq::empty() };
    lemma_add(s, group);
    if s.root is Some {
        let grown = s.add(group);
        let p = s.current->0;
        let k = s.siblings().len() as int;
        lemma_node_at_push(grown.root->0, p, k);
    }
}

/// Leaving a group keeps a state well formed.
pub proof fn lemma_exit_wf(s: BuilderState)
    requires
        s.wf(),
    ensures
        s.exit().wf(),
{
}

/// Only one position is saved: leaving twice in a row is leaving once.
pub proof fn lemma_exit_twice(s: BuilderState)
    ensures
        s.exit().exit() == s.exit(),
{
}

/// Conditions added to an empty filter with no group opened: one alone is
/// the root, and two or more are, in the order they came in, the children of
/// an AND group that is the root. The position is the root.
pub proof fn lemma_conditions_only(conditions: Seq<Tree>)
    requires
        conditions.len() > 0,
        forall|i: int| 0 <= i < conditions.len() ==> conditions[i] is Condition,
    ensures
        BuilderState::empty().add_all(conditions) == (BuilderState {
            root: Some(
                if conditions.len() == 1 {
                    conditions[0]
                } else {
                    Tree::Group { kind: Operator::AND, children: conditions }
                },
            ),
            current: Some(Seq::empty()),
            saved: None,
        }),
    decreases conditions.len(),
{
    let start = BuilderState::empty();
    let front = conditions.drop_last();
    if conditions.len() == 1 {
        assert(start.add_all(front) == start);
    } else {
        lemma_conditions_only(front);
        assert(start.add_all(conditions).root->0.children() =~= conditions);
    }
}

/// A group that is opened in a filter with a root and left at once stays
/// empty: the condition added next stands beside it, right behind it, under
/// the position the group was opened from, and that is the position again.
pub proof fn lemma_left_group_stays_empty(
    s: BuilderState,
    kind: Operator,
    key: Seq<char>,
    value: Seq<u8>,
)
    requires
        s.wf(),
        s.root is Some,
    ensures
        ({
            let group = Tree::Group { kind, children: Seq::empty() };
            let condition = Tree::Condition { key, value };
            let end = s.open_group(kind).exit().condition(key, value);
            &&& end == BuilderState { saved: None, ..s.add(group).add(condition) }
            &&& end.current == s.current
            &&& end.siblings() == s.siblings().push(group).push(condition)
        }),
{
    let group = Tree::Group { kind, children: Seq::empty() };
    let condition = Tree::Condition { key, value };
    lemma_add(s, group);
    lemma_add(s.add(group), condition);
}

/// A filter under construction.
#[derive(Debug)]
pub struct Filter {
    root: Option<Node>,
    next: Vec<usize>,
    last: Option<Vec<usize>>,
}

impl View for Filter {
    type V = BuilderState;

    closed spec fn view(&self) -> BuilderState {
        BuilderState {
            root: match self.root {
                Some(r) => Some(r@),
                None => None,
            },
            current: match self.root {
                Some(_) => Some(path_of(self.next@)),
                None => None,
            },
            saved: match self.last {
                Some(q) => Some(path_of(q@)),
                None => None,
            },
        }
    }
}

fn copy_path(path: &Vec<usize>) -> (copy: Vec<usize>)
    ensures
        copy@ == path@,
{
    let mut copy: Vec<usize> = Vec::new();
    let mut i: usize = 0;
    while i < path.len()
        invariant
            i <= path.len(),
            copy@ == path@.take(i as int),
        decreases path.len() - i,
    {
        copy.push(path[i]);
        i += 1;
    }
    copy
}

impl Clone for Filter {
    fn clone(&self) -> (res: Self)
        ensures
            res@ == self@,
            self.wf() ==> res.wf(),
    {
        Filter {
            root: match &self.root {
                Some(r) => Some(r.clone()),
                None => None,
            },
            next: copy_path(&self.next),
            last: match &self.last {
                Some(q) => Some(copy_path(q)),
                None => None,
            },
        }
    }
}

impl Filter {
    /// The invariant of a filter: its state is well formed, and so is every
    /// node of its tree.
    pub closed spec fn wf(self) -> bool {
        &&& self@.wf()
        &&& self.root matches Some(r) ==> r.wf()
        &&& self.root is None ==> self.next@.len() == 0
    }

    /// A filter with no root.
    pub fn new() -> (filter: Filter)
        ensures
            filter.wf(),
            filter@ == BuilderState::empty(),
    {
        Filter { root: None, next: Vec::new(), last: None }
    }

    /// The root of the tree, if there is one yet.
    pub fn root(&self) -> (root: Option<&Node>)
        ensures
            match root {
                Some(node) => self@.root == Some(node@) && (self.wf() ==> node.wf()),
                None => self@.root is None,
            },
    {
        self.root.as_ref()
    }

    /// Places `child` and leaves the position where it is. Gives the index at
    /// which `child` stands among its siblings.
    fn place(&mut self, child: Node) -> (k: usize)
        requires
            old(self).wf(),
            child.wf(),
        ensures
            final(self).wf(),
            final(self)@ == old(self)@.add(child@),
            k == old(self)@.siblings().len(),
    {
        proof {
            lemma_add(self@, child@);
            assert(path_of(self.next@).skip(0) =~= path_of(self.next@));
        }
        match self.root.take() {
            None => {
                self.root = Some(child);
                assert(path_of(self.next@) =~= Seq::<int>::empty());
                0
            },
            Some(mut root) => {
                if root.is_condition() {
                    let ghost old_root = root@;
                    let mut nodes: Vec<Node> = Vec::new();
                    nodes.push(root);
                    nodes.push(child);
                    let group = Node {
                        operand: None,
                        operator: Some(Operator::AND),
                        nodes: Some(nodes),
                    };
                    assert(group@.children() =~= seq![old_root, child@]);
                    self.root = Some(group);
                    1
                } else {
                    let k = root.attach_from(self.next.as_slice(), 0, child);
                    self.root = Some(root);
                    k
                }
            },
        }
    }

    /// Adds a condition on the attribute `key` with the raw bytes `value` at
    /// the current position.
    pub fn condition(&mut self, key: &str, value: Vec<u8>) -> (ret: &mut Filter)
        requires
            old(self).wf(),
            is_known_key(key@),
        ensures
            ret.wf(),
            ret@ == old(self)@.condition(key@, value@),
            *final(self) == *final(ret),
    {
        let node = Node::condition(key, value);
        self.place(node);
        self
    }

    /// Adds the condition that the recipient is the address that `to` holds
    /// in hexadecimal. Text that is no address changes nothing.
    pub fn to(&mut self, to: &str) -> (res: Result<&mut Filter, FilterError>)
        requires
            old(self).wf(),
        ensures
            match res {
                Ok(ret) => {
                    &&& address_bytes(to@) matches Some(value)
                    &&& value.len() == 20
                    &&& ret.wf()
                    &&& ret@ == old(self)@.condition("to"@, value)
                    &&& *final(self) == *final(ret)
                },
                Err(e) => {
                    &&& e == FilterError::AddressParseError
                    &&& address_bytes(to@) is None
                    &&& *final(self) == *old(self)
                },
            },
    {
        match address(to) {
            Ok(value) => Ok(self.condition("to", value)),
            Err(e) => Err(e),
        }
    }

    /// Adds the condition that the sender is the address that `from` holds
    /// in hexadecimal. Text that is no address changes nothing.
    pub fn from(&mut self, from: &str) -> (res: Result<&mut Filter, FilterError>)
        requires
            old(self).wf(),
        ensures
            match res {
                Ok(ret) => {
                    &&& address_bytes(from@) matches Some(value)
                    &&& value.len() == 20
                    &&& ret.wf()
                    &&& ret@ == old(self)@.condition("from"@, value)
                    &&& *final(self) == *final(ret)
                },
                Err(e) => {
                    &&& e == FilterError::AddressParseError
                    &&& address_bytes(from@) is None
                    &&& *final(self) == *old(self)
                },
            },
    {
        match address(from) {
            Ok(value) => Ok(self.condition("from", value)),
            Err(e) => Err(e),
        }
    }

    /// Adds the condition that the method selector is the bytes that `id`
    /// holds in hexadecimal, however many they are. Text that is no byte
    /// string changes nothing.
    pub fn method_id(&mut self, id: &str) -> (res: Result<&mut Filter, FilterError>)
        requires
            old(self).wf(),
        ensures
            match res {
                Ok(ret) => {
                    &&& hex_bytes(id@) matches Some(value)
                    &&& ret.wf()
                    &&& ret@ == old(self)@.condition("method"@, value)
                    &&& *final(self) == *final(ret)
                },
                Err(e) => {
                    &&& e == FilterError::HexParseError
                    &&& hex_bytes(id@) is None
                    &&& *final(self) == *old(self)
                },
            },
    {
        match bytes(id) {
            Ok(value) => Ok(self.condition("method", value)),
            Err(e) => Err(e),
        }
    }

    /// Adds the condition that the value is `v`, given by its shortest
    /// big-endian bytes.
    pub fn value(&mut self, v: U256) -> (ret: &mut Filter)
        requires
            old(self).wf(),
        ensures
            ret.wf(),
            ret@ == old(self)@.condition("value"@, be_bytes(v@)),
            *final(self) == *final(ret),
    {
        self.condition("value", from_u256(v))
    }

    /// Places an empty group of `kind` at the current position and enters
    /// it.
    fn open(&mut self, kind: Operator)
        requires
            old(self).wf(),
        ensures
            final(self).wf(),
            final(self)@ == old(self)@.open_group(kind),
    {
        proof {
            lemma_open_group_wf(self@, kind);
        }
        let had_root = self.root.is_some();
        let k = self.place(Node::group(kind));
        if had_root {
            let saved = copy_path(&self.next);
            self.next.push(k);
            assert(path_of(self.next@) =~= path_of(saved@).push(k as int));
            self.last = Some(saved);
        }
    }

    /// Places an empty AND group at the current position and enters it.
    /// The position it was opened from is saved for `exit`.
    pub fn and(&mut self) -> (ret: &mut Filter)
        requires
            old(self).wf(),
        ensures
            ret.wf(),
            ret@ == old(self)@.open_group(Operator::AND),
            *final(self) == *final(ret),
    {
        self.open(Operator::AND);
        self
    }

    /// Places an empty OR group at the current position and enters it.
    /// The position it was opened from is saved for `exit`.
    pub fn or(&mut self) -> (ret: &mut Filter)
        requires
            old(self).wf(),
        ensures
            ret.wf(),
            ret@ == old(self)@.open_group(Operator::OR),
            *final(self) == *final(ret),
    {
        self.open(Operator::OR);
        self
    }

    /// Goes back to the saved position and empties the slot. Changes nothing
    /// where no position is saved.
    pub fn exit(&mut self) -> (ret: &mut Filter)
        requires
            old(self).wf(),
        ensures
            ret.wf(),
            ret@ == old(self)@.exit(),
            *final(self) == *final(ret),
    {
        match self.last.take() {
            Some(saved) => {
                self.next = saved;
            },
            None => {},
        }
        self
    }

    /// A copy of the filter, position included, that shares nothing with
    /// this one: what is done to either later leaves the other as it is.
    pub fn build(&self) -> (copy: Filter)
        ensures
            copy@ == self@,
            self.wf() ==> copy.wf(),
    {
        self.clone()
    }
}

} // verus!
