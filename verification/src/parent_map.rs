//! The parents of the nodes of a statement's syntax tree.

use std::collections::HashMap;
use vstd::prelude::*;

verus! {

broadcast use vstd::std_specs::hash::group_hash_axioms;

/// The identity of a node of a statement's syntax tree.
#[derive(Debug, PartialEq, Eq, Hash, Clone, Copy, Structural)]
pub struct Id(u32);

impl Id {
    /// The number that the identity is.
    pub closed spec fn value(self) -> u32 {
        self.0
    }

    /// Takes the next identity from `counter` and moves the counter on; behind the last
    /// number the counter starts again at zero.
    pub fn new(counter: &mut u32) -> (id: Id)
        ensures
            id.value() == *old(counter),
            *final(counter) == (if *old(counter) == u32::MAX {
                0
            } else {
                *old(counter) + 1
            }),
    {
        let increment = *counter;
        *counter = if increment == u32::MAX {
            0
        } else {
            increment + 1
        };
        Id(increment)
    }

    /// Returns the number that the identity is.
    pub fn raw(&self) -> (value: u32)
        ensures
            value == self.value(),
    {
        self.0
    }
}

/// The kinds of node that can have other nodes below them.
#[derive(Debug, PartialEq, Eq, Clone, Copy, Structural)]
pub enum NodeKind {
    Command,
    FromItem,
    WithItem,
}

/// A node that can have other nodes below it, known by its kind and its identity.
#[derive(Debug, PartialEq, Eq, Clone, Copy, Structural)]
pub enum Node {
    Command(Id),
    FromItem(Id),
    WithItem(Id),
}

impl Node {
    /// The node's identity.
    pub open spec fn ident(self) -> Id {
        match self {
            Node::Command(id) => id,
            Node::FromItem(id) => id,
            Node::WithItem(id) => id,
        }
    }

    /// The node's kind.
    pub open spec fn sort(self) -> NodeKind {
        match self {
            Node::Command(_) => NodeKind::Command,
            Node::FromItem(_) => NodeKind::FromItem,
            Node::WithItem(_) => NodeKind::WithItem,
        }
    }

    /// Returns the node's identity.
    pub fn id(&self) -> (id: &Id)
        ensures
            *id == self.ident(),
    {
        match self {
            Self::Command(inner) => inner,
            Self::FromItem(inner) => inner,
            Self::WithItem(inner) => inner,
        }
    }

    /// Returns the node's kind.
    pub fn kind(&self) -> (kind: NodeKind)
        ensures
            kind == self.sort(),
    {
        match self {
            Self::Command(_) => NodeKind::Command,
            Self::FromItem(_) => NodeKind::FromItem,
            Self::WithItem(_) => NodeKind::WithItem,
        }
    }
}

/// The nearest node of kind `kind` above the node with identity `id`, looked for over at
/// most `steps` parents.
pub open spec fn nearest(parents: Map<u32, Node>, id: u32, kind: NodeKind, steps: nat) -> Option<
    Node,
>
    decreases steps,
{
    if steps == 0 || !parents.contains_key(id) {
        None
    } else if parents[id].sort() == kind {
        Some(parents[id])
    } else {
        nearest(parents, parents[id].ident().value(), kind, (steps - 1) as nat)
    }
}

/// For each node that has one, the node directly above it.
pub struct ParentMap {
    map: HashMap<u32, Node>,
}

impl View for ParentMap {
    type V = Map<u32, Node>;

    /// The parent of each node that has one, by the number of the node's identity.
    closed spec fn view(&self) -> Map<u32, Node> {
        self.map@
    }
}

impl ParentMap {
    /// Returns the node directly above `node`, if there is one.
    pub fn parent(&self, node: &Node) -> (parent: Option<&Node>)
        ensures
            parent matches Some(found) ==> self@.contains_key(node.ident().value()) && *found
                == self@[node.ident().value()],
            parent is None ==> !self@.contains_key(node.ident().value()),
    {
        let key = node.id().raw();
        self.map.get(&key)
    }

    /// Returns the nearest node of kind `kind` above `node`. The search goes up parent
    /// by parent, over as many steps as the map has entries; where the parents run in a
    /// circle that holds no such node, there is none.
    pub fn seek_parent(&self, node: &Node, kind: NodeKind) -> (found: Option<&Node>)
        ensures
            found matches Some(parent) ==> nearest(
                self@,
                node.ident().value(),
                kind,
                self@.len(),
            ) == Some(*parent),
            found is None ==> nearest(self@, node.ident().value(), kind, self@.len()) is None,
    {
        let mut key = node.id().raw();
        let mut steps = self.map.len();
        while steps > 0
            invariant
                nearest(self@, node.ident().value(), kind, self@.len()) == nearest(
                    self@,
                    key,
                    kind,
                    steps as nat,
                ),
            decreases steps,
        {
            match self.map.get(&key) {
                Some(parent) => {
                    if parent.kind() == kind {
                        return Some(parent);
                    }
                    key = parent.id().raw();
                },
                None => {
                    return None;
                },
            }
            steps -= 1;
        }
        None
    }
}

/// Builds a parent map while a syntax tree is walked from the root down.
pub struct ParentMapBuilder {
    parent_map: ParentMap,
    stack: Vec<Node>,
}

impl ParentMapBuilder {
    /// The parents recorded so far.
    pub closed spec fn parents(&self) -> Map<u32, Node> {
        self.parent_map@
    }

    /// The nodes that the walk is inside of, the innermost last.
    pub closed spec fn path(&self) -> Seq<Node> {
        self.stack@
    }

    /// A builder at the start of a walk.
    pub fn new() -> (builder: ParentMapBuilder)
        ensures
            builder.parents() == Map::<u32, Node>::empty(),
            builder.path() == Seq::<Node>::empty(),
    {
        ParentMapBuilder { parent_map: ParentMap { map: HashMap::new() }, stack: Vec::new() }
    }

    /// Hands out the map that has been built.
    pub fn build(self) -> (map: ParentMap)
        ensures
            map@ == self.parents(),
    {
        self.parent_map
    }

    /// Returns `true` if a parent has been recorded for `node`.
    pub fn has_parent(&self, node: &Node) -> (known: bool)
        ensures
            known == self.parents().contains_key(node.ident().value()),
    {
        let key = node.id().raw();
        self.parent_map.map.contains_key(&key)
    }

    /// Returns the number of nodes that the walk is inside of.
    pub fn depth(&self) -> (depth: usize)
        ensures
            depth == self.path().len(),
    {
        self.stack.len()
    }

    /// The walk enters `node`: the innermost node that the walk is inside of becomes its
    /// parent. A node is entered once: it must not have a parent already.
    pub fn visit_parent_node(&mut self, node: Node)
        requires
            old(self).path().len() > 0 ==> !old(self).parents().contains_key(node.ident().value()),
        ensures
            final(self).path() == old(self).path().push(node),
            final(self).parents() == (if old(self).path().len() > 0 {
                old(self).parents().insert(node.ident().value(), old(self).path().last())
            } else {
                old(self).parents()
            }),
    {
        if self.stack.len() > 0 {
            let parent = self.stack[self.stack.len() - 1];
            let key = node.id().raw();
            self.parent_map.map.insert(key, parent);
        }
        self.stack.push(node);
    }

    /// The walk leaves the innermost node that it is inside of.
    pub fn end_parent_node(&mut self)
        ensures
            final(self).parents() == old(self).parents(),
            final(self).path() == (if old(self).path().len() > 0 {
                old(self).path().drop_last()
            } else {
                old(self).path()
            }),
    {
        self.stack.pop();
    }
}

} // verus!
