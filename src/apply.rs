//! Replays a changeset against a tree, as the client does; a diff is checked by replaying it.

use vstd::prelude::*;
use crate::changeset::{Changeset, Instruction, InstructionV, Op, OpV};
use crate::element::{leaf, AttrV, Element, ListenerRef, ListenerV, Node};

verus! {

/// Why a changeset could not be replayed. Either means that the changeset does not belong to
/// the tree.
#[derive(Debug, Clone, Copy, PartialEq, Eq, Structural)]
pub enum ApplyError {
    /// No node has the identity that the edit addresses.
    ElementNotFound,
    /// The edit cannot be replayed on a tree model (raw HTML).
    Unsupported,
}

/// Which node an edit changes: the one with an identity, or the parent of the one with an
/// identity.
pub enum Target {
    ById(usize),
    ParentOf(usize),
}

pub open spec fn target_of(o: OpV) -> Target {
    match o.instruction {
        InstructionV::InsertAfter { after_id } => Target::ParentOf(after_id),
        InstructionV::InsertBefore { before_id } => Target::ParentOf(before_id),
        InstructionV::DeleteEl => Target::ParentOf(o.id),
        InstructionV::CreateTag { name: _, parent_id: Some(p) } => Target::ById(p),
        _ => Target::ById(o.id),
    }
}

/// The first index at or after `i` of a node with identity `id`.
pub open spec fn child_index(c: Seq<Node>, id: usize, i: int) -> Option<int>
    decreases c.len() - i,
{
    if 0 <= i < c.len() {
        if c[i].id == id {
            Some(i)
        } else {
            child_index(c, id, i + 1)
        }
    } else {
        None
    }
}

pub open spec fn is_target(t: Node, target: Target) -> bool {
    match target {
        Target::ById(id) => t.id == id,
        Target::ParentOf(id) => child_index(t.children, id, 0) is Some,
    }
}

/// The first index of a pair with key `k`.
pub open spec fn attr_index(a: Seq<AttrV>, k: Seq<char>, i: int) -> Option<int>
    decreases a.len() - i,
{
    if 0 <= i < a.len() {
        if a[i].0 == k {
            Some(i)
        } else {
            attr_index(a, k, i + 1)
        }
    } else {
        None
    }
}

/// The attributes with `k` set to `v`: in place when present, else appended.
pub open spec fn attr_set(a: Seq<AttrV>, k: Seq<char>, v: Seq<char>) -> Seq<AttrV> {
    match attr_index(a, k, 0) {
        Some(i) => a.update(i, (k, v)),
        None => a.push((k, v)),
    }
}

/// The attributes without the pair for `k`.
pub open spec fn attr_remove(a: Seq<AttrV>, k: Seq<char>) -> Seq<AttrV> {
    match attr_index(a, k, 0) {
        Some(i) => a.remove(i),
        None => a,
    }
}

/// An edit applied to the node that it targets.
pub open spec fn edit_node(t: Node, o: OpV) -> Node {
    match o.instruction {
        InstructionV::InsertChild { new_child_id } => Node {
            children: t.children.push(leaf(new_child_id, Seq::empty())),
            ..t
        },
        InstructionV::InsertAfter { after_id } => Node {
            children: t.children.insert(
                child_index(t.children, after_id, 0).unwrap() + 1,
                leaf(o.id, Seq::empty()),
            ),
            ..t
        },
        InstructionV::InsertBefore { before_id } => Node {
            children: t.children.insert(
                child_index(t.children, before_id, 0).unwrap(),
                leaf(o.id, Seq::empty()),
            ),
            ..t
        },
        InstructionV::DeleteEl => Node {
            children: t.children.remove(child_index(t.children, o.id, 0).unwrap()),
            ..t
        },
        InstructionV::SetAttribute { key, value } => Node { attrs: attr_set(t.attrs, key, value), ..t },
        InstructionV::RemoveAttribute { key } => Node { attrs: attr_remove(t.attrs, key), ..t },
        InstructionV::SetId { value } => Node { id: value, ..t },
        InstructionV::SetText { value } => Node { text: Some(value), ..t },
        InstructionV::SetTagName { name } => Node { name, ..t },
        InstructionV::CreateTag { name, parent_id: _ } => Node {
            children: t.children.push(leaf(o.id, name)),
            ..t
        },
        InstructionV::RemoveText => Node { text: None, ..t },
        InstructionV::RemoveListeners => Node { listeners: Seq::empty(), ..t },
        InstructionV::AttachListener { name, on } => Node {
            listeners: t.listeners.push((name, on)),
            ..t
        },
        InstructionV::SetInnerHtml { element: _, html: _ } => t,
    }
}

/// The tree with the edit applied at the first target in depth-first pre-order, or `None`
/// when there is no target.
pub open spec fn edit_tree(t: Node, o: OpV) -> Option<Node>
    decreases t, 0int,
{
    if is_target(t, target_of(o)) {
        Some(edit_node(t, o))
    } else {
        match edit_children(t.children, o, 0) {
            Some(c) => Some(Node { children: c, ..t }),
            None => None,
        }
    }
}

/// The children with the edit applied within the first of them, from index `i` on, that
/// holds a target.
pub open spec fn edit_children(c: Seq<Node>, o: OpV, i: int) -> Option<Seq<Node>>
    decreases c, c.len() - i,
{
    if 0 <= i < c.len() {
        match edit_tree(c[i], o) {
            Some(n) => Some(c.update(i, n)),
            None => edit_children(c, o, i + 1),
        }
    } else {
        None
    }
}

/// One edit replayed against a tree. A `CreateTag` without a parent builds a new root.
pub open spec fn apply_op(t: Node, o: OpV) -> Result<Node, ApplyError> {
    match o.instruction {
        InstructionV::SetInnerHtml { element: _, html: _ } => Err(ApplyError::Unsupported),
        InstructionV::CreateTag { name, parent_id: None } => Ok(leaf(o.id, name)),
        _ => match edit_tree(t, o) {
            Some(n) => Ok(n),
            None => Err(ApplyError::ElementNotFound),
        },
    }
}

/// The edits replayed in order; the first that fails decides the error.
pub open spec fn apply_spec(ops: Seq<OpV>, t: Node) -> Result<Node, ApplyError>
    decreases ops.len(),
{
    if ops.len() == 0 {
        Ok(t)
    } else {
        match apply_spec(ops.drop_last(), t) {
            Ok(t2) => apply_op(t2, ops.last()),
            Err(e) => Err(e),
        }
    }
}

proof fn lemma_children_view_update(el: Element, old_el: Element, i: int, c: Element)
    requires
        0 <= i < old_el.children@.len(),
        el.children@ == old_el.children@.update(i, c),
    ensures
        el@.children == old_el@.children.update(i, c@),
{
    assert(el@.children =~= old_el@.children.update(i, c@));
}

fn find_child(children: &Vec<Element>, id: usize) -> (r: Option<usize>)
    ensures
        match r {
            Some(i) => i < children.len() && child_index(
                Seq::new(children@.len(), |j: int| children@[j]@),
                id,
                0,
            ) == Some(i as int),
            None => child_index(Seq::new(children@.len(), |j: int| children@[j]@), id, 0) is None,
        },
{
    let ghost c = Seq::new(children@.len(), |j: int| children@[j]@);
    let mut i: usize = 0;
    while i < children.len()
        invariant
            0 <= i <= children@.len(),
            c == Seq::new(children@.len(), |j: int| children@[j]@),
            child_index(c, id, 0) == child_index(c, id, i as int),
        decreases children@.len() - i,
    {
        if children[i].id == id {
            return Some(i);
        }
        i += 1;
    }
    None
}

/// Sets `key` to `value` in a list of pairs with distinct keys: in place when present, else
/// appended.
pub(crate) fn set_pair(a: &mut Vec<(String, String)>, key: String, value: String)
    ensures
        crate::element::attrs_view(final(a)@) == attr_set(crate::element::attrs_view(old(a)@), key@, value@),
{
    match find_attr(a, &key) {
        Some(i) => {
            a.set(i, (key, value));
        },
        None => {
            a.push((key, value));
        },
    }
    proof {
        assert(crate::element::attrs_view(final(a)@) =~= attr_set(crate::element::attrs_view(old(a)@), key@, value@));
    }
}

fn find_attr(a: &Vec<(String, String)>, key: &String) -> (r: Option<usize>)
    ensures
        match r {
            Some(i) => i < a@.len() && attr_index(crate::element::attrs_view(a@), key@, 0) == Some(
                i as int,
            ),
            None => attr_index(crate::element::attrs_view(a@), key@, 0) is None,
        },
{
    let ghost v = crate::element::attrs_view(a@);
    let mut i: usize = 0;
    while i < a.len()
        invariant
            0 <= i <= a@.len(),
            v == crate::element::attrs_view(a@),
            attr_index(v, key@, 0) == attr_index(v, key@, i as int),
        decreases a@.len() - i,
    {
        if a[i].0 == *key {
            return Some(i);
        }
        i += 1;
    }
    None
}

proof fn lemma_view_children(e: Element)
    ensures
        e@.children == Seq::new(e.children@.len(), |j: int| e.children@[j]@),
{
    assert(e@.children =~= Seq::new(e.children@.len(), |j: int| e.children@[j]@));
}

fn is_target_exec(el: &Element, op: &Op) -> (r: bool)
    ensures
        r == is_target(el@, target_of(op@)),
{
    proof {
        lemma_view_children(*el);
    }
    match &op.instruction {
        Instruction::InsertAfter { after_id } => find_child(&el.children, *after_id).is_some(),
        Instruction::InsertBefore { before_id } => find_child(&el.children, *before_id).is_some(),
        Instruction::DeleteEl => find_child(&el.children, op.id).is_some(),
        Instruction::CreateTag { name: _, parent_id: Some(p) } => el.id == *p,
        _ => el.id == op.id,
    }
}

/// Applies an edit to the node that it targets.
fn edit_here(el: &mut Element, op: &Op)
    requires
        is_target(old(el)@, target_of(op@)),
    ensures
        final(el)@ == edit_node(old(el)@, op@),
{
    proof {
        lemma_view_children(*el);
    }
    match &op.instruction {
        Instruction::InsertChild { new_child_id } => {
            el.children.push(Element::new(*new_child_id, String::new()));
            proof {
                assert(final(el)@.children =~= old(el)@.children.push(leaf(*new_child_id, Seq::empty())));
            }
        },
        Instruction::InsertAfter { after_id } => {
            let i = find_child(&el.children, *after_id).unwrap();
            el.children.insert(i + 1, Element::new(op.id, String::new()));
            proof {
                assert(final(el)@.children =~= old(el)@.children.insert(i + 1, leaf(op.id, Seq::empty())));
            }
        },
        Instruction::InsertBefore { before_id } => {
            let i = find_child(&el.children, *before_id).unwrap();
            el.children.insert(i, Element::new(op.id, String::new()));
            proof {
                assert(final(el)@.children =~= old(el)@.children.insert(i as int, leaf(op.id, Seq::empty())));
            }
        },
        Instruction::DeleteEl => {
            let i = find_child(&el.children, op.id).unwrap();
            el.children.remove(i);
            proof {
                assert(final(el)@.children =~= old(el)@.children.remove(i as int));
            }
        },
        Instruction::SetAttribute { key, value } => {
            set_pair(&mut el.attributes, key.clone(), value.clone());
            proof {
                assert(final(el)@.attrs =~= attr_set(old(el)@.attrs, key@, value@));
                assert(final(el)@.children =~= old(el)@.children);
            }
        },
        Instruction::RemoveAttribute { key } => {
            if let Some(i) = find_attr(&el.attributes, key) {
                el.attributes.remove(i);
            }
            proof {
                assert(final(el)@.attrs =~= attr_remove(old(el)@.attrs, key@));
                assert(final(el)@.children =~= old(el)@.children);
            }
        },
        Instruction::SetId { value } => {
            el.id = *value;
            proof {
                assert(final(el)@.children =~= old(el)@.children);
            }
        },
        Instruction::SetText { value } => {
            el.text = Some(value.clone());
            proof {
                assert(final(el)@.children =~= old(el)@.children);
            }
        },
        Instruction::SetTagName { name } => {
            el.name = name.clone();
            proof {
                assert(final(el)@.children =~= old(el)@.children);
            }
        },
        Instruction::CreateTag { name, parent_id: _ } => {
            el.children.push(Element::new(op.id, name.clone()));
            proof {
                assert(final(el)@.children =~= old(el)@.children.push(leaf(op.id, name@)));
            }
        },
        Instruction::RemoveText => {
            el.text = None;
            proof {
                assert(final(el)@.children =~= old(el)@.children);
            }
        },
        Instruction::RemoveListeners => {
            el.listeners = Vec::new();
            proof {
                assert(final(el)@.listeners =~= Seq::<ListenerV>::empty());
                assert(final(el)@.children =~= old(el)@.children);
            }
        },
        Instruction::AttachListener { name, on } => {
            el.listeners.push(ListenerRef::new(name.clone(), on.clone()));
            proof {
                assert(final(el)@.listeners =~= old(el)@.listeners.push((name@, on@)));
                assert(final(el)@.children =~= old(el)@.children);
            }
        },
        Instruction::SetInnerHtml { element: _, html: _ } => {},
    }
}

/// Applies an edit at its first target in depth-first pre-order; `false`, with the tree
/// unchanged, when there is none.
fn edit_first(el: &mut Element, op: &Op) -> (found: bool)
    ensures
        found == (edit_tree(old(el)@, op@) is Some),
        found ==> final(el)@ == edit_tree(old(el)@, op@)->Some_0,
        !found ==> final(el)@ == old(el)@,
    decreases old(el)@,
{
    if is_target_exec(el, op) {
        edit_here(el, op);
        return true;
    }
    let ghost start = el@;
    let n = el.children.len();
    let mut i: usize = 0;
    while i < n
        invariant
            0 <= i <= n,
            n == el.children@.len(),
            el@ == start,
            start == old(el)@,
            !is_target(start, target_of(op@)),
            edit_children(start.children, op@, 0) == edit_children(start.children, op@, i as int),
        decreases n - i,
    {
        let ghost before = *el;
        proof {
            lemma_view_children(before);
        }
        proof {
            assert(start.children[i as int] == before.children@[i as int]@);
            assert(decreases_to!(start => start.children[i as int]));
        }
        let found = edit_first(&mut el.children[i], op);
        proof {
            lemma_children_view_update(*el, before, i as int, el.children@[i as int]);
        }
        if found {
            proof {
                assert(edit_tree(start.children[i as int], op@) is Some);
                assert(el@ =~= Node { children: start.children.update(i as int, el.children@[i as int]@), ..start });
            }
            return true;
        }
        proof {
            assert(el@.children =~= start.children);
        }
        i += 1;
    }
    false
}

impl Changeset {
    /// Replays the edits in order against `element`, as the client does. The changeset must
    /// belong to the tree: an edit whose node is missing is a bug of the diff engine, not a
    /// condition to recover from.
    pub fn apply(&self, element: &mut Element)
        requires
            apply_spec(self@, old(element)@) is Ok,
        ensures
            apply_spec(self@, old(element)@) == Ok::<Node, ApplyError>(final(element)@),
    {
        let _ = self.try_apply(element);
    }

    /// Replays the edits in order against `element`, and reports the first edit whose node
    /// cannot be found (the changeset does not belong to the tree) or that holds raw HTML,
    /// which a tree model cannot replay.
    pub fn try_apply(&self, element: &mut Element) -> (r: Result<(), ApplyError>)
        ensures
            match apply_spec(self@, old(element)@) {
                Ok(t) => r is Ok && final(element)@ == t,
                Err(e) => r == Err::<(), ApplyError>(e),
            },
    {
        let n = self.ops.len();
        let mut i: usize = 0;
        while i < n
            invariant
                0 <= i <= n,
                n == self@.len(),
                apply_spec(self@.take(i as int), old(element)@) == Ok::<Node, ApplyError>(element@),
            decreases n - i,
        {
            let op = &self.ops[i];
            proof {
                assert(self@.take(i + 1).drop_last() =~= self@.take(i as int));
                assert(self@.take(i + 1).last() == op@);
            }
            match &op.instruction {
                Instruction::SetInnerHtml { element: _, html: _ } => {
                    proof {
                        lemma_apply_err_sticks(self@, old(element)@, i as int + 1, ApplyError::Unsupported);
                    }
                    return Err(ApplyError::Unsupported);
                },
                Instruction::CreateTag { name, parent_id: None } => {
                    *element = Element::new(op.id, name.clone());
                },
                _ => {
                    if !edit_first(element, op) {
                        proof {
                            lemma_apply_err_sticks(self@, old(element)@, i as int + 1, ApplyError::ElementNotFound);
                        }
                        return Err(ApplyError::ElementNotFound);
                    }
                },
            }
            i += 1;
        }
        proof {
            assert(self@.take(n as int) =~= self@);
        }
        Ok(())
    }
}

proof fn lemma_apply_err_sticks(ops: Seq<OpV>, t: Node, k: int, e: ApplyError)
    requires
        0 <= k <= ops.len(),
        apply_spec(ops.take(k), t) == Err::<Node, ApplyError>(e),
    ensures
        apply_spec(ops, t) == Err::<Node, ApplyError>(e),
    decreases ops.len() - k,
{
    if k < ops.len() {
        assert(ops.take(k + 1).drop_last() =~= ops.take(k));
        lemma_apply_err_sticks(ops, t, k + 1, e);
    } else {
        assert(ops.take(k) =~= ops);
    }
}

} // verus!
