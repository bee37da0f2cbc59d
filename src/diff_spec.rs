//! What the diff engine emits, as spec functions over the trees.

use vstd::prelude::*;
use crate::changeset::{InstructionV, OpV};
use crate::element::{attr_lookup, all_keyed, key_of, opt_view, AttrV, Element, ListenerV};

verus! {

pub open spec fn op(id: usize, instruction: InstructionV) -> OpV {
    OpV { id, instruction }
}

/// The key of a node, or the empty sequence for an unkeyed node.
pub open spec fn key_seq(e: Element) -> Seq<char> {
    match e.key {
        Some(k) => k@,
        None => Seq::empty(),
    }
}

/// The first index at or after `i` whose node carries key `k`.
pub open spec fn find_key(c: Seq<Element>, k: Seq<char>, i: int) -> Option<int>
    decreases c.len() - i,
{
    if 0 <= i < c.len() {
        if key_of(c[i]) == Some(k) {
            Some(i)
        } else {
            find_key(c, k, i + 1)
        }
    } else {
        None
    }
}

pub open spec fn name_ops(a: Element, b: Element) -> Seq<OpV> {
    if a.name@ != b.name@ {
        seq![op(a.id, InstructionV::SetTagName { name: b.name@ })]
    } else {
        Seq::empty()
    }
}

/// `RemoveAttribute` for each attribute of `old` whose key `new` lacks, in the order of `old`.
pub open spec fn remove_attr_ops(id: usize, old: Seq<AttrV>, new: Seq<AttrV>) -> Seq<OpV>
    decreases old.len(),
{
    if old.len() == 0 {
        Seq::empty()
    } else {
        remove_attr_ops(id, old.drop_last(), new) + if attr_lookup(new, old.last().0).is_none() {
            seq![op(id, InstructionV::RemoveAttribute { key: old.last().0 })]
        } else {
            Seq::empty()
        }
    }
}

/// `SetAttribute` for each attribute of `new` that `old` lacks or holds with another value,
/// in the order of `new`.
pub open spec fn set_attr_ops(id: usize, old: Seq<AttrV>, new: Seq<AttrV>) -> Seq<OpV>
    decreases new.len(),
{
    if new.len() == 0 {
        Seq::empty()
    } else {
        set_attr_ops(id, old, new.drop_last()) + if attr_lookup(old, new.last().0) != Some(
            new.last().1,
        ) {
            seq![op(id, InstructionV::SetAttribute { key: new.last().0, value: new.last().1 })]
        } else {
            Seq::empty()
        }
    }
}

pub open spec fn attr_ops(a: Element, b: Element) -> Seq<OpV> {
    remove_attr_ops(a.id, a.attrs(), b.attrs()) + set_attr_ops(a.id, a.attrs(), b.attrs())
}

pub open spec fn text_ops(a: Element, b: Element) -> Seq<OpV> {
    if opt_view(a.text) != opt_view(b.text) {
        match b.text {
            Some(t) => seq![op(a.id, InstructionV::SetText { value: t@ })],
            None => seq![op(a.id, InstructionV::RemoveText)],
        }
    } else {
        Seq::empty()
    }
}

/// `AttachListener` for each listener, in order.
pub open spec fn attach_ops(id: usize, l: Seq<ListenerV>) -> Seq<OpV>
    decreases l.len(),
{
    if l.len() == 0 {
        Seq::empty()
    } else {
        attach_ops(id, l.drop_last()) + seq![
            op(id, InstructionV::AttachListener { name: l.last().0, on: l.last().1 }),
        ]
    }
}

/// When the listener lists differ, all listeners are dropped and those of `b` attached.
pub open spec fn listener_ops(a: Element, b: Element) -> Seq<OpV> {
    if a.listeners_v() != b.listeners_v() {
        seq![op(a.id, InstructionV::RemoveListeners)] + attach_ops(a.id, b.listeners_v())
    } else {
        Seq::empty()
    }
}

pub open spec fn id_ops(a: Element, b: Element) -> Seq<OpV> {
    if a.id != b.id {
        seq![op(a.id, InstructionV::SetId { value: b.id })]
    } else {
        Seq::empty()
    }
}

pub open spec fn text_create_ops(e: Element) -> Seq<OpV> {
    match e.text {
        Some(t) => seq![op(e.id, InstructionV::SetText { value: t@ })],
        None => Seq::empty(),
    }
}

/// What follows the tag when a node is built: its attributes, its listeners, its text, then
/// each child under it.
pub open spec fn body_ops(e: Element) -> Seq<OpV>
    decreases e, 1nat, 0nat,
{
    set_attr_ops(e.id, Seq::empty(), e.attrs()) + attach_ops(e.id, e.listeners_v())
        + text_create_ops(e) + create_children_ops(e, e.children@.len())
}

/// The edits that build `e` and its subtree from nothing, in pre-order: the tag, its
/// attributes, its listeners, its text, then each child under `e`.
pub open spec fn create_ops(e: Element, parent: Option<usize>) -> Seq<OpV>
    decreases e, 2nat, 0nat,
{
    seq![op(e.id, InstructionV::CreateTag { name: e.name@, parent_id: parent })] + body_ops(e)
}

/// The edits that give a node just placed by an insert edit (a bare node with its identity)
/// its tag name and content.
pub open spec fn fill_ops(e: Element) -> Seq<OpV> {
    seq![op(e.id, InstructionV::SetTagName { name: e.name@ })] + body_ops(e)
}

/// The creation edits of the first `n` children of `e`.
pub open spec fn create_children_ops(e: Element, n: nat) -> Seq<OpV>
    decreases e, 0nat, n,
{
    if n == 0 {
        Seq::empty()
    } else {
        create_children_ops(e, (n - 1) as nat) + if n <= e.children@.len() {
            create_ops(e.children@[n - 1], Some(e.id))
        } else {
            Seq::empty()
        }
    }
}

/// The creation edits of the children of `b` from index `lo` to `n`, placed under the node
/// with identity `parent`.
pub open spec fn create_tail_ops(parent: usize, b: Element, lo: nat, n: nat) -> Seq<OpV>
    decreases n,
{
    if n <= lo {
        Seq::empty()
    } else {
        create_tail_ops(parent, b, lo, (n - 1) as nat) + if n <= b.children@.len() {
            create_ops(b.children@[n - 1], Some(parent))
        } else {
            Seq::empty()
        }
    }
}

/// `DeleteEl` for the children of `a` from index `lo` to `n`.
pub open spec fn delete_tail_ops(a: Element, lo: nat, n: nat) -> Seq<OpV>
    decreases n,
{
    if n <= lo {
        Seq::empty()
    } else {
        delete_tail_ops(a, lo, (n - 1) as nat) + if n <= a.children@.len() {
            seq![op(a.children@[n - 1].id, InstructionV::DeleteEl)]
        } else {
            Seq::empty()
        }
    }
}

/// Children of both nodes carry keys: the keyed strategy applies.
pub open spec fn keyed(a: Element, b: Element) -> bool {
    all_keyed(a.children@) && all_keyed(b.children@)
}

/// The first index at or after `j` of a new child whose key `a` holds.
pub open spec fn first_matched(a: Element, b: Element, j: int) -> Option<int>
    decreases b.children@.len() - j,
{
    if 0 <= j < b.children@.len() {
        if find_key(a.children@, key_seq(b.children@[j]), 0) is Some {
            Some(j)
        } else {
            first_matched(a, b, j + 1)
        }
    } else {
        None
    }
}

/// The edit that places the new child at index `j` of `b` (the parent already carries its new
/// identity `b.id`, and matched children theirs): after its left neighbour, which is in place
/// by then; the first child goes before the first matched child, or, with none, at the end of
/// the parent, whose unmatched old children are deleted afterwards.
pub open spec fn insert_op(a: Element, b: Element, j: int) -> OpV {
    let c = b.children@;
    if j == 0 {
        match first_matched(a, b, 0) {
            Some(m) => op(c[0].id, InstructionV::InsertBefore { before_id: c[m].id }),
            None => op(b.id, InstructionV::InsertChild { new_child_id: c[0].id }),
        }
    } else {
        op(c[j].id, InstructionV::InsertAfter { after_id: c[j - 1].id })
    }
}

/// Of the first `n` new children, those whose key `a` lacks are inserted, each followed by
/// the edits that give it its content.
pub open spec fn insert_ops(a: Element, b: Element, n: nat) -> Seq<OpV>
    decreases n,
{
    if n == 0 {
        Seq::empty()
    } else {
        insert_ops(a, b, (n - 1) as nat) + if n <= b.children@.len() && find_key(
            a.children@,
            key_seq(b.children@[n - 1]),
            0,
        ).is_none() {
            seq![insert_op(a, b, n - 1)] + fill_ops(b.children@[n - 1])
        } else {
            Seq::empty()
        }
    }
}

/// Of the first `n` old children, those whose key `b` lacks are deleted.
pub open spec fn delete_unmatched_ops(a: Element, b: Element, n: nat) -> Seq<OpV>
    decreases n,
{
    if n == 0 {
        Seq::empty()
    } else {
        delete_unmatched_ops(a, b, (n - 1) as nat) + if n <= a.children@.len() && find_key(
            b.children@,
            key_seq(a.children@[n - 1]),
            0,
        ).is_none() {
            seq![op(a.children@[n - 1].id, InstructionV::DeleteEl)]
        } else {
            Seq::empty()
        }
    }
}

/// For each of the first `n` new children, the diff against the old child with its key.
pub open spec fn keyed_pair_ops(a: Element, b: Element, n: nat) -> Seq<OpV>
    decreases a, 0nat, n,
{
    if n == 0 {
        Seq::empty()
    } else {
        keyed_pair_ops(a, b, (n - 1) as nat) + if n <= b.children@.len() {
            match find_key(a.children@, key_seq(b.children@[n - 1]), 0) {
                Some(i) => if 0 <= i < a.children@.len() {
                    diff_spec(a.children@[i], b.children@[n - 1])
                } else {
                    Seq::empty()
                },
                None => Seq::empty(),
            }
        } else {
            Seq::empty()
        }
    }
}

/// The diffs of the first `n` pairs of children at equal positions.
pub open spec fn zip_ops(a: Element, b: Element, n: nat) -> Seq<OpV>
    decreases a, 0nat, n,
{
    if n == 0 {
        Seq::empty()
    } else {
        zip_ops(a, b, (n - 1) as nat) + if n <= a.children@.len() && n <= b.children@.len() {
            diff_spec(a.children@[n - 1], b.children@[n - 1])
        } else {
            Seq::empty()
        }
    }
}

pub open spec fn children_ops(a: Element, b: Element) -> Seq<OpV>
    decreases a, 1nat, 0nat,
{
    let la = a.children@.len();
    let lb = b.children@.len();
    if keyed(a, b) {
        keyed_pair_ops(a, b, lb) + insert_ops(a, b, lb) + delete_unmatched_ops(a, b, la)
    } else if la > lb {
        delete_tail_ops(a, lb, la) + zip_ops(a, b, lb)
    } else {
        zip_ops(a, b, la) + create_tail_ops(b.id, b, la, lb)
    }
}

/// The edit script from `a` to `b`: tag name, attributes, text and listeners, addressed by
/// the old identity; then the change of identity; then the children, whose edits that name
/// their parent name its new identity.
pub open spec fn diff_spec(a: Element, b: Element) -> Seq<OpV>
    decreases a, 2nat, 0nat,
{
    name_ops(a, b) + attr_ops(a, b) + text_ops(a, b) + listener_ops(a, b) + id_ops(a, b)
        + children_ops(a, b)
}

/// Some node of the subtree of `e` has identity `x`.
pub open spec fn has_id(e: Element, x: usize) -> bool
    decreases e,
{
    e.id == x || exists|i: int| 0 <= i < e.children@.len() && has_id(#[trigger] e.children@[i], x)
}

/// No node of the subtree of `c` has an identity found in the tree `root`.
pub open spec fn subtree_fresh(c: Element, root: Element) -> bool
    decreases c,
{
    !has_id(root, c.id) && forall|i: int|
        0 <= i < c.children@.len() ==> subtree_fresh(#[trigger] c.children@[i], root)
}

/// The old children that the new children of `b` match by key keep their relative order.
pub open spec fn order_kept(a: Element, b: Element) -> bool {
    forall|j1: int, j2: int|
        0 <= j1 < j2 < b.children@.len() ==> match (
            find_key(a.children@, key_seq(#[trigger] b.children@[j1]), 0),
            find_key(a.children@, key_seq(#[trigger] b.children@[j2]), 0),
        ) {
            (Some(i1), Some(i2)) => i1 < i2,
            _ => true,
        }
}

/// The matched new child at index `j` of `b` takes its identity away from `x`: its old node
/// has identity `x`, and it takes another.
pub open spec fn releases(a: Element, b: Element, j: int, x: usize) -> bool {
    0 <= j < b.children@.len() && match find_key(a.children@, key_seq(b.children@[j]), 0) {
        Some(i) => 0 <= i < a.children@.len() && a.children@[i].id == x && b.children@[j].id != x,
        None => false,
    }
}

/// Identity `x` is given up by a matched child of `a`, before the new children are inserted.
pub open spec fn released(a: Element, b: Element, x: usize) -> bool {
    exists|j: int| #[trigger] releases(a, b, j, x)
}

/// Every node of the subtree of `c`, inserted under `a`, takes an identity that the old tree
/// `root` does not hold, or one that a matched child of `a` gave up.
pub open spec fn placeable(c: Element, root: Element, a: Element, b: Element) -> bool
    decreases c,
{
    (!has_id(root, c.id) || released(a, b, c.id)) && forall|i: int|
        0 <= i < c.children@.len() ==> placeable(#[trigger] c.children@[i], root, a, b)
}

/// A matched node keeps its identity, or takes one that the old tree `root` does not hold.
pub open spec fn renames_ok(root: Element, a: Element, b: Element) -> bool {
    a.id == b.id || !has_id(root, b.id)
}

/// The identities of `diff_spec` stay unambiguous below `a`: keyed children that it matches
/// keep their relative order, and every identity that it gives (by a change of identity or
/// to a created subtree) is one that the old tree `root` does not hold, or, for a keyed
/// insert, one that a matched sibling gave up before; so no edit can address two nodes.
pub open spec fn fits(root: Element, a: Element, b: Element) -> bool
    decreases a,
{
    let la = a.children@.len();
    let lb = b.children@.len();
    if keyed(a, b) {
        &&& order_kept(a, b)
        &&& forall|j: int|
            0 <= j < lb ==> match find_key(a.children@, key_seq(#[trigger] b.children@[j]), 0) {
                Some(i) => 0 <= i < la && renames_ok(root, a.children@[i], b.children@[j]) && fits(
                    root,
                    a.children@[i],
                    b.children@[j],
                ),
                None => placeable(b.children@[j], root, a, b),
            }
    } else {
        &&& forall|i: int|
            0 <= i < la && i < lb ==> renames_ok(root, #[trigger] a.children@[i], b.children@[i]) && fits(
                root,
                a.children@[i],
                b.children@[i],
            )
        &&& forall|i: int| la <= i < lb ==> subtree_fresh(#[trigger] b.children@[i], root)
    }
}

/// What `diff` emits: the incremental script when its identities stay unambiguous (a keyed
/// child that moves, or an identity handed to another node, breaks that), else the edits that
/// build the new tree from its root.
pub open spec fn diff_result(a: Element, b: Element) -> Seq<OpV> {
    if renames_ok(a, a, b) && fits(a, a, b) {
        diff_spec(a, b)
    } else {
        create_ops(b, None)
    }
}

} // verus!
