//! The diff engine: the edit script that turns one tree into another.

use vstd::prelude::*;
use crate::changeset::{Changeset, Instruction, Op};
use crate::diff_spec::{
    attach_ops, attr_ops, body_ops, children_ops, create_children_ops, create_ops, create_tail_ops,
    delete_tail_ops, delete_unmatched_ops, diff_result, diff_spec, fill_ops, find_key,
    first_matched, fits, has_id, id_ops, insert_ops, key_seq, keyed, keyed_pair_ops,
    listener_ops, name_ops, order_kept, placeable, released, releases, remove_attr_ops, renames_ok, set_attr_ops, subtree_fresh,
    text_ops, zip_ops,
};
use crate::element::{all_keyed, listeners_same, lookup_value, str_opt_eq, Element};

verus! {

/// The first child that carries `key`.
fn locate_child_by_key(children: &Vec<Element>, key: &String) -> (r: Option<usize>)
    ensures
        match r {
            Some(i) => find_key(children@, key@, 0) == Some(i as int) && i < children@.len(),
            None => find_key(children@, key@, 0).is_none(),
        },
{
    let mut i: usize = 0;
    while i < children.len()
        invariant
            0 <= i <= children.len(),
            find_key(children@, key@, 0) == find_key(children@, key@, i as int),
        decreases children.len() - i,
    {
        let hit = match &children[i].key {
            Some(k) => *k == *key,
            None => false,
        };
        if hit {
            return Some(i);
        }
        i += 1;
    }
    None
}

/// Every child carries a key.
fn children_are_all_keyed(children: &Vec<Element>) -> (r: bool)
    ensures
        r == all_keyed(children@),
{
    let mut i: usize = 0;
    while i < children.len()
        invariant
            0 <= i <= children.len(),
            forall|j: int| 0 <= j < i ==> (#[trigger] children@[j]).key.is_some(),
        decreases children.len() - i,
    {
        if children[i].key.is_none() {
            return false;
        }
        i += 1;
    }
    true
}

fn key_str(e: &Element) -> (r: String)
    ensures
        r@ == key_seq(*e),
{
    match &e.key {
        Some(k) => k.clone(),
        None => String::new(),
    }
}

/// Whether a node of the subtree of `e` has identity `x`.
fn contains_id(e: &Element, x: usize) -> (r: bool)
    ensures
        r == has_id(*e, x),
    decreases e,
{
    if e.id == x {
        return true;
    }
    let mut i: usize = 0;
    while i < e.children.len()
        invariant
            0 <= i <= e.children@.len(),
            e.id != x,
            forall|j: int| 0 <= j < i ==> !has_id(#[trigger] e.children@[j], x),
        decreases e.children@.len() - i,
    {
        if contains_id(&e.children[i], x) {
            return true;
        }
        i += 1;
    }
    false
}

/// Whether no node of the subtree of `c` has an identity found in `root`.
fn is_fresh(c: &Element, root: &Element) -> (r: bool)
    ensures
        r == subtree_fresh(*c, *root),
    decreases c,
{
    if contains_id(root, c.id) {
        return false;
    }
    let mut i: usize = 0;
    while i < c.children.len()
        invariant
            0 <= i <= c.children@.len(),
            !has_id(*root, c.id),
            forall|j: int| 0 <= j < i ==> subtree_fresh(#[trigger] c.children@[j], *root),
        decreases c.children@.len() - i,
    {
        if !is_fresh(&c.children[i], root) {
            return false;
        }
        i += 1;
    }
    true
}

/// Whether a matched child of `a` gives up identity `x`.
fn released_exec(a: &Element, b: &Element, x: usize) -> (r: bool)
    ensures
        r == released(*a, *b, x),
{
    let mut j: usize = 0;
    while j < b.children.len()
        invariant
            0 <= j <= b.children@.len(),
            forall|jj: int| 0 <= jj < j ==> !#[trigger] releases(*a, *b, jj, x),
        decreases b.children@.len() - j,
    {
        let k = key_str(&b.children[j]);
        if let Some(i) = locate_child_by_key(&a.children, &k) {
            if a.children[i].id == x && b.children[j].id != x {
                proof {
                    assert(releases(*a, *b, j as int, x));
                }
                return true;
            }
        }
        j += 1;
    }
    proof {
        assert forall|jj: int| !#[trigger] releases(*a, *b, jj, x) by {
            if 0 <= jj < b.children@.len() {
            }
        }
    }
    false
}

/// Whether every node of the subtree of `c`, inserted under `a`, takes a fresh identity or
/// one that a matched child of `a` gave up.
fn is_placeable(c: &Element, root: &Element, a: &Element, b: &Element) -> (r: bool)
    ensures
        r == placeable(*c, *root, *a, *b),
    decreases c,
{
    if contains_id(root, c.id) && !released_exec(a, b, c.id) {
        return false;
    }
    let mut i: usize = 0;
    while i < c.children.len()
        invariant
            0 <= i <= c.children@.len(),
            !has_id(*root, c.id) || released(*a, *b, c.id),
            forall|j: int| 0 <= j < i ==> placeable(#[trigger] c.children@[j], *root, *a, *b),
        decreases c.children@.len() - i,
    {
        if !is_placeable(&c.children[i], root, a, b) {
            return false;
        }
        i += 1;
    }
    true
}

/// Whether `a` keeps its identity in `b`, or takes one that `root` does not hold.
fn rename_ok_exec(root: &Element, a: &Element, b: &Element) -> (r: bool)
    ensures
        r == renames_ok(*root, *a, *b),
{
    a.id == b.id || !contains_id(root, b.id)
}

/// The first new child whose key the old children hold.
fn first_matched_exec(a: &Element, b: &Element) -> (r: Option<usize>)
    ensures
        match r {
            Some(m) => first_matched(*a, *b, 0) == Some(m as int) && m < b.children@.len(),
            None => first_matched(*a, *b, 0) is None,
        },
{
    let mut j: usize = 0;
    while j < b.children.len()
        invariant
            0 <= j <= b.children@.len(),
            first_matched(*a, *b, 0) == first_matched(*a, *b, j as int),
        decreases b.children@.len() - j,
    {
        let k = key_str(&b.children[j]);
        if locate_child_by_key(&a.children, &k).is_some() {
            return Some(j);
        }
        j += 1;
    }
    None
}

/// Whether the identities of the incremental edits from `a` to `b` stay unambiguous within
/// the old tree `root`.
fn fits_exec(root: &Element, a: &Element, b: &Element) -> (r: bool)
    ensures
        r == fits(*root, *a, *b),
    decreases a,
{
    let la = a.children.len();
    let lb = b.children.len();
    if children_are_all_keyed(&a.children) && children_are_all_keyed(&b.children) {
        let mut last: Option<usize> = None;
        let ghost mut lj: int = 0;
        let mut j: usize = 0;
        while j < lb
            invariant
                0 <= j <= lb,
                la == a.children@.len(),
                lb == b.children@.len(),
                keyed(*a, *b),
                forall|j1: int, j2: int|
                    0 <= j1 < j2 < j ==> match (
                        find_key(a.children@, key_seq(#[trigger] b.children@[j1]), 0),
                        find_key(a.children@, key_seq(#[trigger] b.children@[j2]), 0),
                    ) {
                        (Some(i1), Some(i2)) => i1 < i2,
                        _ => true,
                    },
                forall|jj: int|
                    0 <= jj < j ==> match find_key(a.children@, key_seq(#[trigger] b.children@[jj]), 0) {
                        Some(i) => 0 <= i < la && renames_ok(*root, a.children@[i], b.children@[jj]) && fits(
                            *root,
                            a.children@[i],
                            b.children@[jj],
                        ),
                        None => placeable(b.children@[jj], *root, *a, *b),
                    },
                match last {
                    Some(l) => 0 <= lj < j && find_key(a.children@, key_seq(b.children@[lj]), 0)
                        == Some(l as int) && forall|jj: int|
                        0 <= jj < j ==> match find_key(
                            a.children@,
                            key_seq(#[trigger] b.children@[jj]),
                            0,
                        ) {
                            Some(i) => i <= l,
                            None => true,
                        },
                    None => forall|jj: int|
                        0 <= jj < j ==> find_key(a.children@, key_seq(#[trigger] b.children@[jj]), 0)
                            is None,
                },
            decreases lb - j,
        {
            let k = key_str(&b.children[j]);
            match locate_child_by_key(&a.children, &k) {
                Some(i) => {
                    if let Some(l) = last {
                        if l >= i {
                            proof {
                                let i1 = find_key(a.children@, key_seq(b.children@[lj]), 0);
                                let i2 = find_key(a.children@, key_seq(b.children@[j as int]), 0);
                                assert(i1 == Some(l as int) && i2 == Some(i as int));
                                assert(!order_kept(*a, *b));
                            }
                            return false;
                        }
                    }
                    if !rename_ok_exec(root, &a.children[i], &b.children[j]) || !fits_exec(root, &a.children[i], &b.children[j]) {
                        return false;
                    }
                    last = Some(i);
                    proof {
                        lj = j as int;
                    }
                },
                None => {
                    if !is_placeable(&b.children[j], root, a, b) {
                        return false;
                    }
                },
            }
            j += 1;
        }
        true
    } else {
        let n = if la < lb { la } else { lb };
        let mut i: usize = 0;
        while i < n
            invariant
                0 <= i <= n,
                n <= la,
                n <= lb,
                n == la || n == lb,
                !keyed(*a, *b),
                la == a.children@.len(),
                lb == b.children@.len(),
                forall|m: int|
                    0 <= m < i ==> renames_ok(*root, #[trigger] a.children@[m], b.children@[m]) && fits(
                        *root,
                        a.children@[m],
                        b.children@[m],
                    ),
            decreases n - i,
        {
            if !rename_ok_exec(root, &a.children[i], &b.children[i]) || !fits_exec(root, &a.children[i], &b.children[i]) {
                proof {
                    assert(!(renames_ok(*root, a.children@[i as int], b.children@[i as int]) && fits(
                        *root,
                        a.children@[i as int],
                        b.children@[i as int],
                    )));
                }
                return false;
            }
            i += 1;
        }
        if la >= lb {
            return true;
        }
        let mut i: usize = la;
        while i < lb
            invariant
                la <= i <= lb,
                !keyed(*a, *b),
                la == a.children@.len(),
                lb == b.children@.len(),
                forall|m: int|
                    0 <= m < la && m < lb ==> renames_ok(*root, #[trigger] a.children@[m], b.children@[m])
                        && fits(*root, a.children@[m], b.children@[m]),
                forall|m: int| la <= m < i ==> subtree_fresh(#[trigger] b.children@[m], *root),
            decreases lb - i,
        {
            if !is_fresh(&b.children[i], root) {
                proof {
                    assert(!subtree_fresh(b.children@[i as int], *root));
                }
                return false;
            }
            i += 1;
        }
        true
    }
}

impl Element {
    /// Compares two root nodes and produces the edits that turn `self` into `other`; with no
    /// `other`, the edits that build `self` from nothing (the first paint). The edits are made
    /// incrementally when they replay correctly (see `fits`); otherwise the new tree is built
    /// from its root.
    pub fn diff(&self, other: Option<&Element>) -> (r: Changeset)
        requires
            self.wf(),
            other matches Some(o) ==> o.wf(),
        ensures
            r@ == match other {
                Some(o) => diff_result(*self, *o),
                None => create_ops(*self, None),
            },
    {
        match other {
            Some(o) => {
                if rename_ok_exec(self, self, o) && fits_exec(self, self, o) {
                    self.diff_with(o)
                } else {
                    o.create_from_scratch(None)
                }
            },
            None => self.create_from_scratch(None),
        }
    }

    fn diff_with(&self, other: &Element) -> (r: Changeset)
        ensures
            r@ == diff_spec(*self, *other),
        decreases *self, 1nat,
    {
        let mut c = self.diff_name(other);
        c.extend(self.diff_attributes(other));
        c.extend(self.diff_text(other));
        c.extend(self.diff_listeners(other));
        // the node takes its new identity before the edits of its children name it
        c.extend(self.diff_id(other));
        c.extend(self.diff_children(other));
        c
    }

    fn diff_name(&self, other: &Element) -> (r: Changeset)
        ensures
            r@ == name_ops(*self, *other),
    {
        if self.name != other.name {
            Changeset::from_op(
                Op {
                    id: self.id,
                    instruction: Instruction::SetTagName { name: other.name.clone() },
                },
            )
        } else {
            Changeset::empty()
        }
    }

    fn diff_id(&self, other: &Element) -> (r: Changeset)
        ensures
            r@ == id_ops(*self, *other),
    {
        if self.id != other.id {
            Changeset::from_op(Op { id: self.id, instruction: Instruction::SetId { value: other.id } })
        } else {
            Changeset::empty()
        }
    }

    fn diff_text(&self, other: &Element) -> (r: Changeset)
        ensures
            r@ == text_ops(*self, *other),
    {
        let mut cs = Changeset::empty();
        if !str_opt_eq(&self.text, &other.text) {
            match &other.text {
                Some(value) => cs.push(
                    Op { id: self.id, instruction: Instruction::SetText { value: value.clone() } },
                ),
                None => cs.push(Op { id: self.id, instruction: Instruction::RemoveText }),
            }
        }
        cs
    }

    fn diff_attributes(&self, other: &Element) -> (r: Changeset)
        ensures
            r@ == attr_ops(*self, *other),
    {
        let mut c = Changeset::empty();
        let ghost old_v = self.attrs();
        let ghost new_v = other.attrs();
        let mut i: usize = 0;
        while i < self.attributes.len()
            invariant
                0 <= i <= self.attributes@.len(),
                old_v == self.attrs(),
                new_v == other.attrs(),
                c@ == remove_attr_ops(self.id, old_v.take(i as int), new_v),
            decreases self.attributes@.len() - i,
        {
            let key = &self.attributes[i].0;
            proof {
                assert(old_v.take(i + 1).drop_last() =~= old_v.take(i as int));
            }
            if lookup_value(&other.attributes, key).is_none() {
                c.push(Op { id: self.id, instruction: Instruction::RemoveAttribute { key: key.clone() } });
            }
            i += 1;
        }
        proof {
            assert(old_v.take(i as int) =~= old_v);
        }
        let mut j: usize = 0;
        while j < other.attributes.len()
            invariant
                0 <= j <= other.attributes@.len(),
                old_v == self.attrs(),
                new_v == other.attrs(),
                c@ == remove_attr_ops(self.id, old_v, new_v) + set_attr_ops(
                    self.id,
                    old_v,
                    new_v.take(j as int),
                ),
            decreases other.attributes@.len() - j,
        {
            let their_key = &other.attributes[j].0;
            let their_value = &other.attributes[j].1;
            proof {
                assert(new_v.take(j + 1).drop_last() =~= new_v.take(j as int));
            }
            let differs = match lookup_value(&self.attributes, their_key) {
                Some(my_value) => *my_value != *their_value,
                None => true,
            };
            if differs {
                c.push(
                    Op {
                        id: self.id,
                        instruction: Instruction::SetAttribute {
                            key: their_key.clone(),
                            value: their_value.clone(),
                        },
                    },
                );
            }
            proof {
                assert(remove_attr_ops(self.id, old_v, new_v) + set_attr_ops(
                    self.id,
                    old_v,
                    new_v.take(j + 1),
                ) =~= c@);
            }
            j += 1;
        }
        proof {
            assert(new_v.take(j as int) =~= new_v);
        }
        c
    }

    /// `AttachListener` under `id` for each listener of this node.
    fn generate_listeners(&self, id: usize) -> (r: Changeset)
        ensures
            r@ == attach_ops(id, self.listeners_v()),
    {
        let mut c = Changeset::empty();
        let ghost l = self.listeners_v();
        let mut i: usize = 0;
        while i < self.listeners.len()
            invariant
                0 <= i <= self.listeners@.len(),
                l == self.listeners_v(),
                c@ == attach_ops(id, l.take(i as int)),
            decreases self.listeners@.len() - i,
        {
            proof {
                assert(l.take(i + 1).drop_last() =~= l.take(i as int));
            }
            let listener = &self.listeners[i];
            c.push(
                Op {
                    id,
                    instruction: Instruction::AttachListener {
                        name: listener.listener_name.clone(),
                        on: listener.js_event.clone(),
                    },
                },
            );
            i += 1;
        }
        proof {
            assert(l.take(i as int) =~= l);
        }
        c
    }

    fn diff_listeners(&self, other: &Element) -> (r: Changeset)
        ensures
            r@ == listener_ops(*self, *other),
    {
        let mut c = Changeset::empty();
        if !listeners_same(&self.listeners, &other.listeners) {
            c.push(Op { id: self.id, instruction: Instruction::RemoveListeners });
            c.extend(other.generate_listeners(self.id));
        }
        c
    }

    /// The edits that build this node and its subtree from nothing, under `parent`.
    fn create_from_scratch(&self, parent: Option<usize>) -> (r: Changeset)
        ensures
            r@ == create_ops(*self, parent),
        decreases *self, 1nat,
    {
        let mut cs = Changeset::from_op(
            Op {
                id: self.id,
                instruction: Instruction::CreateTag { name: self.name.clone(), parent_id: parent },
            },
        );
        self.push_body(&mut cs);
        cs
    }

    /// The edits that give a bare node, just placed by an insert edit, its tag and content.
    fn fill(&self) -> (r: Changeset)
        ensures
            r@ == fill_ops(*self),
    {
        let mut cs = Changeset::from_op(
            Op { id: self.id, instruction: Instruction::SetTagName { name: self.name.clone() } },
        );
        self.push_body(&mut cs);
        cs
    }

    /// Appends the attributes, listeners, text and children of this node.
    fn push_body(&self, cs: &mut Changeset)
        ensures
            final(cs)@ == old(cs)@ + body_ops(*self),
        decreases *self, 0nat,
    {
        let ghost attrs = self.attrs();
        let ghost head = cs@;
        let mut i: usize = 0;
        while i < self.attributes.len()
            invariant
                0 <= i <= self.attributes@.len(),
                attrs == self.attrs(),
                cs@ == head + set_attr_ops(self.id, Seq::empty(), attrs.take(i as int)),
            decreases self.attributes@.len() - i,
        {
            proof {
                assert(attrs.take(i + 1).drop_last() =~= attrs.take(i as int));
            }
            cs.push(
                Op {
                    id: self.id,
                    instruction: Instruction::SetAttribute {
                        key: self.attributes[i].0.clone(),
                        value: self.attributes[i].1.clone(),
                    },
                },
            );
            proof {
                assert(head + set_attr_ops(self.id, Seq::empty(), attrs.take(i + 1)) =~= cs@);
            }
            i += 1;
        }
        proof {
            assert(attrs.take(i as int) =~= attrs);
        }
        cs.extend(self.generate_listeners(self.id));
        if let Some(value) = &self.text {
            cs.push(Op { id: self.id, instruction: Instruction::SetText { value: value.clone() } });
        }
        let ghost mid = cs@;
        let mut k: usize = 0;
        while k < self.children.len()
            invariant
                0 <= k <= self.children@.len(),
                cs@ == mid + create_children_ops(*self, k as nat),
            decreases self.children@.len() - k,
        {
            cs.extend(self.children[k].create_from_scratch(Some(self.id)));
            proof {
                assert(mid + create_children_ops(*self, (k + 1) as nat) =~= cs@);
            }
            k += 1;
        }
        proof {
            assert(cs@ =~= head + body_ops(*self));
        }
    }

    fn diff_children(&self, other: &Element) -> (r: Changeset)
        ensures
            r@ == children_ops(*self, *other),
        decreases *self, 0nat,
    {
        let mut changeset = Changeset::empty();
        let la = self.children.len();
        let lb = other.children.len();
        if children_are_all_keyed(&self.children) && children_are_all_keyed(&other.children) {
            let mut j: usize = 0;
            while j < lb
                invariant
                    0 <= j <= lb,
                    lb == other.children@.len(),
                    keyed(*self, *other),
                    changeset@ == keyed_pair_ops(*self, *other, j as nat),
                decreases lb - j,
            {
                let their_child = &other.children[j];
                let k = key_str(their_child);
                if let Some(i) = locate_child_by_key(&self.children, &k) {
                    changeset.extend(self.children[i].diff_with(their_child));
                }
                proof {
                    assert(changeset@ =~= keyed_pair_ops(*self, *other, (j + 1) as nat));
                }
                j += 1;
            }
            let ghost pairs = changeset@;
            let first = first_matched_exec(self, other);
            let mut j: usize = 0;
            while j < lb
                invariant
                    0 <= j <= lb,
                    lb == other.children@.len(),
                    la == self.children@.len(),
                    match first {
                        Some(m) => first_matched(*self, *other, 0) == Some(m as int) && m < lb,
                        None => first_matched(*self, *other, 0) is None,
                    },
                    changeset@ == pairs + insert_ops(*self, *other, j as nat),
                decreases lb - j,
            {
                let k = key_str(&other.children[j]);
                if locate_child_by_key(&self.children, &k).is_none() {
                    let c = &other.children;
                    let ins = if j == 0 {
                        match first {
                            Some(m) => Op { id: c[0].id, instruction: Instruction::InsertBefore { before_id: c[m].id } },
                            None => Op { id: other.id, instruction: Instruction::InsertChild { new_child_id: c[0].id } },
                        }
                    } else {
                        Op { id: c[j].id, instruction: Instruction::InsertAfter { after_id: c[j - 1].id } }
                    };
                    changeset.push(ins);
                    changeset.extend(c[j].fill());
                }
                proof {
                    assert(changeset@ =~= pairs + insert_ops(*self, *other, (j + 1) as nat));
                }
                j += 1;
            }
            let ghost inserts = changeset@;
            let mut i: usize = 0;
            while i < la
                invariant
                    0 <= i <= la,
                    la == self.children@.len(),
                    changeset@ == inserts + delete_unmatched_ops(*self, *other, i as nat),
                decreases la - i,
            {
                let our_child = &self.children[i];
                let k = key_str(our_child);
                if locate_child_by_key(&other.children, &k).is_none() {
                    changeset.push(Op { id: our_child.id, instruction: Instruction::DeleteEl });
                }
                proof {
                    assert(changeset@ =~= inserts + delete_unmatched_ops(*self, *other, (i + 1) as nat));
                }
                i += 1;
            }
        } else {
            if la > lb {
                let mut i: usize = lb;
                while i < la
                    invariant
                        lb <= i <= la,
                        la == self.children@.len(),
                        changeset@ == delete_tail_ops(*self, lb as nat, i as nat),
                    decreases la - i,
                {
                    changeset.push(Op { id: self.children[i].id, instruction: Instruction::DeleteEl });
                    proof {
                        assert(changeset@ =~= delete_tail_ops(*self, lb as nat, (i + 1) as nat));
                    }
                    i += 1;
                }
            }
            let n = if la < lb { la } else { lb };
            let ghost before = changeset@;
            let mut i: usize = 0;
            while i < n
                invariant
                    0 <= i <= n,
                    n <= la,
                    n <= lb,
                    la == self.children@.len(),
                    lb == other.children@.len(),
                    changeset@ == before + zip_ops(*self, *other, i as nat),
                decreases n - i,
            {
                changeset.extend(self.children[i].diff_with(&other.children[i]));
                proof {
                    assert(changeset@ =~= before + zip_ops(*self, *other, (i + 1) as nat));
                }
                i += 1;
            }
            if la < lb {
                let ghost zipped = changeset@;
                let mut i: usize = la;
                while i < lb
                    invariant
                        la <= i <= lb,
                        lb == other.children@.len(),
                        changeset@ == zipped + create_tail_ops(other.id, *other, la as nat, i as nat),
                    decreases lb - i,
                {
                    changeset.extend(other.children[i].create_from_scratch(Some(other.id)));
                    proof {
                        assert(changeset@ =~= zipped + create_tail_ops(other.id, *other, la as nat, (i + 1) as nat));
                    }
                    i += 1;
                }
            }
        }
        changeset
    }
}

} // verus!
