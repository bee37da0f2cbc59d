//! Replaying a diff against the tree it was computed from.

use vstd::prelude::*;
use crate::apply::{apply_op, apply_spec, attr_index, attr_remove, attr_set, edit_node};
use crate::changeset::{InstructionV, OpV};
use crate::diff_laws::lemma_lookup_present;
use crate::diff_spec::{
    attach_ops, children_ops, create_children_ops, create_ops, diff_result, diff_spec, fits,
    id_ops, listener_ops, name_ops, remove_attr_ops, set_attr_ops, text_create_ops, text_ops,
};
use crate::element::{
    attr_lookup, attrs_unique, attrs_within, leaf, opt_view, same_tree, AttrV, Element,
    ListenerV, Node,
};

verus! {

proof fn lemma_lookup_absent(s: Seq<AttrV>, k: Seq<char>)
    requires
        forall|i: int| 0 <= i < s.len() ==> (#[trigger] s[i]).0 != k,
    ensures
        attr_lookup(s, k) is None,
    decreases s.len(),
{
    if s.len() > 0 {
        let t = s.drop_first();
        assert forall|i: int| 0 <= i < t.len() implies (#[trigger] t[i]).0 != k by {
            assert(t[i] == s[i + 1]);
        }
        lemma_lookup_absent(t, k);
        assert(s[0].0 != k);
    }
}

/// With distinct keys, a lookup finds the pair with that key, or nothing when none has it.
proof fn lemma_lookup_char(s: Seq<AttrV>, k: Seq<char>)
    requires
        attrs_unique(s),
    ensures
        forall|i: int| 0 <= i < s.len() && (#[trigger] s[i]).0 == k ==> attr_lookup(s, k) == Some(s[i].1),
        (forall|i: int| 0 <= i < s.len() ==> (#[trigger] s[i]).0 != k) ==> attr_lookup(s, k) is None,
{
    assert forall|i: int| 0 <= i < s.len() && (#[trigger] s[i]).0 == k implies attr_lookup(s, k) == Some(s[i].1) by {
        lemma_lookup_present(s, i);
    }
    if forall|i: int| 0 <= i < s.len() ==> (#[trigger] s[i]).0 != k {
        lemma_lookup_absent(s, k);
    }
}

proof fn lemma_attr_index(s: Seq<AttrV>, k: Seq<char>, i: int)
    requires
        0 <= i,
    ensures
        match attr_index(s, k, i) {
            Some(j) => i <= j < s.len() && s[j].0 == k,
            None => forall|m: int| i <= m < s.len() ==> (#[trigger] s[m]).0 != k,
        },
    decreases s.len() - i,
{
    if i < s.len() && s[i].0 != k {
        lemma_attr_index(s, k, i + 1);
    }
}

#[verifier::rlimit(50)]
proof fn lemma_remove_lookup(s: Seq<AttrV>, k: Seq<char>, k2: Seq<char>)
    requires
        attrs_unique(s),
    ensures
        attrs_unique(attr_remove(s, k)),
        attr_lookup(attr_remove(s, k), k2) == if k2 == k {
            None
        } else {
            attr_lookup(s, k2)
        },
{
    lemma_attr_index(s, k, 0);
    lemma_lookup_char(s, k2);
    let r = attr_remove(s, k);
    match attr_index(s, k, 0) {
        Some(i) => {
            assert(attrs_unique(r)) by {
                assert forall|a: int, b: int| 0 <= a < b < r.len() implies r[a].0 != r[b].0 by {
                    let a2 = if a < i { a } else { a + 1 };
                    let b2 = if b < i { b } else { b + 1 };
                    assert(r[a] == s[a2] && r[b] == s[b2]);
                }
            }
            lemma_lookup_char(r, k2);
            if k2 == k {
                assert forall|m: int| 0 <= m < r.len() implies (#[trigger] r[m]).0 != k2 by {
                    let m2 = if m < i { m } else { m + 1 };
                    assert(r[m] == s[m2]);
                }
            } else {
                if exists|j: int| 0 <= j < s.len() && (#[trigger] s[j]).0 == k2 {
                    let j = choose|j: int| 0 <= j < s.len() && (#[trigger] s[j]).0 == k2;
                    let j2 = if j < i { j } else { j - 1 };
                    assert(r[j2] == s[j]);
                } else {
                    assert forall|m: int| 0 <= m < r.len() implies (#[trigger] r[m]).0 != k2 by {
                        let m2 = if m < i { m } else { m + 1 };
                        assert(r[m] == s[m2]);
                    }
                }
            }
        },
        None => {},
    }
}

proof fn lemma_set_lookup(s: Seq<AttrV>, k: Seq<char>, v: Seq<char>, k2: Seq<char>)
    requires
        attrs_unique(s),
    ensures
        attrs_unique(attr_set(s, k, v)),
        attr_lookup(attr_set(s, k, v), k2) == if k2 == k {
            Some(v)
        } else {
            attr_lookup(s, k2)
        },
{
    lemma_attr_index(s, k, 0);
    lemma_lookup_char(s, k2);
    let r = attr_set(s, k, v);
    match attr_index(s, k, 0) {
        Some(i) => {
            assert(attrs_unique(r)) by {
                assert forall|a: int, b: int| 0 <= a < b < r.len() implies r[a].0 != r[b].0 by {
                    assert(r[a].0 == s[a].0 && r[b].0 == s[b].0);
                }
            }
            lemma_lookup_char(r, k2);
            if k2 == k {
                assert(r[i] == (k, v));
            } else if exists|j: int| 0 <= j < s.len() && (#[trigger] s[j]).0 == k2 {
                let j = choose|j: int| 0 <= j < s.len() && (#[trigger] s[j]).0 == k2;
                assert(r[j] == s[j]);
            } else {
                assert forall|m: int| 0 <= m < r.len() implies (#[trigger] r[m]).0 != k2 by {
                    if m != i {
                        assert(r[m] == s[m]);
                    }
                }
            }
        },
        None => {
            assert(attrs_unique(r)) by {
                assert forall|a: int, b: int| 0 <= a < b < r.len() implies r[a].0 != r[b].0 by {
                    if b < s.len() {
                        assert(r[a] == s[a] && r[b] == s[b]);
                    } else {
                        assert(r[a] == s[a]);
                    }
                }
            }
            lemma_lookup_char(r, k2);
            if k2 == k {
                assert(r[s.len() as int] == (k, v));
            } else if exists|j: int| 0 <= j < s.len() && (#[trigger] s[j]).0 == k2 {
                let j = choose|j: int| 0 <= j < s.len() && (#[trigger] s[j]).0 == k2;
                assert(r[j] == s[j]);
            } else {
                assert forall|m: int| 0 <= m < r.len() implies (#[trigger] r[m]).0 != k2 by {
                    if m < s.len() {
                        assert(r[m] == s[m]);
                    }
                }
            }
        },
    }
}

/// Replaying two edit lists one after the other is replaying their concatenation.
proof fn lemma_apply_concat(s1: Seq<OpV>, s2: Seq<OpV>, t: Node)
    ensures
        apply_spec(s1 + s2, t) == match apply_spec(s1, t) {
            Ok(t1) => apply_spec(s2, t1),
            Err(e) => Err(e),
        },
    decreases s2.len(),
{
    if s2.len() == 0 {
        assert(s1 + s2 =~= s1);
    } else {
        lemma_apply_concat(s1, s2.drop_last(), t);
        assert((s1 + s2).drop_last() =~= s1 + s2.drop_last());
        assert((s1 + s2).last() == s2.last());
    }
}

/// An edit that addresses a node by its own identity, replayed on that node.
pub open spec fn by_id(o: OpV) -> bool {
    match o.instruction {
        InstructionV::SetAttribute { .. } => true,
        InstructionV::RemoveAttribute { .. } => true,
        InstructionV::SetId { .. } => true,
        InstructionV::SetText { .. } => true,
        InstructionV::SetTagName { .. } => true,
        InstructionV::RemoveText => true,
        InstructionV::RemoveListeners => true,
        InstructionV::AttachListener { .. } => true,
        _ => false,
    }
}

proof fn lemma_one(t: Node, o: OpV)
    requires
        by_id(o),
        t.id == o.id,
    ensures
        apply_spec(seq![o], t) == Ok::<Node, crate::apply::ApplyError>(edit_node(t, o)),
{
    assert(seq![o].drop_last() =~= Seq::<OpV>::empty());
    assert(apply_spec(Seq::<OpV>::empty(), t) == Ok::<Node, crate::apply::ApplyError>(t));
    assert(seq![o].last() == o);
    assert(crate::apply::is_target(t, crate::apply::target_of(o)));
    assert(apply_op(t, o) == Ok::<Node, crate::apply::ApplyError>(edit_node(t, o)));
}

/// The attributes after the removals that `remove_attr_ops` emits.
pub open spec fn removed_attrs(a: Seq<AttrV>, old: Seq<AttrV>, new: Seq<AttrV>) -> Seq<AttrV>
    decreases old.len(),
{
    if old.len() == 0 {
        a
    } else {
        let r = removed_attrs(a, old.drop_last(), new);
        if attr_lookup(new, old.last().0) is None {
            attr_remove(r, old.last().0)
        } else {
            r
        }
    }
}

/// The attributes after the settings that `set_attr_ops` emits.
pub open spec fn set_attrs(a: Seq<AttrV>, old: Seq<AttrV>, new: Seq<AttrV>) -> Seq<AttrV>
    decreases new.len(),
{
    if new.len() == 0 {
        a
    } else {
        let r = set_attrs(a, old, new.drop_last());
        if attr_lookup(old, new.last().0) != Some(new.last().1) {
            attr_set(r, new.last().0, new.last().1)
        } else {
            r
        }
    }
}

pub open spec fn key_in(s: Seq<AttrV>, k: Seq<char>) -> bool {
    exists|i: int| 0 <= i < s.len() && (#[trigger] s[i]).0 == k
}

proof fn lemma_apply_removes(t: Node, old: Seq<AttrV>, new: Seq<AttrV>)
    ensures
        apply_spec(remove_attr_ops(t.id, old, new), t) == Ok::<Node, crate::apply::ApplyError>(
            Node { attrs: removed_attrs(t.attrs, old, new), ..t },
        ),
    decreases old.len(),
{
    if old.len() == 0 {
        assert(Node { attrs: removed_attrs(t.attrs, old, new), ..t } == t);
    } else {
        let p = old.drop_last();
        lemma_apply_removes(t, p, new);
        let t1 = Node { attrs: removed_attrs(t.attrs, p, new), ..t };
        let tail = if attr_lookup(new, old.last().0).is_none() {
            seq![OpV { id: t.id, instruction: InstructionV::RemoveAttribute { key: old.last().0 } }]
        } else {
            Seq::empty()
        };
        lemma_apply_concat(remove_attr_ops(t.id, p, new), tail, t);
        if attr_lookup(new, old.last().0).is_none() {
            lemma_one(t1, tail[0]);
        }
    }
}

proof fn lemma_apply_sets(t: Node, old: Seq<AttrV>, new: Seq<AttrV>)
    ensures
        apply_spec(set_attr_ops(t.id, old, new), t) == Ok::<Node, crate::apply::ApplyError>(
            Node { attrs: set_attrs(t.attrs, old, new), ..t },
        ),
    decreases new.len(),
{
    if new.len() == 0 {
        assert(Node { attrs: set_attrs(t.attrs, old, new), ..t } == t);
    } else {
        let p = new.drop_last();
        lemma_apply_sets(t, old, p);
        let t1 = Node { attrs: set_attrs(t.attrs, old, p), ..t };
        let tail = if attr_lookup(old, new.last().0) != Some(new.last().1) {
            seq![
                OpV {
                    id: t.id,
                    instruction: InstructionV::SetAttribute { key: new.last().0, value: new.last().1 },
                },
            ]
        } else {
            Seq::empty()
        };
        lemma_apply_concat(set_attr_ops(t.id, old, p), tail, t);
        if attr_lookup(old, new.last().0) != Some(new.last().1) {
            lemma_one(t1, tail[0]);
        }
    }
}

proof fn lemma_apply_attach(t: Node, l: Seq<ListenerV>)
    ensures
        apply_spec(attach_ops(t.id, l), t) == Ok::<Node, crate::apply::ApplyError>(
            Node { listeners: t.listeners + l, ..t },
        ),
    decreases l.len(),
{
    if l.len() == 0 {
        assert(t.listeners + l =~= t.listeners);
        assert(Node { listeners: t.listeners + l, ..t } == t);
    } else {
        let p = l.drop_last();
        lemma_apply_attach(t, p);
        let t1 = Node { listeners: t.listeners + p, ..t };
        let o = OpV { id: t.id, instruction: InstructionV::AttachListener { name: l.last().0, on: l.last().1 } };
        lemma_apply_concat(attach_ops(t.id, p), seq![o], t);
        lemma_one(t1, o);
        assert((t.listeners + p).push((l.last().0, l.last().1)) =~= t.listeners + l);
    }
}

proof fn lemma_removed_lookup(a: Seq<AttrV>, p: Seq<AttrV>, new: Seq<AttrV>, k: Seq<char>)
    requires
        attrs_unique(a),
    ensures
        attrs_unique(removed_attrs(a, p, new)),
        attr_lookup(removed_attrs(a, p, new), k) == if attr_lookup(new, k) is None && key_in(p, k) {
            None
        } else {
            attr_lookup(a, k)
        },
    decreases p.len(),
{
    if p.len() > 0 {
        let q = p.drop_last();
        let x = p.last();
        lemma_removed_lookup(a, q, new, k);
        lemma_removed_lookup(a, q, new, x.0);
        if attr_lookup(new, x.0) is None {
            lemma_remove_lookup(removed_attrs(a, q, new), x.0, k);
        }
        if key_in(q, k) {
            let i = choose|i: int| 0 <= i < q.len() && (#[trigger] q[i]).0 == k;
            assert(p[i] == q[i]);
        }
        if key_in(p, k) && k != x.0 {
            let i = choose|i: int| 0 <= i < p.len() && (#[trigger] p[i]).0 == k;
            assert(q[i] == p[i]);
        }
        assert(p[p.len() - 1] == x);
    }
}

proof fn lemma_set_attrs_lookup(r: Seq<AttrV>, old: Seq<AttrV>, new: Seq<AttrV>, q: int, k: Seq<char>)
    requires
        attrs_unique(r),
        attrs_unique(new),
        0 <= q <= new.len(),
        forall|k2: Seq<char>| #[trigger] attr_lookup(r, k2) == if attr_lookup(new, k2) is None {
            None
        } else {
            attr_lookup(old, k2)
        },
    ensures
        attrs_unique(set_attrs(r, old, new.take(q))),
        attr_lookup(set_attrs(r, old, new.take(q)), k) == if key_in(new.take(q), k) {
            attr_lookup(new, k)
        } else {
            attr_lookup(r, k)
        },
    decreases q,
{
    if q > 0 {
        let p = new.take(q);
        let pp = new.take(q - 1);
        assert(p.drop_last() =~= pp);
        let x = new[q - 1];
        assert(p.last() == x);
        lemma_set_attrs_lookup(r, old, new, q - 1, k);
        lemma_set_attrs_lookup(r, old, new, q - 1, x.0);
        lemma_lookup_present(new, q - 1);
        if attr_lookup(old, x.0) != Some(x.1) {
            lemma_set_lookup(set_attrs(r, old, pp), x.0, x.1, k);
        }
        if key_in(pp, k) {
            let i = choose|i: int| 0 <= i < pp.len() && (#[trigger] pp[i]).0 == k;
            assert(p[i] == pp[i]);
        }
        if key_in(p, k) && k != x.0 {
            let i = choose|i: int| 0 <= i < p.len() && (#[trigger] p[i]).0 == k;
            assert(pp[i] == p[i]);
        }
        assert(p[q - 1] == x);
        assert(attr_lookup(r, x.0) == if attr_lookup(new, x.0) is None {
            None
        } else {
            attr_lookup(old, x.0)
        });
    }
}

/// Replaying the diff of one childless node into another against the first gives the
/// second, all but the key, which edits do not carry; attributes compare as maps.
pub proof fn lemma_round_trip_childless(a: Element, b: Element)
    requires
        a.wf(),
        b.wf(),
        a.children@.len() == 0,
        b.children@.len() == 0,
    ensures
        apply_spec(diff_result(a, b), a@) matches Ok(t) && same_tree(t, Node { key: a@.key, ..b@ }),
{
    let old = a.attrs();
    let new = b.attrs();
    let t0 = a@;
    // the tag name
    let t1 = if a.name@ != b.name@ { Node { name: b.name@, ..t0 } } else { t0 };
    if a.name@ != b.name@ {
        lemma_one(t0, name_ops(a, b)[0]);
    }
    // the attributes
    lemma_apply_removes(t1, old, new);
    let t2 = Node { attrs: removed_attrs(old, old, new), ..t1 };
    lemma_apply_sets(t2, old, new);
    let fin = set_attrs(removed_attrs(old, old, new), old, new);
    let t3 = Node { attrs: fin, ..t1 };
    lemma_apply_concat(remove_attr_ops(a.id, old, new), set_attr_ops(a.id, old, new), t1);
    // the text
    let t4 = if opt_view(a.text) != opt_view(b.text) { Node { text: opt_view(b.text), ..t3 } } else { t3 };
    if opt_view(a.text) != opt_view(b.text) {
        lemma_one(t3, text_ops(a, b)[0]);
    }
    // the listeners
    let t5 = if a.listeners_v() != b.listeners_v() { Node { listeners: b.listeners_v(), ..t4 } } else { t4 };
    if a.listeners_v() != b.listeners_v() {
        let rm = OpV { id: a.id, instruction: InstructionV::RemoveListeners };
        lemma_one(t4, rm);
        let t4e = Node { listeners: Seq::empty(), ..t4 };
        lemma_apply_attach(t4e, b.listeners_v());
        lemma_apply_concat(seq![rm], attach_ops(a.id, b.listeners_v()), t4);
        assert(Seq::<ListenerV>::empty() + b.listeners_v() =~= b.listeners_v());
    }
    // no children on either side
    assert(children_ops(a, b) =~= Seq::<OpV>::empty());
    // the identity
    let t6 = if a.id != b.id { Node { id: b.id, ..t5 } } else { t5 };
    if a.id != b.id {
        lemma_one(t5, id_ops(a, b)[0]);
    }
    let s1 = name_ops(a, b);
    let s2 = remove_attr_ops(a.id, old, new) + set_attr_ops(a.id, old, new);
    let s3 = text_ops(a, b);
    let s4 = listener_ops(a, b);
    let s6 = id_ops(a, b);
    lemma_apply_concat(s1, s2, t0);
    lemma_apply_concat(s1 + s2, s3, t0);
    lemma_apply_concat(s1 + s2 + s3, s4, t0);
    lemma_apply_concat(s1 + s2 + s3 + s4, Seq::<OpV>::empty(), t0);
    lemma_apply_concat(s1 + s2 + s3 + s4 + Seq::<OpV>::empty(), s6, t0);
    assert(diff_spec(a, b) == s1 + s2 + s3 + s4 + children_ops(a, b) + s6);
    // the attributes hold the new ones, as a map
    assert forall|k: Seq<char>| #[trigger] attr_lookup(removed_attrs(old, old, new), k) == if attr_lookup(new, k) is None {
        None
    } else {
        attr_lookup(old, k)
    } by {
        lemma_removed_lookup(old, old, new, k);
        if !key_in(old, k) {
            assert forall|i: int| 0 <= i < old.len() implies (#[trigger] old[i]).0 != k by {}
            lemma_lookup_absent(old, k);
        }
    }
    lemma_removed_lookup(old, old, new, Seq::empty());
    assert(new.take(new.len() as int) =~= new);
    assert forall|k: Seq<char>| #[trigger] attr_lookup(fin, k) == attr_lookup(new, k) by {
        lemma_set_attrs_lookup(removed_attrs(old, old, new), old, new, new.len() as int, k);
        if !key_in(new, k) {
            assert forall|i: int| 0 <= i < new.len() implies (#[trigger] new[i]).0 != k by {}
            lemma_lookup_absent(new, k);
        }
    }
    lemma_set_attrs_lookup(removed_attrs(old, old, new), old, new, new.len() as int, Seq::empty());
    assert(attrs_within(fin, new)) by {
        assert forall|i: int| 0 <= i < fin.len() implies attr_lookup(new, (#[trigger] fin[i]).0) == Some(fin[i].1) by {
            lemma_lookup_present(fin, i);
            assert(attr_lookup(fin, fin[i].0) == attr_lookup(new, fin[i].0));
        }
    }
    assert(attrs_within(new, fin)) by {
        assert forall|i: int| 0 <= i < new.len() implies attr_lookup(fin, (#[trigger] new[i]).0) == Some(new[i].1) by {
            lemma_lookup_present(new, i);
            assert(attr_lookup(fin, new[i].0) == attr_lookup(new, new[i].0));
        }
    }
    assert(t6 == Node { attrs: fin, key: a@.key, ..b@ }) by {
        assert(t6.children =~= b@.children);
    }
    assert(apply_spec(diff_spec(a, b), a@) == Ok::<Node, crate::apply::ApplyError>(t6));
    assert(fits(a, a, b));
}

/// The first-paint edits of a childless node, replayed against any tree, rebuild the node,
/// all but its key; attributes compare as maps.
pub proof fn lemma_first_paint_childless(a: Element, t: Node)
    requires
        a.wf(),
        a.children@.len() == 0,
    ensures
        apply_spec(create_ops(a, None), t) matches Ok(r) && same_tree(r, Node { key: None, ..a@ }),
{
    let new = a.attrs();
    let empty = Seq::<AttrV>::empty();
    let c = OpV { id: a.id, instruction: InstructionV::CreateTag { name: a.name@, parent_id: None } };
    let t0 = leaf(a.id, a.name@);
    assert(seq![c].drop_last() =~= Seq::<OpV>::empty());
    assert(apply_spec(Seq::<OpV>::empty(), t) == Ok::<Node, crate::apply::ApplyError>(t));
    assert(seq![c].last() == c);
    assert(apply_op(t, c) == Ok::<Node, crate::apply::ApplyError>(t0));
    assert(apply_spec(seq![c], t) == Ok::<Node, crate::apply::ApplyError>(t0));
    lemma_apply_sets(t0, empty, new);
    let fin = set_attrs(empty, empty, new);
    let t1 = Node { attrs: fin, ..t0 };
    lemma_apply_attach(t1, a.listeners_v());
    let t2 = Node { listeners: t1.listeners + a.listeners_v(), ..t1 };
    assert(t1.listeners + a.listeners_v() =~= a.listeners_v());
    let t3 = match a.text {
        Some(x) => Node { text: Some(x@), ..t2 },
        None => t2,
    };
    if a.text is Some {
        lemma_one(t2, text_create_ops(a)[0]);
    } else {
        assert(text_create_ops(a) =~= Seq::<OpV>::empty());
    }
    assert(create_children_ops(a, 0) =~= Seq::<OpV>::empty());
    let s1 = seq![c];
    let s2 = set_attr_ops(a.id, empty, new);
    let s3 = attach_ops(a.id, a.listeners_v());
    let s4 = text_create_ops(a);
    lemma_apply_concat(s1, s2, t);
    lemma_apply_concat(s1 + s2, s3, t);
    lemma_apply_concat(s1 + s2 + s3, s4, t);
    lemma_apply_concat(s1 + s2 + s3 + s4, Seq::<OpV>::empty(), t);
    assert(create_ops(a, None) == s1 + s2 + s3 + s4 + Seq::<OpV>::empty());
    // the attributes hold those of the node, as a map
    assert forall|k2: Seq<char>| #[trigger] attr_lookup(empty, k2) == if attr_lookup(new, k2) is None {
        None
    } else {
        attr_lookup(empty, k2)
    } by {}
    assert(attrs_unique(empty));
    assert(new.take(new.len() as int) =~= new);
    assert forall|k: Seq<char>| #[trigger] attr_lookup(fin, k) == attr_lookup(new, k) by {
        lemma_set_attrs_lookup(empty, empty, new, new.len() as int, k);
        if !key_in(new, k) {
            assert forall|i: int| 0 <= i < new.len() implies (#[trigger] new[i]).0 != k by {}
            lemma_lookup_absent(new, k);
        }
    }
    lemma_set_attrs_lookup(empty, empty, new, new.len() as int, Seq::empty());
    assert(attrs_within(fin, new)) by {
        assert forall|i: int| 0 <= i < fin.len() implies attr_lookup(new, (#[trigger] fin[i]).0) == Some(fin[i].1) by {
            lemma_lookup_present(fin, i);
            assert(attr_lookup(fin, fin[i].0) == attr_lookup(new, fin[i].0));
        }
    }
    assert(attrs_within(new, fin)) by {
        assert forall|i: int| 0 <= i < new.len() implies attr_lookup(fin, (#[trigger] new[i]).0) == Some(new[i].1) by {
            lemma_lookup_present(new, i);
            assert(attr_lookup(fin, new[i].0) == attr_lookup(new, new[i].0));
        }
    }
    assert(t3 == Node { attrs: fin, key: None, ..a@ }) by {
        assert(t3.children =~= a@.children);
    }
    assert(apply_spec(create_ops(a, None), t) == Ok::<Node, crate::apply::ApplyError>(t3));
}

} // verus!
