//! Laws of the diff engine.

use vstd::prelude::*;
use crate::changeset::{InstructionV, OpV};
use crate::diff_spec::{
    attr_ops, children_ops, create_tail_ops, diff_result, fits, order_kept, delete_unmatched_ops, diff_spec, find_key, id_ops,
    insert_ops, key_seq, keyed, keyed_pair_ops, listener_ops, name_ops, remove_attr_ops,
    set_attr_ops, text_ops, zip_ops,
};
use crate::element::{attr_lookup, attrs_unique, key_of, keys_distinct, opt_view, AttrV, Element};

verus! {

pub(crate) proof fn lemma_lookup_present(s: Seq<AttrV>, i: int)
    requires
        attrs_unique(s),
        0 <= i < s.len(),
    ensures
        attr_lookup(s, s[i].0) == Some(s[i].1),
    decreases s.len(),
{
    if i > 0 {
        let t = s.drop_first();
        assert(attrs_unique(t));
        lemma_lookup_present(t, i - 1);
        assert(s[0].0 != s[i].0);
    }
}

proof fn lemma_remove_none(id: usize, old: Seq<AttrV>, new: Seq<AttrV>)
    requires
        forall|i: int| 0 <= i < old.len() ==> attr_lookup(new, (#[trigger] old[i]).0) is Some,
    ensures
        remove_attr_ops(id, old, new) == Seq::<OpV>::empty(),
    decreases old.len(),
{
    if old.len() > 0 {
        let t = old.drop_last();
        assert forall|i: int| 0 <= i < t.len() implies attr_lookup(new, (#[trigger] t[i]).0) is Some by {
            assert(t[i] == old[i]);
        }
        lemma_remove_none(id, t, new);
        assert(attr_lookup(new, old[old.len() - 1].0) is Some);
        assert(remove_attr_ops(id, old, new) =~= Seq::<OpV>::empty());
    }
}

proof fn lemma_set_none(id: usize, old: Seq<AttrV>, new: Seq<AttrV>)
    requires
        forall|i: int| 0 <= i < new.len() ==> attr_lookup(old, (#[trigger] new[i]).0) == Some(new[i].1),
    ensures
        set_attr_ops(id, old, new) == Seq::<OpV>::empty(),
    decreases new.len(),
{
    if new.len() > 0 {
        let t = new.drop_last();
        assert forall|i: int| 0 <= i < t.len() implies attr_lookup(old, (#[trigger] t[i]).0) == Some(
            t[i].1,
        ) by {
            assert(t[i] == new[i]);
        }
        lemma_set_none(id, old, t);
        assert(attr_lookup(old, new[new.len() - 1].0) == Some(new[new.len() - 1].1));
        assert(set_attr_ops(id, old, new) =~= Seq::<OpV>::empty());
    }
}

proof fn lemma_attr_ops_same(a: Element, b: Element)
    requires
        attrs_unique(a.attrs()),
        a.attrs() == b.attrs(),
    ensures
        attr_ops(a, b) == Seq::<OpV>::empty(),
{
    let s = a.attrs();
    assert forall|i: int| 0 <= i < s.len() implies attr_lookup(s, (#[trigger] s[i]).0) == Some(
        s[i].1,
    ) by {
        lemma_lookup_present(s, i);
    }
    lemma_remove_none(a.id, s, s);
    lemma_set_none(a.id, s, s);
    assert(attr_ops(a, b) =~= Seq::<OpV>::empty());
}

proof fn lemma_find_key_at(c: Seq<Element>, k: Seq<char>, i: int, j: int)
    requires
        0 <= i <= j < c.len(),
        key_of(c[j]) == Some(k),
        forall|m: int| i <= m < j ==> key_of(#[trigger] c[m]) != Some(k),
    ensures
        find_key(c, k, i) == Some(j),
    decreases j - i,
{
    if i < j {
        lemma_find_key_at(c, k, i + 1, j);
    }
}

/// In a list of children with distinct keys, a keyed child is found at its own index.
proof fn lemma_find_own_key(c: Seq<Element>, j: int)
    requires
        keys_distinct(c),
        0 <= j < c.len(),
        c[j].key is Some,
    ensures
        find_key(c, key_seq(c[j]), 0) == Some(j),
{
    let k = key_seq(c[j]);
    assert forall|m: int| 0 <= m < j implies key_of(#[trigger] c[m]) != Some(k) by {
        if c[m].key is Some {
            assert(key_of(c[m]) != key_of(c[j]));
        }
    }
    lemma_find_key_at(c, k, 0, j);
}

proof fn lemma_keyed_pairs_same(a: Element, b: Element, n: nat)
    requires
        a.wf(),
        a.children@ == b.children@,
        keyed(a, b),
        n <= b.children@.len(),
    ensures
        keyed_pair_ops(a, b, n) == Seq::<OpV>::empty(),
    decreases a, 0nat, n,
{
    if n > 0 {
        lemma_keyed_pairs_same(a, b, (n - 1) as nat);
        let j = n - 1;
        assert(a.children@[j].key is Some);
        lemma_find_own_key(a.children@, j);
        assert(a.children@[j].wf());
        lemma_diff_spec_self(a.children@[j]);
        assert(keyed_pair_ops(a, b, n) =~= Seq::<OpV>::empty());
    }
}

proof fn lemma_inserts_same(a: Element, b: Element, n: nat)
    requires
        a.wf(),
        a.children@ == b.children@,
        keyed(a, b),
        n <= b.children@.len(),
    ensures
        insert_ops(a, b, n) == Seq::<OpV>::empty(),
    decreases n,
{
    if n > 0 {
        lemma_inserts_same(a, b, (n - 1) as nat);
        assert(a.children@[n - 1].key is Some);
        lemma_find_own_key(a.children@, n - 1);
        assert(insert_ops(a, b, n) =~= Seq::<OpV>::empty());
    }
}

proof fn lemma_deletes_same(a: Element, b: Element, n: nat)
    requires
        a.wf(),
        a.children@ == b.children@,
        keyed(a, b),
        n <= a.children@.len(),
    ensures
        delete_unmatched_ops(a, b, n) == Seq::<OpV>::empty(),
    decreases n,
{
    if n > 0 {
        lemma_deletes_same(a, b, (n - 1) as nat);
        assert(a.children@[n - 1].key is Some);
        lemma_find_own_key(a.children@, n - 1);
        assert(delete_unmatched_ops(a, b, n) =~= Seq::<OpV>::empty());
    }
}

proof fn lemma_zip_same(a: Element, b: Element, n: nat)
    requires
        a.wf(),
        a.children@ == b.children@,
        n <= a.children@.len(),
    ensures
        zip_ops(a, b, n) == Seq::<OpV>::empty(),
    decreases a, 0nat, n,
{
    if n > 0 {
        lemma_zip_same(a, b, (n - 1) as nat);
        assert(a.children@[n - 1].wf());
        lemma_diff_spec_self(a.children@[n - 1]);
        assert(zip_ops(a, b, n) =~= Seq::<OpV>::empty());
    }
}

proof fn lemma_children_same(a: Element, b: Element)
    requires
        a.wf(),
        a.children@ == b.children@,
    ensures
        children_ops(a, b) == Seq::<OpV>::empty(),
    decreases a, 1nat, 0nat,
{
    let n = a.children@.len();
    if keyed(a, b) {
        lemma_keyed_pairs_same(a, b, n);
        lemma_inserts_same(a, b, n);
        lemma_deletes_same(a, b, n);
    } else {
        lemma_zip_same(a, b, n);
        assert(create_tail_ops(a.id, b, n, n) == Seq::<OpV>::empty());
    }
    assert(children_ops(a, b) =~= Seq::<OpV>::empty());
}

proof fn lemma_diff_spec_self(a: Element)
    requires
        a.wf(),
    ensures
        diff_spec(a, a) == Seq::<OpV>::empty(),
    decreases a, 2nat, 0nat,
{
    lemma_attr_ops_same(a, a);
    lemma_children_same(a, a);
    assert(diff_spec(a, a) =~= Seq::<OpV>::empty());
}

/// Nodes with the same children fit: the incremental edits are used.
proof fn lemma_fits_same(root: Element, x: Element, y: Element)
    requires
        x.wf(),
        x.children@ == y.children@,
    ensures
        fits(root, x, y),
    decreases x,
{
    let c = x.children@;
    if keyed(x, y) {
        assert forall|j: int| 0 <= j < c.len() implies find_key(c, key_seq(c[j]), 0) == Some(j) by {
            assert(c[j].key is Some);
            lemma_find_own_key(c, j);
        }
        assert(order_kept(x, y)) by {
            assert forall|j1: int, j2: int| 0 <= j1 < j2 < y.children@.len() implies match (
                find_key(x.children@, key_seq(#[trigger] y.children@[j1]), 0),
                find_key(x.children@, key_seq(#[trigger] y.children@[j2]), 0),
            ) {
                (Some(i1), Some(i2)) => i1 < i2,
                _ => true,
            } by {
                assert(find_key(c, key_seq(c[j1]), 0) == Some(j1));
                assert(find_key(c, key_seq(c[j2]), 0) == Some(j2));
            }
        }
        assert forall|j: int| 0 <= j < c.len() implies fits(root, #[trigger] c[j], c[j]) by {
            assert(c[j].wf());
            lemma_fits_same(root, c[j], c[j]);
        }
    } else {
        assert forall|j: int| 0 <= j < c.len() implies fits(root, #[trigger] c[j], c[j]) by {
            assert(c[j].wf());
            lemma_fits_same(root, c[j], c[j]);
        }
    }
}

/// Diffing a well-formed tree against itself gives no edits.
pub proof fn lemma_diff_self(a: Element)
    requires
        a.wf(),
    ensures
        diff_result(a, a) == Seq::<OpV>::empty(),
{
    lemma_fits_same(a, a, a);
    lemma_diff_spec_self(a);
}

/// When two well-formed trees differ in the root's text alone, the diff is the one edit that
/// sets or removes that text.
pub proof fn lemma_diff_text_only(a: Element, b: Element)
    requires
        a.wf(),
        a.id == b.id,
        a.name@ == b.name@,
        a.attrs() == b.attrs(),
        a.listeners_v() == b.listeners_v(),
        a.children@ == b.children@,
        opt_view(a.text) != opt_view(b.text),
    ensures
        diff_result(a, b) == match b.text {
            Some(t) => seq![OpV { id: a.id, instruction: InstructionV::SetText { value: t@ } }],
            None => seq![OpV { id: a.id, instruction: InstructionV::RemoveText }],
        },
{
    lemma_fits_same(a, a, b);
    lemma_attr_ops_same(a, b);
    lemma_children_same(a, b);
    assert(name_ops(a, b) == Seq::<OpV>::empty());
    assert(listener_ops(a, b) == Seq::<OpV>::empty());
    assert(id_ops(a, b) == Seq::<OpV>::empty());
    assert(diff_spec(a, b) =~= text_ops(a, b));
}

} // verus!
