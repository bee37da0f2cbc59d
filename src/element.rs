//! The in-memory model of a UI element tree.

use vstd::prelude::*;

verus! {

/// A listener that the client wires to a DOM event: `listener_name` is the token that the
/// server resolves back to an input, `js_event` the DOM event (`click`, `submit`, `input`).
#[derive(Debug, Clone)]
pub struct ListenerRef {
    pub listener_name: String,
    pub js_event: String,
}

/// A listener as a pair of character sequences.
pub type ListenerV = (Seq<char>, Seq<char>);

/// An attribute as a pair of character sequences.
pub type AttrV = (Seq<char>, Seq<char>);

impl ListenerRef {
    pub open spec fn view(&self) -> ListenerV {
        (self.listener_name@, self.js_event@)
    }

    pub fn new(listener_name: String, js_event: String) -> (r: ListenerRef)
        ensures
            r.listener_name@ == listener_name@,
            r.js_event@ == js_event@,
    {
        ListenerRef { listener_name, js_event }
    }

    /// The name of the listener.
    pub fn listener_name(&self) -> (r: &str)
        ensures
            r@ == self.listener_name@,
    {
        self.listener_name.as_str()
    }

    /// The DOM event that the listener is wired to.
    pub fn js_event(&self) -> (r: &str)
        ensures
            r@ == self.js_event@,
    {
        self.js_event.as_str()
    }
}

/// An HTML element together with its subtree.
///
/// `attributes` is an unordered map kept as a list of pairs whose keys are distinct
/// (see `attrs_unique`).
#[derive(Debug)]
pub struct Element {
    /// The identity that the client addresses this node by.
    pub id: usize,
    pub name: String,
    pub attributes: Vec<(String, String)>,
    pub listeners: Vec<ListenerRef>,
    pub children: Vec<Element>,
    pub text: Option<String>,
    pub key: Option<String>,
}

pub open spec fn opt_view(o: Option<String>) -> Option<Seq<char>> {
    match o {
        Some(s) => Some(s@),
        None => None,
    }
}

pub open spec fn attrs_view(a: Seq<(String, String)>) -> Seq<AttrV> {
    a.map_values(|p: (String, String)| (p.0@, p.1@))
}

pub open spec fn listeners_view(l: Seq<ListenerRef>) -> Seq<ListenerV> {
    l.map_values(|x: ListenerRef| x@)
}

/// The value stored under `k`, taking the first pair with that key.
pub open spec fn attr_lookup(a: Seq<AttrV>, k: Seq<char>) -> Option<Seq<char>>
    decreases a.len(),
{
    if a.len() == 0 {
        None
    } else if a[0].0 == k {
        Some(a[0].1)
    } else {
        attr_lookup(a.drop_first(), k)
    }
}

/// No key occurs twice.
pub open spec fn attrs_unique(a: Seq<AttrV>) -> bool {
    forall|i: int, j: int| 0 <= i < j < a.len() ==> a[i].0 != a[j].0
}

/// The key of a node, as characters.
pub open spec fn key_of(e: Element) -> Option<Seq<char>> {
    opt_view(e.key)
}

/// Every child carries a key.
pub open spec fn all_keyed(c: Seq<Element>) -> bool {
    forall|i: int| 0 <= i < c.len() ==> (#[trigger] c[i]).key.is_some()
}

/// No two keyed children share a key.
pub open spec fn keys_distinct(c: Seq<Element>) -> bool {
    forall|i: int, j: int|
        0 <= i < c.len() && 0 <= j < c.len() && i != j && (#[trigger] c[i]).key.is_some()
            ==> key_of(c[i]) != key_of(#[trigger] c[j])
}

/// A tree as a mathematical value: what an `Element` holds, with its strings as characters.
pub struct Node {
    pub id: usize,
    pub name: Seq<char>,
    pub attrs: Seq<AttrV>,
    pub listeners: Seq<ListenerV>,
    pub children: Seq<Node>,
    pub text: Option<Seq<char>>,
    pub key: Option<Seq<char>>,
}

/// A node with an identity and a tag name and nothing else.
pub open spec fn leaf(id: usize, name: Seq<char>) -> Node {
    Node {
        id,
        name,
        attrs: Seq::empty(),
        listeners: Seq::empty(),
        children: Seq::empty(),
        text: None,
        key: None,
    }
}

impl Element {
    pub open spec fn view(self) -> Node
        decreases self,
    {
        Node {
            id: self.id,
            name: self.name@,
            attrs: self.attrs(),
            listeners: self.listeners_v(),
            children: Seq::new(
                self.children@.len(),
                |i: int|
                    if 0 <= i < self.children@.len() {
                        self.children@[i].view()
                    } else {
                        leaf(0, Seq::empty())
                    },
            ),
            text: opt_view(self.text),
            key: opt_view(self.key),
        }
    }

    pub open spec fn attrs(&self) -> Seq<AttrV> {
        attrs_view(self.attributes@)
    }

    pub open spec fn listeners_v(&self) -> Seq<ListenerV> {
        listeners_view(self.listeners@)
    }

    /// A well-formed tree: the attribute keys of each node are distinct, and the children of
    /// each node are either all keyed, with distinct keys, or all unkeyed.
    pub open spec fn wf(self) -> bool
        decreases self,
    {
        &&& attrs_unique(self.attrs())
        &&& (all_keyed(self.children@) || forall|i: int|
            0 <= i < self.children@.len() ==> (#[trigger] self.children@[i]).key.is_none())
        &&& keys_distinct(self.children@)
        &&& forall|i: int|
            0 <= i < self.children@.len() ==> (#[trigger] self.children@[i]).wf()
    }

    /// A leaf with the given identity and tag name.
    pub fn new(id: usize, name: String) -> (r: Element)
        ensures
            r.id == id,
            r.name@ == name@,
            r.attributes@.len() == 0,
            r.listeners@.len() == 0,
            r.children@.len() == 0,
            r.text.is_none(),
            r.key.is_none(),
            r@ == leaf(id, name@),
    {
        let r = Element {
            id,
            name,
            attributes: Vec::new(),
            listeners: Vec::new(),
            children: Vec::new(),
            text: None,
            key: None,
        };
        proof {
            assert(r@.attrs =~= Seq::<AttrV>::empty());
            assert(r@.listeners =~= Seq::<ListenerV>::empty());
            assert(r@.children =~= Seq::<Node>::empty());
        }
        r
    }
}

} // verus!

verus! {

/// Every pair of `a` is found in `b`.
pub open spec fn attrs_within(a: Seq<AttrV>, b: Seq<AttrV>) -> bool {
    forall|i: int| 0 <= i < a.len() ==> attr_lookup(b, (#[trigger] a[i]).0) == Some(a[i].1)
}

/// The two attribute lists hold the same pairs, order aside: equal as maps.
pub open spec fn attrs_same(a: Seq<AttrV>, b: Seq<AttrV>) -> bool {
    attrs_within(a, b) && attrs_within(b, a)
}

/// Two trees are the same: every field equal, attributes compared as maps.
pub open spec fn same_tree(a: Node, b: Node) -> bool
    decreases a,
{
    &&& a.id == b.id
    &&& a.name == b.name
    &&& attrs_same(a.attrs, b.attrs)
    &&& a.listeners == b.listeners
    &&& a.text == b.text
    &&& a.key == b.key
    &&& a.children.len() == b.children.len()
    &&& forall|i: int|
        0 <= i < a.children.len() ==> same_tree(#[trigger] a.children[i], b.children[i])
}

pub(crate) fn str_opt_eq(a: &Option<String>, b: &Option<String>) -> (r: bool)
    ensures
        r == (opt_view(*a) == opt_view(*b)),
{
    match (a, b) {
        (Some(x), Some(y)) => *x == *y,
        (None, None) => true,
        _ => false,
    }
}

pub(crate) fn listeners_same(a: &Vec<ListenerRef>, b: &Vec<ListenerRef>) -> (r: bool)
    ensures
        r == (listeners_view(a@) == listeners_view(b@)),
{
    if a.len() != b.len() {
        proof {
            assert(listeners_view(a@).len() != listeners_view(b@).len());
        }
        return false;
    }
    let mut i: usize = 0;
    while i < a.len()
        invariant
            a.len() == b.len(),
            0 <= i <= a.len(),
            forall|j: int| 0 <= j < i ==> a@[j]@ == b@[j]@,
        decreases a.len() - i,
    {
        if !(a[i].listener_name == b[i].listener_name && a[i].js_event == b[i].js_event) {
            proof {
                assert(listeners_view(a@)[i as int] != listeners_view(b@)[i as int]);
            }
            return false;
        }
        i += 1;
    }
    proof {
        assert(listeners_view(a@) =~= listeners_view(b@));
    }
    true
}

pub(crate) fn lookup_value<'a>(attrs: &'a Vec<(String, String)>, key: &String) -> (r: Option<&'a String>)
    ensures
        match r {
            Some(v) => attr_lookup(attrs_view(attrs@), key@) == Some(v@),
            None => attr_lookup(attrs_view(attrs@), key@).is_none(),
        },
{
    let ghost v = attrs_view(attrs@);
    proof {
        assert(v.subrange(0, v.len() as int) =~= v);
    }
    let mut i: usize = 0;
    while i < attrs.len()
        invariant
            0 <= i <= attrs.len(),
            v == attrs_view(attrs@),
            attr_lookup(v, key@) == attr_lookup(v.subrange(i as int, v.len() as int), key@),
        decreases attrs.len() - i,
    {
        proof {
            assert(v.subrange(i as int, v.len() as int).drop_first() =~= v.subrange(
                i + 1,
                v.len() as int,
            ));
        }
        if attrs[i].0 == *key {
            return Some(&attrs[i].1);
        }
        i += 1;
    }
    None
}

fn attributes_within(a: &Vec<(String, String)>, b: &Vec<(String, String)>) -> (r: bool)
    ensures
        r == attrs_within(attrs_view(a@), attrs_view(b@)),
{
    let ghost av = attrs_view(a@);
    let ghost bv = attrs_view(b@);
    let mut i: usize = 0;
    while i < a.len()
        invariant
            0 <= i <= a.len(),
            av == attrs_view(a@),
            bv == attrs_view(b@),
            forall|j: int| 0 <= j < i ==> attr_lookup(bv, (#[trigger] av[j]).0) == Some(av[j].1),
        decreases a.len() - i,
    {
        let same = match lookup_value(b, &a[i].0) {
            Some(v) => *v == a[i].1,
            None => false,
        };
        if !same {
            proof {
                assert(av[i as int] == (a@[i as int].0@, a@[i as int].1@));
                assert(attr_lookup(bv, av[i as int].0) != Some(av[i as int].1));
            }
            return false;
        }
        i += 1;
    }
    true
}

fn attributes_same(a: &Vec<(String, String)>, b: &Vec<(String, String)>) -> (r: bool)
    ensures
        r == attrs_same(attrs_view(a@), attrs_view(b@)),
{
    attributes_within(a, b) && attributes_within(b, a)
}

fn tree_eq(a: &Element, b: &Element) -> (r: bool)
    ensures
        r == same_tree(a@, b@),
    decreases a,
{
    if !(a.id == b.id && a.name == b.name && attributes_same(&a.attributes, &b.attributes)
        && listeners_same(&a.listeners, &b.listeners) && str_opt_eq(&a.text, &b.text)
        && str_opt_eq(&a.key, &b.key) && a.children.len() == b.children.len()) {
        return false;
    }
    let n = a.children.len();
    let mut i: usize = 0;
    while i < n
        invariant
            0 <= i <= n,
            n == a.children@.len(),
            n == b.children@.len(),
            forall|j: int| 0 <= j < i ==> same_tree(#[trigger] a@.children[j], b@.children[j]),
        decreases n - i,
    {
        if !tree_eq(&a.children[i], &b.children[i]) {
            proof {
                assert(a@.children[i as int] == a.children@[i as int]@);
                assert(b@.children[i as int] == b.children@[i as int]@);
                assert(!same_tree(a@.children[i as int], b@.children[i as int]));
            }
            return false;
        }
        i += 1;
    }
    true
}

impl PartialEq for Element {
    fn eq(&self, other: &Element) -> (r: bool) {
        tree_eq(self, other)
    }
}

impl vstd::std_specs::cmp::PartialEqSpecImpl for Element {
    open spec fn obeys_eq_spec() -> bool {
        true
    }

    open spec fn eq_spec(&self, other: &Element) -> bool {
        same_tree(self@, other@)
    }
}

} // verus!

verus! {

fn clone_tree(e: &Element) -> (r: Element)
    ensures
        r@ == e@,
    decreases e,
{
    let mut attributes: Vec<(String, String)> = Vec::new();
    let mut i: usize = 0;
    while i < e.attributes.len()
        invariant
            0 <= i <= e.attributes@.len(),
            attrs_view(attributes@) =~= attrs_view(e.attributes@).take(i as int),
        decreases e.attributes@.len() - i,
    {
        let ghost prev = attributes@;
        attributes.push((e.attributes[i].0.clone(), e.attributes[i].1.clone()));
        proof {
            assert(attributes@ == prev.push(attributes@.last()));
            assert(attrs_view(attributes@) =~= attrs_view(prev).push(attrs_view(e.attributes@)[i as int]));
            assert(attrs_view(e.attributes@).take(i + 1) =~= attrs_view(e.attributes@).take(i as int).push(attrs_view(e.attributes@)[i as int]));
        }
        i += 1;
    }
    let mut listeners: Vec<ListenerRef> = Vec::new();
    let mut i: usize = 0;
    while i < e.listeners.len()
        invariant
            0 <= i <= e.listeners@.len(),
            listeners_view(listeners@) =~= listeners_view(e.listeners@).take(i as int),
        decreases e.listeners@.len() - i,
    {
        let ghost prev = listeners@;
        listeners.push(
            ListenerRef::new(e.listeners[i].listener_name.clone(), e.listeners[i].js_event.clone()),
        );
        proof {
            assert(listeners@ == prev.push(listeners@.last()));
            assert(listeners_view(listeners@) =~= listeners_view(prev).push(listeners_view(e.listeners@)[i as int]));
            assert(listeners_view(e.listeners@).take(i + 1) =~= listeners_view(e.listeners@).take(i as int).push(listeners_view(e.listeners@)[i as int]));
        }
        i += 1;
    }
    let mut children: Vec<Element> = Vec::new();
    let mut i: usize = 0;
    while i < e.children.len()
        invariant
            0 <= i <= e.children@.len(),
            children@.len() == i,
            forall|j: int| 0 <= j < i ==> (#[trigger] children@[j])@ == e.children@[j]@,
        decreases e.children@.len() - i,
    {
        children.push(clone_tree(&e.children[i]));
        i += 1;
    }
    let text = match &e.text {
        Some(t) => Some(t.clone()),
        None => None,
    };
    let key = match &e.key {
        Some(k) => Some(k.clone()),
        None => None,
    };
    let r = Element {
        id: e.id,
        name: e.name.clone(),
        attributes,
        listeners,
        children,
        text,
        key,
    };
    proof {
        assert(attrs_view(r.attributes@) =~= attrs_view(e.attributes@));
        assert(listeners_view(r.listeners@) =~= listeners_view(e.listeners@));
        assert(r@.children =~= e@.children);
    }
    r
}

impl Clone for Element {
    /// A deep copy of the tree.
    fn clone(&self) -> (r: Element)
        ensures
            r@ == self@,
    {
        clone_tree(self)
    }
}

impl Default for Element {
    /// A node with identity 0, an empty tag name and nothing else.
    fn default() -> (r: Element)
        ensures
            r@ == leaf(0, Seq::empty()),
    {
        Element::new(0, String::new())
    }
}

} // verus!

verus! {

/// Hands out element identities in order, starting from 0.
#[derive(Debug)]
pub struct IdGen {
    head: usize,
}

impl IdGen {
    /// The identity that `new_id` hands out next.
    pub closed spec fn next(&self) -> nat {
        self.head as nat
    }

    /// A generator that starts at 0.
    pub fn new() -> (r: IdGen)
        ensures
            r.next() == 0,
    {
        IdGen { head: 0 }
    }

    /// The next identity; each call gives one more than the last.
    pub fn new_id(&mut self) -> (r: usize)
        requires
            old(self).next() < usize::MAX,
        ensures
            r as nat == old(self).next(),
            final(self).next() == old(self).next() + 1,
    {
        let ret = self.head;
        self.head = self.head + 1;
        ret
    }
}

} // verus!

verus! {

fn attrs_distinct(a: &Vec<(String, String)>) -> (r: bool)
    ensures
        r == attrs_unique(attrs_view(a@)),
{
    let ghost v = attrs_view(a@);
    let mut i: usize = 0;
    while i < a.len()
        invariant
            0 <= i <= a@.len(),
            v == attrs_view(a@),
            forall|p: int, q: int| 0 <= p < q < v.len() && p < i ==> v[p].0 != v[q].0,
        decreases a@.len() - i,
    {
        let mut j: usize = i + 1;
        while j < a.len()
            invariant
                i < a@.len(),
                i + 1 <= j <= a@.len(),
                v == attrs_view(a@),
                forall|p: int, q: int| 0 <= p < q < v.len() && p < i ==> v[p].0 != v[q].0,
                forall|q: int| i < q < j ==> v[i as int].0 != v[q].0,
            decreases a@.len() - j,
        {
            if a[i].0 == a[j].0 {
                proof {
                    assert(v[i as int].0 == v[j as int].0);
                }
                return false;
            }
            j += 1;
        }
        i += 1;
    }
    true
}

fn children_keys_ok(c: &Vec<Element>) -> (r: bool)
    ensures
        r == ((all_keyed(c@) || forall|i: int| 0 <= i < c@.len() ==> (#[trigger] c@[i]).key.is_none())
            && keys_distinct(c@)),
{
    let mut keyed: usize = 0;
    let mut i: usize = 0;
    while i < c.len()
        invariant
            0 <= i <= c@.len(),
            keyed <= i,
            keyed == i ==> forall|j: int| 0 <= j < i ==> (#[trigger] c@[j]).key.is_some(),
            keyed == 0 ==> forall|j: int| 0 <= j < i ==> (#[trigger] c@[j]).key.is_none(),
            0 < keyed < i ==> exists|j: int| 0 <= j < i && (#[trigger] c@[j]).key.is_some(),
            0 < keyed < i ==> exists|j: int| 0 <= j < i && (#[trigger] c@[j]).key.is_none(),
            keyed > 0 ==> exists|j: int| 0 <= j < i && (#[trigger] c@[j]).key.is_some(),
            keyed < i ==> exists|j: int| 0 <= j < i && (#[trigger] c@[j]).key.is_none(),
        decreases c@.len() - i,
    {
        if c[i].key.is_some() {
            keyed += 1;
        }
        i += 1;
    }
    if !(keyed == 0 || keyed == c.len()) {
        return false;
    }
    let mut p: usize = 0;
    while p < c.len()
        invariant
            0 <= p <= c@.len(),
            forall|x: int, y: int|
                0 <= x < c@.len() && 0 <= y < c@.len() && x != y && x < p && (#[trigger] c@[x]).key.is_some()
                    ==> key_of(c@[x]) != key_of(#[trigger] c@[y]),
        decreases c@.len() - p,
    {
        let mut q: usize = 0;
        while q < c.len()
            invariant
                p < c@.len(),
                0 <= q <= c@.len(),
                forall|x: int, y: int|
                    0 <= x < c@.len() && 0 <= y < c@.len() && x != y && x < p && (#[trigger] c@[x]).key.is_some()
                        ==> key_of(c@[x]) != key_of(#[trigger] c@[y]),
                forall|y: int| 0 <= y < q && y != p && c@[p as int].key.is_some() ==> key_of(c@[p as int]) != key_of(#[trigger] c@[y]),
            decreases c@.len() - q,
        {
            if q != p {
                if let Some(kp) = &c[p].key {
                    let same = match &c[q].key {
                        Some(kq) => *kp == *kq,
                        None => false,
                    };
                    if same {
                        proof {
                            assert(!keys_distinct(c@)) by {
                                assert(c@[p as int].key.is_some() && key_of(c@[p as int]) == key_of(c@[q as int]));
                            }
                        }
                        return false;
                    }
                }
            }
            q += 1;
        }
        p += 1;
    }
    true
}

impl Element {
    /// Whether the tree is well-formed (see `wf`).
    pub fn is_wf(&self) -> (r: bool)
        ensures
            r == self.wf(),
        decreases self,
    {
        if !attrs_distinct(&self.attributes) || !children_keys_ok(&self.children) {
            return false;
        }
        let mut i: usize = 0;
        while i < self.children.len()
            invariant
                0 <= i <= self.children@.len(),
                attrs_unique(self.attrs()),
                all_keyed(self.children@) || forall|j: int|
                    0 <= j < self.children@.len() ==> (#[trigger] self.children@[j]).key.is_none(),
                keys_distinct(self.children@),
                forall|j: int| 0 <= j < i ==> (#[trigger] self.children@[j]).wf(),
            decreases self.children@.len() - i,
        {
            if !self.children[i].is_wf() {
                return false;
            }
            i += 1;
        }
        true
    }
}

} // verus!
