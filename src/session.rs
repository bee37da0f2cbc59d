//! A liveview session: the tree the client shows and the listeners it may fire. Each client
//! event is resolved through the listener table; after the application updates, the new
//! render is diffed against the shown tree, which it then replaces.

use vstd::prelude::*;
use crate::changeset::Changeset;
use crate::client::ClientMessage;
use crate::diff_spec::{create_ops, diff_result};
use crate::element::Element;

verus! {

/// The DOM event that a listener answers.
#[derive(Debug, Clone, Copy, PartialEq, Eq, Structural)]
pub enum ListenerKind {
    Click,
    Submit,
    Input,
}

impl ListenerKind {
    /// The DOM event's name.
    pub fn js_event(self) -> (r: &'static str)
        ensures
            r@ == match self {
                ListenerKind::Click => "click"@,
                ListenerKind::Submit => "submit"@,
                ListenerKind::Input => "input"@,
            },
    {
        match self {
            ListenerKind::Click => "click",
            ListenerKind::Submit => "submit",
            ListenerKind::Input => "input",
        }
    }
}

/// The tree that the client shows, and the listeners of its last render by name.
#[derive(Debug)]
pub struct Session {
    old: Element,
    listeners: Vec<(String, ListenerKind)>,
}

pub open spec fn table_view(l: Seq<(String, ListenerKind)>) -> Seq<(Seq<char>, ListenerKind)> {
    l.map_values(|p: (String, ListenerKind)| (p.0@, p.1))
}

/// The first index at or after `i` of a listener named `name`.
pub open spec fn find_listener(t: Seq<(Seq<char>, ListenerKind)>, name: Seq<char>, i: int) -> Option<
    int,
>
    decreases t.len() - i,
{
    if 0 <= i < t.len() {
        if t[i].0 == name {
            Some(i)
        } else {
            find_listener(t, name, i + 1)
        }
    } else {
        None
    }
}

/// What a client event resolves to: the listener's index and, for an input listener, the
/// value; `None` for an unknown listener, or an input event without a value.
pub open spec fn resolve(t: Seq<(Seq<char>, ListenerKind)>, m: ClientMessage) -> Option<
    (int, Option<Seq<char>>),
> {
    match find_listener(t, m.listener@, 0) {
        None => None,
        Some(i) => match t[i].1 {
            ListenerKind::Input => match m.payload {
                Some(p) => Some((i, Some(p.value@))),
                None => None,
            },
            _ => Some((i, None)),
        },
    }
}

impl Session {
    /// The tree that the client shows.
    pub closed spec fn tree(&self) -> Element {
        self.old
    }

    /// The listeners of the last render.
    pub closed spec fn table(&self) -> Seq<(Seq<char>, ListenerKind)> {
        table_view(self.listeners@)
    }

    /// A session for a first render, and the edits of its first paint.
    pub fn start(tree: Element, l: Vec<(String, ListenerKind)>) -> (r: (Session, Changeset))
        requires
            tree.wf(),
        ensures
            r.1@ == create_ops(tree, None),
            r.0.tree() == tree,
            r.0.table() == table_view(l@),
    {
        let cs = tree.diff(None);
        (Session { old: tree, listeners: l }, cs)
    }

    /// Resolves a client event through the listener table: the listener's index and, for an
    /// input listener, the event's value. An unknown listener, or an input event without a
    /// value, resolves to nothing.
    pub fn on_event(&self, m: &ClientMessage) -> (r: Option<(usize, Option<String>)>)
        ensures
            match resolve(self.table(), *m) {
                None => r is None,
                Some((i, v)) => r matches Some((k, w)) && k as int == i && match w {
                    Some(s) => v == Some(s@),
                    None => v is None,
                },
            },
    {
        let ghost t = table_view(self.listeners@);
        let mut i: usize = 0;
        while i < self.listeners.len()
            invariant
                0 <= i <= self.listeners@.len(),
                t == table_view(self.listeners@),
                find_listener(t, m.listener@, 0) == find_listener(t, m.listener@, i as int),
            decreases self.listeners@.len() - i,
        {
            if self.listeners[i].0 == m.listener {
                return match self.listeners[i].1 {
                    ListenerKind::Input => match &m.payload {
                        Some(p) => Some((i, Some(p.value.clone()))),
                        None => None,
                    },
                    _ => Some((i, None)),
                };
            }
            i += 1;
        }
        None
    }

    /// Takes the application's new render: the edits from the shown tree to it, after which
    /// it is the shown tree and its listeners the table.
    pub fn rerender(&mut self, new: Element, l: Vec<(String, ListenerKind)>) -> (r: Changeset)
        requires
            old(self).tree().wf(),
            new.wf(),
        ensures
            r@ == diff_result(old(self).tree(), new),
            final(self).tree() == new,
            final(self).table() == table_view(l@),
    {
        let cs = self.old.diff(Some(&new));
        self.old = new;
        self.listeners = l;
        cs
    }
}

} // verus!
