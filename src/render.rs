//! Rendering a tree as HTML, for the first response before the WebSocket takes over.
//! Listeners are not rendered: they are attached by edits sent over the WebSocket.

use vstd::prelude::*;
use crate::element::{AttrV, Element, Node};
use crate::text::push_str;

verus! {

/// `"key"="value" ` for each attribute, in order.
pub open spec fn attrs_html(a: Seq<AttrV>) -> Seq<char>
    decreases a.len(),
{
    if a.len() == 0 {
        Seq::empty()
    } else {
        attrs_html(a.drop_last()) + "\""@ + a.last().0 + "\"=\""@ + a.last().1 + "\" "@
    }
}

/// The HTML of a node: opening tag with its attributes, text, children, closing tag.
pub open spec fn render_spec(n: Node) -> Seq<char>
    decreases n, 1int,
{
    "<"@ + n.name + " "@ + attrs_html(n.attrs) + " "@ + ">"@ + match n.text {
        Some(t) => t,
        None => Seq::empty(),
    } + render_children(n.children, n.children.len() as int) + "</"@ + n.name + ">"@
}

/// The HTML of the first `k` nodes.
pub open spec fn render_children(c: Seq<Node>, k: int) -> Seq<char>
    decreases c, k,
{
    if 0 < k <= c.len() {
        render_children(c, k - 1) + render_spec(c[k - 1])
    } else {
        Seq::empty()
    }
}

impl Element {
    /// The attributes as HTML.
    fn write_attributes(&self, out: &mut String)
        ensures
            final(out)@ == old(out)@ + attrs_html(self@.attrs),
    {
        let ghost a = self@.attrs;
        let mut i: usize = 0;
        while i < self.attributes.len()
            invariant
                0 <= i <= self.attributes@.len(),
                a == self@.attrs,
                a.len() == self.attributes@.len(),
                out@ == old(out)@ + attrs_html(a.take(i as int)),
            decreases self.attributes@.len() - i,
        {
            proof {
                assert(a.take(i + 1).drop_last() =~= a.take(i as int));
                assert(a[i as int] == (self.attributes@[i as int].0@, self.attributes@[i as int].1@));
            }
            push_str(out, "\"");
            push_str(out, self.attributes[i].0.as_str());
            push_str(out, "\"=\"");
            push_str(out, self.attributes[i].1.as_str());
            push_str(out, "\" ");
            proof {
                assert(out@ =~= old(out)@ + attrs_html(a.take(i + 1)));
            }
            i += 1;
        }
        proof {
            assert(a.take(i as int) =~= a);
        }
    }

    /// The opening tag, with the attributes.
    fn write_opening_tag(&self, out: &mut String)
        ensures
            final(out)@ == old(out)@ + "<"@ + self@.name + " "@ + attrs_html(self@.attrs) + " "@ + ">"@,
    {
        push_str(out, "<");
        push_str(out, self.name.as_str());
        push_str(out, " ");
        self.write_attributes(out);
        push_str(out, " ");
        push_str(out, ">");
        proof {
            assert(final(out)@ =~= old(out)@ + "<"@ + self@.name + " "@ + attrs_html(self@.attrs) + " "@ + ">"@);
        }
    }

    /// The closing tag.
    fn write_closing_tag(&self, out: &mut String)
        ensures
            final(out)@ == old(out)@ + "</"@ + self@.name + ">"@,
    {
        push_str(out, "</");
        push_str(out, self.name.as_str());
        push_str(out, ">");
        proof {
            assert(final(out)@ =~= old(out)@ + "</"@ + self@.name + ">"@);
        }
    }

    fn render_into(&self, out: &mut String)
        ensures
            final(out)@ == old(out)@ + render_spec(self@),
        decreases self,
    {
        self.write_opening_tag(out);
        if let Some(text) = &self.text {
            push_str(out, text.as_str());
        }
        let ghost mid = out@;
        let ghost c = self@.children;
        let mut i: usize = 0;
        while i < self.children.len()
            invariant
                0 <= i <= self.children@.len(),
                c == self@.children,
                c.len() == self.children@.len(),
                out@ == mid + render_children(c, i as int),
            decreases self.children@.len() - i,
        {
            proof {
                assert(c[i as int] == self.children@[i as int]@);
            }
            self.children[i].render_into(out);
            proof {
                assert(out@ =~= mid + render_children(c, i + 1));
            }
            i += 1;
        }
        self.write_closing_tag(out);
        proof {
            assert(final(out)@ =~= old(out)@ + render_spec(self@));
        }
    }

    /// The tree as HTML.
    pub fn render(&self) -> (r: String)
        ensures
            r@ == render_spec(self@),
    {
        let mut out = String::new();
        self.render_into(&mut out);
        proof {
            assert(out@ =~= render_spec(self@));
        }
        out
    }
}

} // verus!
