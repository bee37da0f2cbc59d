//! The head of an HTTP response as text: the status line and the headers in name order.

use vstd::prelude::*;
use vstd::string::StrSliceExecFns;
use crate::element::{attrs_unique, attrs_view, AttrV};
use crate::http::Response;
use crate::text::push_str;
use crate::wire::{decimal, decimal_string};

verus! {

/// `a` comes before `b` in the order of their characters, a proper prefix first.
pub open spec fn name_lt(a: Seq<char>, b: Seq<char>) -> bool
    decreases a.len(),
{
    if a.len() == 0 {
        b.len() > 0
    } else if b.len() == 0 {
        false
    } else if a[0] != b[0] {
        a[0] < b[0]
    } else {
        name_lt(a.drop_first(), b.drop_first())
    }
}

/// `s` holds the pairs of `t` rearranged: the same length, and maps that find each pair of
/// one in the other.
pub open spec fn same_pairs(s: Seq<AttrV>, t: Seq<AttrV>) -> bool {
    s.len() == t.len() && exists|src: Seq<int>, pos: Seq<int>|
        #[trigger] indexed(s, t, t.len() as int, src, pos)
}

/// The names increase strictly.
pub open spec fn sorted_by_name(s: Seq<AttrV>) -> bool {
    forall|i: int, j: int| 0 <= i < j < s.len() ==> name_lt((#[trigger] s[i]).0, (#[trigger] s[j]).0)
}

/// `name: value\r\n` for each header, in order.
pub open spec fn header_lines(s: Seq<AttrV>) -> Seq<char>
    decreases s.len(),
{
    if s.len() == 0 {
        Seq::empty()
    } else {
        header_lines(s.drop_last()) + s.last().0 + ": "@ + s.last().1 + "\r\n"@
    }
}

proof fn lemma_lt_total(a: Seq<char>, b: Seq<char>)
    requires
        a != b,
    ensures
        name_lt(a, b) || name_lt(b, a),
    decreases a.len(),
{
    if a.len() > 0 && b.len() > 0 && a[0] == b[0] {
        assert(a.drop_first() != b.drop_first()) by {
            if a.drop_first() == b.drop_first() {
                assert(a =~= seq![a[0]] + a.drop_first());
                assert(b =~= seq![b[0]] + b.drop_first());
            }
        }
        lemma_lt_total(a.drop_first(), b.drop_first());
    } else if a.len() == 0 && b.len() == 0 {
        assert(a =~= b);
    }
}

proof fn lemma_lt_trans(a: Seq<char>, b: Seq<char>, c: Seq<char>)
    requires
        name_lt(a, b),
        name_lt(b, c),
    ensures
        name_lt(a, c),
    decreases a.len(),
{
    if a.len() > 0 && b.len() > 0 && c.len() > 0 && a[0] == b[0] && b[0] == c[0] {
        lemma_lt_trans(a.drop_first(), b.drop_first(), c.drop_first());
    }
}

fn str_lt(a: &str, b: &str) -> (r: bool)
    ensures
        r == name_lt(a@, b@),
{
    let la = a.unicode_len();
    let lb = b.unicode_len();
    proof {
        assert(a@.subrange(0, la as int) =~= a@);
        assert(b@.subrange(0, lb as int) =~= b@);
    }
    let mut i: usize = 0;
    while i < la && i < lb
        invariant
            0 <= i <= la,
            i <= lb,
            la == a@.len(),
            lb == b@.len(),
            name_lt(a@, b@) == name_lt(a@.subrange(i as int, la as int), b@.subrange(i as int, lb as int)),
        decreases la - i,
    {
        let x = a.get_char(i);
        let y = b.get_char(i);
        proof {
            let sa = a@.subrange(i as int, la as int);
            let sb = b@.subrange(i as int, lb as int);
            assert(sa.drop_first() =~= a@.subrange(i + 1, la as int));
            assert(sb.drop_first() =~= b@.subrange(i + 1, lb as int));
            assert(sa[0] == x && sb[0] == y);
        }
        if x != y {
            return x < y;
        }
        i += 1;
    }
    proof {
        let sa = a@.subrange(i as int, la as int);
        let sb = b@.subrange(i as int, lb as int);
        assert(sa.len() == la - i && sb.len() == lb - i);
    }
    i == la && i < lb
}

proof fn lemma_insert_sorted(ov: Seq<AttrV>, p: int, x: AttrV)
    requires
        sorted_by_name(ov),
        0 <= p <= ov.len(),
        forall|q: int| 0 <= q < p ==> !name_lt(x.0, (#[trigger] ov[q]).0),
        p < ov.len() ==> name_lt(x.0, ov[p].0),
        forall|k: int| 0 <= k < ov.len() ==> (#[trigger] ov[k]).0 != x.0,
    ensures
        sorted_by_name(ov.insert(p, x)),
{
    let nv = ov.insert(p, x);
    assert forall|a: int, b: int| 0 <= a < b < nv.len() implies name_lt((#[trigger] nv[a]).0, (#[trigger] nv[b]).0) by {
        if b < p {
            assert(nv[a] == ov[a] && nv[b] == ov[b]);
        } else if b == p {
            assert(nv[a] == ov[a]);
            lemma_lt_total(ov[a].0, x.0);
        } else if a < p {
            assert(nv[a] == ov[a] && nv[b] == ov[b - 1]);
            lemma_lt_total(ov[a].0, x.0);
            if b - 1 > p {
                lemma_lt_trans(x.0, ov[p].0, ov[b - 1].0);
            }
            lemma_lt_trans(ov[a].0, x.0, ov[b - 1].0);
        } else if a == p {
            assert(nv[b] == ov[b - 1]);
            if b - 1 > p {
                lemma_lt_trans(x.0, ov[p].0, ov[b - 1].0);
            }
        } else {
            assert(nv[a] == ov[a - 1] && nv[b] == ov[b - 1]);
        }
    }
}

/// `src` and `pos` index each pair of `ov` in `hv` (its first `i` entries) and back.
pub open spec fn indexed(ov: Seq<AttrV>, hv: Seq<AttrV>, i: int, src: Seq<int>, pos: Seq<int>) -> bool {
    &&& src.len() == ov.len()
    &&& pos.len() == i
    &&& forall|k: int| 0 <= k < ov.len() ==> 0 <= #[trigger] src[k] < i && hv[src[k]] == ov[k]
    &&& forall|m: int| 0 <= m < i ==> 0 <= #[trigger] pos[m] < ov.len() && ov[pos[m]] == hv[m]
}

proof fn lemma_insert_indexed(ov: Seq<AttrV>, p: int, hv: Seq<AttrV>, i: int, src: Seq<int>, pos: Seq<int>)
    requires
        0 <= p <= ov.len(),
        0 <= i < hv.len(),
        indexed(ov, hv, i, src, pos),
    ensures
        indexed(
            ov.insert(p, hv[i]),
            hv,
            i + 1,
            src.insert(p, i),
            Seq::new(i as nat, |m: int| if pos[m] >= p { pos[m] + 1 } else { pos[m] }).push(p),
        ),
{
    let nv = ov.insert(p, hv[i]);
    let ns = src.insert(p, i);
    let np = Seq::new(i as nat, |m: int| if pos[m] >= p { pos[m] + 1 } else { pos[m] }).push(p);
    assert forall|k: int| 0 <= k < nv.len() implies 0 <= #[trigger] ns[k] < i + 1 && hv[ns[k]] == nv[k] by {
        if k < p {
            assert(ns[k] == src[k] && nv[k] == ov[k]);
        } else if k > p {
            assert(ns[k] == src[k - 1] && nv[k] == ov[k - 1]);
        }
    }
    assert forall|m: int| 0 <= m < i + 1 implies 0 <= #[trigger] np[m] < nv.len() && nv[np[m]] == hv[m] by {
        if m < i {
            let k = pos[m];
            if k >= p {
                assert(nv[k + 1] == ov[k]);
            } else {
                assert(nv[k] == ov[k]);
            }
        }
    }
}

/// Where `name` goes in a list sorted by name: after every name it does not precede.
fn insert_position(out: &Vec<(String, String)>, name: &str) -> (p: usize)
    ensures
        p <= out@.len(),
        forall|q: int| 0 <= q < p ==> !name_lt(name@, (#[trigger] attrs_view(out@)[q]).0),
        p < out@.len() ==> name_lt(name@, attrs_view(out@)[p as int].0),
{
    let ghost ov = attrs_view(out@);
    let mut p: usize = 0;
    while p < out.len()
        invariant
            0 <= p <= out@.len(),
            ov == attrs_view(out@),
            forall|q: int| 0 <= q < p ==> !name_lt(name@, (#[trigger] ov[q]).0),
        decreases out@.len() - p,
    {
        if str_lt(name, out[p].0.as_str()) {
            return p;
        }
        p += 1;
    }
    p
}

/// The headers in name order.
fn sort_by_name(h: &Vec<(String, String)>) -> (r: Vec<(String, String)>)
    requires
        attrs_unique(attrs_view(h@)),
    ensures
        sorted_by_name(attrs_view(r@)),
        same_pairs(attrs_view(r@), attrs_view(h@)),
{
    let ghost hv = attrs_view(h@);
    let ghost mut src: Seq<int> = Seq::empty();
    let ghost mut pos: Seq<int> = Seq::empty();
    let mut out: Vec<(String, String)> = Vec::new();
    proof {
        assert(attrs_view(out@) =~= Seq::<AttrV>::empty());
    }
    let mut i: usize = 0;
    while i < h.len()
        invariant
            0 <= i <= h@.len(),
            hv == attrs_view(h@),
            attrs_unique(hv),
            sorted_by_name(attrs_view(out@)),
            out@.len() == i,
            indexed(attrs_view(out@), hv, i as int, src, pos),
        decreases h@.len() - i,
    {
        let name = h[i].0.as_str();
        let ghost ov = attrs_view(out@);
        let ghost x = hv[i as int];
        let p = insert_position(&out, name);
        proof {
            assert forall|k: int| 0 <= k < ov.len() implies (#[trigger] ov[k]).0 != x.0 by {
                assert(hv[src[k]].0 != hv[i as int].0);
            }
            lemma_insert_sorted(ov, p as int, x);
            lemma_insert_indexed(ov, p as int, hv, i as int, src, pos);
        }
        out.insert(p, (h[i].0.clone(), h[i].1.clone()));
        proof {
            assert(attrs_view(out@) =~= ov.insert(p as int, x));
            pos = Seq::new(i as nat, |m: int| if pos[m] >= p { pos[m] + 1 } else { pos[m] }).push(p as int);
            src = src.insert(p as int, i as int);
        }
        i += 1;
    }
    proof {
        let ov = attrs_view(out@);
        assert(ov.len() == out@.len() && hv.len() == h@.len() && i == h@.len());
        assert(indexed(ov, hv, hv.len() as int, src, pos));
        assert(ov.len() == hv.len());
        assert(same_pairs(ov, hv));
    }
    out
}

impl Response {
    /// The status line and the header lines, in name order, and the blank line that ends the
    /// head: what precedes the body on the wire.
    pub fn encode_head(&self) -> (r: String)
        requires
            attrs_unique(attrs_view(self.headers@)),
        ensures
            exists|s: Seq<AttrV>|
                sorted_by_name(s) && same_pairs(s, attrs_view(self.headers@))
                    && r@ == "HTTP/1.1 "@ + decimal(self.status as nat) + " "@ + self.reason@
                    + "\r\n"@ + header_lines(s) + "\r\n"@,
    {
        let mut out = String::new();
        push_str(&mut out, "HTTP/1.1 ");
        let status = decimal_string(self.status as usize);
        push_str(&mut out, status.as_str());
        push_str(&mut out, " ");
        push_str(&mut out, self.reason.as_str());
        push_str(&mut out, "\r\n");
        let ghost head = out@;
        let sorted = sort_by_name(&self.headers);
        let ghost sv = attrs_view(sorted@);
        let mut i: usize = 0;
        while i < sorted.len()
            invariant
                0 <= i <= sorted@.len(),
                sv == attrs_view(sorted@),
                out@ == head + header_lines(sv.take(i as int)),
            decreases sorted@.len() - i,
        {
            proof {
                assert(sv.take(i + 1).drop_last() =~= sv.take(i as int));
            }
            push_str(&mut out, sorted[i].0.as_str());
            push_str(&mut out, ": ");
            push_str(&mut out, sorted[i].1.as_str());
            push_str(&mut out, "\r\n");
            proof {
                assert(out@ =~= head + header_lines(sv.take(i + 1)));
            }
            i += 1;
        }
        push_str(&mut out, "\r\n");
        proof {
            assert(sv.take(i as int) =~= sv);
            assert(out@ =~= "HTTP/1.1 "@ + decimal(self.status as nat) + " "@ + self.reason@ + "\r\n"@
                + header_lines(sv) + "\r\n"@);
        }
        out
    }
}

} // verus!
