//! The encoding of edits that the browser runtime reads: each edit becomes the identity of the
//! node it addresses, a tag naming the edit, and a payload.

use vstd::prelude::*;
use crate::changeset::{Changeset, Instruction, InstructionV, Op, OpV};
use crate::text::{push_char, push_str};

verus! {

/// One edit as the client reads it.
#[derive(Debug, Clone)]
pub struct WireOp {
    /// The identity of the node, in decimal.
    pub el: String,
    /// The edit's tag.
    pub ty: String,
    /// The edit's argument, where it has one.
    pub payload: Option<String>,
}

pub struct WireOpV {
    pub el: Seq<char>,
    pub ty: Seq<char>,
    pub payload: Option<Seq<char>>,
}

impl WireOp {
    pub open spec fn view(&self) -> WireOpV {
        WireOpV {
            el: self.el@,
            ty: self.ty@,
            payload: match self.payload {
                Some(p) => Some(p@),
                None => None,
            },
        }
    }
}

pub open spec fn digit_char(d: nat) -> char {
    if d == 0 {
        '0'
    } else if d == 1 {
        '1'
    } else if d == 2 {
        '2'
    } else if d == 3 {
        '3'
    } else if d == 4 {
        '4'
    } else if d == 5 {
        '5'
    } else if d == 6 {
        '6'
    } else if d == 7 {
        '7'
    } else if d == 8 {
        '8'
    } else {
        '9'
    }
}

/// The decimal digits of `n`, without leading zeros.
pub open spec fn decimal(n: nat) -> Seq<char>
    decreases n,
{
    if n < 10 {
        seq![digit_char(n)]
    } else {
        decimal(n / 10).push(digit_char(n % 10))
    }
}

/// `a+b`.
pub open spec fn joined(a: Seq<char>, b: Seq<char>) -> Seq<char> {
    a + seq!['+'] + b
}

/// The tag and payload of an edit.
pub open spec fn wire_spec(o: OpV) -> WireOpV {
    let (ty, payload): (Seq<char>, Option<Seq<char>>) = match o.instruction {
        InstructionV::InsertChild { new_child_id } => ("insertChild"@, Some(decimal(new_child_id as nat))),
        InstructionV::InsertAfter { after_id } => ("insertAfter"@, Some(decimal(after_id as nat))),
        InstructionV::InsertBefore { before_id } => ("insertBefore"@, Some(decimal(before_id as nat))),
        InstructionV::DeleteEl => ("deleteEl"@, None),
        InstructionV::SetAttribute { key, value } => ("setAttr"@, Some(joined(key, value))),
        InstructionV::RemoveAttribute { key } => ("removeAttr"@, Some(key)),
        InstructionV::SetId { value } => ("setId"@, Some(decimal(value as nat))),
        InstructionV::SetText { value } => ("setText"@, Some(value)),
        InstructionV::SetTagName { name } => ("setTagName"@, Some(name)),
        InstructionV::CreateTag { name, parent_id } => (
            "createTag"@,
            Some(
                joined(
                    name,
                    match parent_id {
                        Some(p) => decimal(p as nat),
                        None => Seq::empty(),
                    },
                ),
            ),
        ),
        InstructionV::RemoveText => ("removeText"@, None),
        InstructionV::RemoveListeners => ("removeListeners"@, None),
        InstructionV::AttachListener { name, on } => ("attachListener"@, Some(joined(name, on))),
        InstructionV::SetInnerHtml { element, html } => ("setInnerHtml"@, Some(joined(element, html))),
    };
    WireOpV { el: decimal(o.id as nat), ty, payload }
}

fn digit(d: usize) -> (c: char)
    requires
        d < 10,
    ensures
        c == digit_char(d as nat),
{
    match d {
        0 => '0',
        1 => '1',
        2 => '2',
        3 => '3',
        4 => '4',
        5 => '5',
        6 => '6',
        7 => '7',
        8 => '8',
        _ => '9',
    }
}

fn push_decimal(out: &mut String, n: usize)
    ensures
        final(out)@ == old(out)@ + decimal(n as nat),
    decreases n,
{
    if n >= 10 {
        push_decimal(out, n / 10);
    }
    push_char(out, digit(n % 10));
    proof {
        assert(final(out)@ =~= old(out)@ + decimal(n as nat));
    }
}

/// `n` in decimal.
pub fn decimal_string(n: usize) -> (r: String)
    ensures
        r@ == decimal(n as nat),
{
    let mut s = String::new();
    push_decimal(&mut s, n);
    proof {
        assert(s@ =~= decimal(n as nat));
    }
    s
}

fn join(a: &str, b: &str) -> (r: String)
    ensures
        r@ == joined(a@, b@),
{
    let mut s = a.to_owned();
    push_char(&mut s, '+');
    push_str(&mut s, b);
    s
}

impl Op {
    /// The edit as the client reads it.
    pub fn to_wire(&self) -> (r: WireOp)
        ensures
            r@ == wire_spec(self@),
    {
        let (ty, payload): (&str, Option<String>) = match &self.instruction {
            Instruction::InsertChild { new_child_id } => ("insertChild", Some(decimal_string(*new_child_id))),
            Instruction::InsertAfter { after_id } => ("insertAfter", Some(decimal_string(*after_id))),
            Instruction::InsertBefore { before_id } => ("insertBefore", Some(decimal_string(*before_id))),
            Instruction::DeleteEl => ("deleteEl", None),
            Instruction::SetAttribute { key, value } => ("setAttr", Some(join(key.as_str(), value.as_str()))),
            Instruction::RemoveAttribute { key } => ("removeAttr", Some(key.clone())),
            Instruction::SetId { value } => ("setId", Some(decimal_string(*value))),
            Instruction::SetText { value } => ("setText", Some(value.clone())),
            Instruction::SetTagName { name } => ("setTagName", Some(name.clone())),
            Instruction::CreateTag { name, parent_id } => {
                let parent = match parent_id {
                    Some(p) => decimal_string(*p),
                    None => String::new(),
                };
                ("createTag", Some(join(name.as_str(), parent.as_str())))
            },
            Instruction::RemoveText => ("removeText", None),
            Instruction::RemoveListeners => ("removeListeners", None),
            Instruction::AttachListener { name, on } => ("attachListener", Some(join(name.as_str(), on.as_str()))),
            Instruction::SetInnerHtml { element, html } => ("setInnerHtml", Some(join(element.as_str(), html.as_str()))),
        };
        WireOp { el: decimal_string(self.id), ty: ty.to_owned(), payload }
    }
}

impl Changeset {
    /// Each edit as the client reads it, in order.
    pub fn to_wire(&self) -> (r: Vec<WireOp>)
        ensures
            r@.len() == self@.len(),
            forall|i: int| 0 <= i < r@.len() ==> (#[trigger] r@[i])@ == wire_spec(self@[i]),
    {
        let mut out: Vec<WireOp> = Vec::new();
        let mut i: usize = 0;
        while i < self.ops.len()
            invariant
                0 <= i <= self.ops@.len(),
                out@.len() == i,
                forall|j: int| 0 <= j < i ==> (#[trigger] out@[j])@ == wire_spec(self@[j]),
            decreases self.ops@.len() - i,
        {
            out.push(self.ops[i].to_wire());
            i += 1;
        }
        out
    }
}

} // verus!
