//! The instruction set that the diff engine emits and the client replays in order.

use vstd::prelude::*;

verus! {

/// An instruction to update the DOM. Identities are the nodes' `id`s.
#[derive(Debug, Clone)]
pub enum Instruction {
    InsertChild { new_child_id: usize },
    InsertAfter { after_id: usize },
    InsertBefore { before_id: usize },
    DeleteEl,
    SetAttribute { key: String, value: String },
    RemoveAttribute { key: String },
    SetId { value: usize },
    SetText { value: String },
    SetTagName { name: String },
    CreateTag { name: String, parent_id: Option<usize> },
    RemoveText,
    RemoveListeners,
    AttachListener { name: String, on: String },
    SetInnerHtml { element: String, html: String },
}

/// An `Instruction` with its strings seen as character sequences.
pub enum InstructionV {
    InsertChild { new_child_id: usize },
    InsertAfter { after_id: usize },
    InsertBefore { before_id: usize },
    DeleteEl,
    SetAttribute { key: Seq<char>, value: Seq<char> },
    RemoveAttribute { key: Seq<char> },
    SetId { value: usize },
    SetText { value: Seq<char> },
    SetTagName { name: Seq<char> },
    CreateTag { name: Seq<char>, parent_id: Option<usize> },
    RemoveText,
    RemoveListeners,
    AttachListener { name: Seq<char>, on: Seq<char> },
    SetInnerHtml { element: Seq<char>, html: Seq<char> },
}

impl Instruction {
    pub open spec fn view(&self) -> InstructionV {
        match self {
            Instruction::InsertChild { new_child_id } => InstructionV::InsertChild {
                new_child_id: *new_child_id,
            },
            Instruction::InsertAfter { after_id } => InstructionV::InsertAfter {
                after_id: *after_id,
            },
            Instruction::InsertBefore { before_id } => InstructionV::InsertBefore {
                before_id: *before_id,
            },
            Instruction::DeleteEl => InstructionV::DeleteEl,
            Instruction::SetAttribute { key, value } => InstructionV::SetAttribute {
                key: key@,
                value: value@,
            },
            Instruction::RemoveAttribute { key } => InstructionV::RemoveAttribute { key: key@ },
            Instruction::SetId { value } => InstructionV::SetId { value: *value },
            Instruction::SetText { value } => InstructionV::SetText { value: value@ },
            Instruction::SetTagName { name } => InstructionV::SetTagName { name: name@ },
            Instruction::CreateTag { name, parent_id } => InstructionV::CreateTag {
                name: name@,
                parent_id: *parent_id,
            },
            Instruction::RemoveText => InstructionV::RemoveText,
            Instruction::RemoveListeners => InstructionV::RemoveListeners,
            Instruction::AttachListener { name, on } => InstructionV::AttachListener {
                name: name@,
                on: on@,
            },
            Instruction::SetInnerHtml { element, html } => InstructionV::SetInnerHtml {
                element: element@,
                html: html@,
            },
        }
    }
}

/// One edit: the node it addresses and what to do to it.
#[derive(Debug, Clone)]
pub struct Op {
    pub id: usize,
    pub instruction: Instruction,
}

pub struct OpV {
    pub id: usize,
    pub instruction: InstructionV,
}

impl Op {
    pub open spec fn view(&self) -> OpV {
        OpV { id: self.id, instruction: self.instruction@ }
    }
}

pub open spec fn ops_view(s: Seq<Op>) -> Seq<OpV> {
    s.map_values(|o: Op| o@)
}

/// An ordered list of edits; the client applies them strictly in this order.
#[derive(Debug, Clone)]
pub struct Changeset {
    pub ops: Vec<Op>,
}

impl Changeset {
    pub open spec fn view(&self) -> Seq<OpV> {
        ops_view(self.ops@)
    }

    /// A changeset with no edits.
    pub fn empty() -> (r: Changeset)
        ensures
            r@ == Seq::<OpV>::empty(),
    {
        Changeset { ops: Vec::new() }
    }

    /// A changeset of one edit.
    pub fn from_op(op: Op) -> (r: Changeset)
        ensures
            r@ == seq![op@],
    {
        let mut ops = Vec::new();
        ops.push(op);
        proof {
            assert(ops_view(ops@) =~= seq![op@]);
        }
        Changeset { ops }
    }

    /// Appends one edit.
    pub fn push(&mut self, op: Op)
        ensures
            final(self)@ == old(self)@.push(op@),
    {
        self.ops.push(op);
        proof {
            assert(ops_view(self.ops@) =~= ops_view(old(self).ops@).push(op@));
        }
    }

    /// Appends the edits of `other` after those of `self`.
    pub fn extend(&mut self, other: Changeset)
        ensures
            final(self)@ == old(self)@ + other@,
    {
        let mut o = other.ops;
        self.ops.append(&mut o);
        proof {
            assert(ops_view(self.ops@) =~= ops_view(old(self).ops@) + ops_view(other.ops@));
        }
    }
}

} // verus!
