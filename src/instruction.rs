use vstd::prelude::*;

verus! {

/// One requested operation on a task list.
#[derive(Debug, Clone, PartialEq)]
pub enum TodoInstruction {
    CreateTask { title: String, description: String },
    UpdateTask { id: u64, title: Option<String>, description: Option<String> },
    DeleteTask { id: u64 },
    ToggleTask { id: u64 },
}

/// What an instruction holds, with its strings as character sequences.
pub enum InstructionView {
    CreateTask { title: Seq<char>, description: Seq<char> },
    UpdateTask { id: u64, title: Option<Seq<char>>, description: Option<Seq<char>> },
    DeleteTask { id: u64 },
    ToggleTask { id: u64 },
}

pub open spec fn opt_str_view(o: Option<String>) -> Option<Seq<char>> {
    match o {
        Some(s) => Some(s@),
        None => None,
    }
}

impl View for TodoInstruction {
    type V = InstructionView;

    open spec fn view(&self) -> InstructionView {
        match self {
            TodoInstruction::CreateTask { title, description } => InstructionView::CreateTask {
                title: title@,
                description: description@,
            },
            TodoInstruction::UpdateTask { id, title, description } => InstructionView::UpdateTask {
                id: *id,
                title: opt_str_view(*title),
                description: opt_str_view(*description),
            },
            TodoInstruction::DeleteTask { id } => InstructionView::DeleteTask { id: *id },
            TodoInstruction::ToggleTask { id } => InstructionView::ToggleTask { id: *id },
        }
    }
}

/// The id of the task an instruction names; a creation names none.
pub open spec fn instruction_id(i: InstructionView) -> Option<u64> {
    match i {
        InstructionView::CreateTask { .. } => None,
        InstructionView::UpdateTask { id, .. } => Some(id),
        InstructionView::DeleteTask { id } => Some(id),
        InstructionView::ToggleTask { id } => Some(id),
    }
}

impl TodoInstruction {
    /// The id of the task this instruction names; `None` for a creation.
    pub fn get_id(&self) -> (r: Option<u64>)
        ensures
            r == instruction_id(self@),
    {
        match self {
            TodoInstruction::CreateTask { .. } => None,
            TodoInstruction::UpdateTask { id, .. } => Some(*id),
            TodoInstruction::DeleteTask { id } => Some(*id),
            TodoInstruction::ToggleTask { id } => Some(*id),
        }
    }
}

} // verus!
