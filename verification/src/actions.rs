//! What is done with a selected entry.

use vstd::prelude::*;

verus! {

/// Open an entry with its default handler, or run it.
#[derive(Debug, Clone, Copy, PartialEq, Eq, Structural)]
pub enum Action {
    Open,
    Execute,
}

/// The permission bits that let someone execute a file.
pub const EXECUTE_BITS: u32 = 0o111;

/// A directory is opened. A file is run where one of its execute bits is
/// set; a file whose mode is not known is opened.
pub open spec fn chosen_action(is_dir: bool, mode: Option<u32>) -> Action {
    if is_dir {
        Action::Open
    } else {
        match mode {
            Some(m) => if m & EXECUTE_BITS != 0 {
                Action::Execute
            } else {
                Action::Open
            },
            None => Action::Open,
        }
    }
}

/// Chooses what selecting an entry does, from its kind and its permission bits.
pub fn choose_action(is_dir: bool, mode: Option<u32>) -> (action: Action)
    ensures
        action == chosen_action(is_dir, mode),
{
    if is_dir {
        return Action::Open;
    }
    match mode {
        Some(m) => if m & EXECUTE_BITS != 0 {
            Action::Execute
        } else {
            Action::Open
        },
        None => Action::Open,
    }
}

impl Action {
    pub open spec fn label_text(self) -> Seq<char> {
        match self {
            Action::Open => "Open"@,
            Action::Execute => "Execute"@,
        }
    }

    /// The name of the action.
    pub fn label(&self) -> (text: String)
        ensures
            text@ == self.label_text(),
    {
        match self {
            Action::Open => String::from_str("Open"),
            Action::Execute => String::from_str("Execute"),
        }
    }
}

} // verus!
