//! The Status line settings page's rows and its selection.
//!
//! Every row is one field of the status-line layout; each is persisted under
//! its own config key and named in full in status messages.

use vstd::prelude::*;

verus! {

/// One field of the status-line layout.
#[derive(Debug, Clone, Copy, PartialEq, Eq, Structural)]
pub enum StatusLineField {
    State,
    StateWhen,
    Harness,
    HarnessWhen,
    HarnessStyle,
    Control,
    ControlWhen,
    ControlStyle,
    Thread,
    ThreadWhen,
    Branch,
    BranchWhen,
    Path,
    PathWhen,
    PathStyle,
}

impl StatusLineField {
    /// The config key this field persists under, in the config's camelCase.
    pub open spec fn spec_key(self) -> Seq<char> {
        match self {
            StatusLineField::State => "state"@,
            StatusLineField::StateWhen => "stateWhen"@,
            StatusLineField::Harness => "harness"@,
            StatusLineField::HarnessWhen => "harnessWhen"@,
            StatusLineField::HarnessStyle => "harnessStyle"@,
            StatusLineField::Control => "control"@,
            StatusLineField::ControlWhen => "controlWhen"@,
            StatusLineField::ControlStyle => "controlStyle"@,
            StatusLineField::Thread => "thread"@,
            StatusLineField::ThreadWhen => "threadWhen"@,
            StatusLineField::Branch => "branch"@,
            StatusLineField::BranchWhen => "branchWhen"@,
            StatusLineField::Path => "path"@,
            StatusLineField::PathWhen => "pathWhen"@,
            StatusLineField::PathStyle => "pathStyle"@,
        }
    }

    /// The config key this field persists under.
    pub fn key(self) -> (r: &'static str)
        ensures
            r@ == self.spec_key(),
    {
        match self {
            StatusLineField::State => "state",
            StatusLineField::StateWhen => "stateWhen",
            StatusLineField::Harness => "harness",
            StatusLineField::HarnessWhen => "harnessWhen",
            StatusLineField::HarnessStyle => "harnessStyle",
            StatusLineField::Control => "control",
            StatusLineField::ControlWhen => "controlWhen",
            StatusLineField::ControlStyle => "controlStyle",
            StatusLineField::Thread => "thread",
            StatusLineField::ThreadWhen => "threadWhen",
            StatusLineField::Branch => "branch",
            StatusLineField::BranchWhen => "branchWhen",
            StatusLineField::Path => "path",
            StatusLineField::PathWhen => "pathWhen",
            StatusLineField::PathStyle => "pathStyle",
        }
    }

    /// This field's full name, for the status bar.
    pub open spec fn spec_name(self) -> Seq<char> {
        match self {
            StatusLineField::State => "state glyph"@,
            StatusLineField::StateWhen => "state glyph shown"@,
            StatusLineField::Harness => "harness name"@,
            StatusLineField::HarnessWhen => "harness name shown"@,
            StatusLineField::HarnessStyle => "harness name spelled"@,
            StatusLineField::Control => "managed / unmanaged"@,
            StatusLineField::ControlWhen => "managed / unmanaged shown"@,
            StatusLineField::ControlStyle => "managed / unmanaged spelled"@,
            StatusLineField::Thread => "thread name"@,
            StatusLineField::ThreadWhen => "thread name shown"@,
            StatusLineField::Branch => "git branch"@,
            StatusLineField::BranchWhen => "git branch shown"@,
            StatusLineField::Path => "working path"@,
            StatusLineField::PathWhen => "working path shown"@,
            StatusLineField::PathStyle => "working path spelled"@,
        }
    }

    /// This field's full name, for the status bar.
    ///
    /// Distinct from the row label, which is abbreviated because the page
    /// indents it under the field it belongs to.
    pub fn name(self) -> (r: &'static str)
        ensures
            r@ == self.spec_name(),
    {
        match self {
            StatusLineField::State => "state glyph",
            StatusLineField::StateWhen => "state glyph shown",
            StatusLineField::Harness => "harness name",
            StatusLineField::HarnessWhen => "harness name shown",
            StatusLineField::HarnessStyle => "harness name spelled",
            StatusLineField::Control => "managed / unmanaged",
            StatusLineField::ControlWhen => "managed / unmanaged shown",
            StatusLineField::ControlStyle => "managed / unmanaged spelled",
            StatusLineField::Thread => "thread name",
            StatusLineField::ThreadWhen => "thread name shown",
            StatusLineField::Branch => "git branch",
            StatusLineField::BranchWhen => "git branch shown",
            StatusLineField::Path => "working path",
            StatusLineField::PathWhen => "working path shown",
            StatusLineField::PathStyle => "working path spelled",
        }
    }
}

/// How many selectable rows the Status line page has.
pub const STATUS_LINE_ROW_COUNT: usize = 15;

/// The field the page's row `index` edits, in display order: for each of the
/// state glyph, harness name, control state, thread, branch and path, where it
/// sits, when it is shown and (for three of them) how it is spelled.
pub open spec fn spec_row_field(index: int) -> StatusLineField {
    if index == 0 {
        StatusLineField::State
    } else if index == 1 {
        StatusLineField::StateWhen
    } else if index == 2 {
        StatusLineField::Harness
    } else if index == 3 {
        StatusLineField::HarnessWhen
    } else if index == 4 {
        StatusLineField::HarnessStyle
    } else if index == 5 {
        StatusLineField::Control
    } else if index == 6 {
        StatusLineField::ControlWhen
    } else if index == 7 {
        StatusLineField::ControlStyle
    } else if index == 8 {
        StatusLineField::Thread
    } else if index == 9 {
        StatusLineField::ThreadWhen
    } else if index == 10 {
        StatusLineField::Branch
    } else if index == 11 {
        StatusLineField::BranchWhen
    } else if index == 12 {
        StatusLineField::Path
    } else if index == 13 {
        StatusLineField::PathWhen
    } else {
        StatusLineField::PathStyle
    }
}

/// The field the selected row edits; an index past the end selects the last.
pub fn row_field(index: usize) -> (r: StatusLineField)
    ensures
        r == spec_row_field(index as int),
{
    if index == 0 {
        StatusLineField::State
    } else if index == 1 {
        StatusLineField::StateWhen
    } else if index == 2 {
        StatusLineField::Harness
    } else if index == 3 {
        StatusLineField::HarnessWhen
    } else if index == 4 {
        StatusLineField::HarnessStyle
    } else if index == 5 {
        StatusLineField::Control
    } else if index == 6 {
        StatusLineField::ControlWhen
    } else if index == 7 {
        StatusLineField::ControlStyle
    } else if index == 8 {
        StatusLineField::Thread
    } else if index == 9 {
        StatusLineField::ThreadWhen
    } else if index == 10 {
        StatusLineField::Branch
    } else if index == 11 {
        StatusLineField::BranchWhen
    } else if index == 12 {
        StatusLineField::Path
    } else if index == 13 {
        StatusLineField::PathWhen
    } else {
        StatusLineField::PathStyle
    }
}

/// Move the page's selection one row, stopping at either end.
pub fn move_status_line_index(index: usize, up: bool) -> (r: usize)
    requires
        index < usize::MAX,
    ensures
        up ==> r == if index == 0 {
            0
        } else {
            index - 1
        },
        !up ==> r == if index + 1 < STATUS_LINE_ROW_COUNT - 1 {
            index + 1
        } else {
            STATUS_LINE_ROW_COUNT - 1
        },
{
    if up {
        if index == 0 {
            0
        } else {
            index - 1
        }
    } else if index + 1 < STATUS_LINE_ROW_COUNT - 1 {
        index + 1
    } else {
        STATUS_LINE_ROW_COUNT - 1
    }
}

} // verus!
