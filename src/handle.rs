//! Drag actions of the editor's handles, and their text form, which is
//! what an element stores to say what dragging it does.
use vstd::prelude::*;

verus! {

/// What dragging a handle does.
#[derive(Debug, Clone, Copy, PartialEq, Eq, Structural)]
pub enum Action {
    /// Moves a circle so that its centre follows the pointer.
    ChangeCirclePosition,
    /// Changes a circle's radius so that it reaches the pointer.
    ChangeCircleRadius,
}

/// Which pane takes the main area of the editor.
#[derive(Debug, Clone, Copy, PartialEq, Eq, Structural)]
pub enum ViewMode {
    SchematicMain,
    VisualizerMain,
}

pub open spec fn action_name(a: Action) -> Seq<char> {
    match a {
        Action::ChangeCircleRadius => "change_circle_radius"@,
        Action::ChangeCirclePosition => "change_circle_position"@,
    }
}

pub open spec fn action_named(s: Seq<char>) -> Option<Action> {
    if s == "change_circle_radius"@ {
        Some(Action::ChangeCircleRadius)
    } else if s == "change_circle_position"@ {
        Some(Action::ChangeCirclePosition)
    } else {
        None
    }
}

fn same_text(a: &str, b: &str) -> (r: bool)
    ensures
        r == (a@ == b@),
{
    a.to_owned() == b.to_owned()
}

impl Action {
    /// The action that a stored text names, if any.
    pub fn from_str(s: &str) -> (r: Option<Self>)
        ensures
            r == action_named(s@),
    {
        if same_text(s, "change_circle_radius") {
            Some(Action::ChangeCircleRadius)
        } else if same_text(s, "change_circle_position") {
            Some(Action::ChangeCirclePosition)
        } else {
            None
        }
    }

    /// The text under which the action is stored.
    pub fn to_str(&self) -> (r: &str)
        ensures
            r@ == action_name(*self),
    {
        match self {
            Action::ChangeCircleRadius => "change_circle_radius",
            Action::ChangeCirclePosition => "change_circle_position",
        }
    }
}

/// Reading back the text of an action gives that action.
pub proof fn lemma_action_round_trip(a: Action)
    ensures
        action_named(action_name(a)) == Some(a),
{
    reveal_strlit("change_circle_radius");
    reveal_strlit("change_circle_position");
    assert("change_circle_radius"@.len() != "change_circle_position"@.len());
}

} // verus!
