use vstd::prelude::*;

verus! {

/// The back-stack is empty: there is nowhere to go back to.
#[derive(Clone, Copy, Debug, PartialEq, Eq, Structural)]
pub struct NoMoreStepsError;

/// A screen name that the plan does not define.
#[derive(Clone, Copy, Debug, PartialEq, Eq, Structural)]
pub struct UnknownScreenError;

/// A screen group name that the plan does not define.
#[derive(Clone, Copy, Debug, PartialEq, Eq, Structural)]
pub struct UnknownScreenGroupError;

/// No sequence of transitions leads to the requested screen.
#[derive(Clone, Copy, Debug, PartialEq, Eq, Structural)]
pub struct PathNotFoundError;

/// A name on the way to the next screen that the plan does not define.
#[derive(Clone, Copy, Debug, PartialEq, Eq, Structural)]
pub enum NavigationError {
    UnknownScreen(UnknownScreenError),
    UnknownScreenGroup(UnknownScreenGroupError),
}

impl NavigationError {
    pub fn message(&self) -> String {
        match self {
            NavigationError::UnknownScreen(e) => e.message(),
            NavigationError::UnknownScreenGroup(e) => e.message(),
        }
    }
}

impl NoMoreStepsError {
    pub fn message(&self) -> String {
        "No more steps needed".to_owned()
    }
}

impl UnknownScreenError {
    pub fn message(&self) -> String {
        "Invalid screen".to_owned()
    }
}

impl UnknownScreenGroupError {
    pub fn message(&self) -> String {
        "Invalid screen group".to_owned()
    }
}

impl PathNotFoundError {
    pub fn message(&self) -> String {
        "Path not found".to_owned()
    }
}

} // verus!
