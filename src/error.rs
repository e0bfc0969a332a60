use vstd::prelude::*;

verus! {

/// Failures of the display connection.
#[derive(Clone, Copy, Debug, PartialEq, Eq, Structural)]
pub enum WindowSystemError {
    /// The display server could not be reached.
    DisplayNotFound,
    /// The geometry of the primary output could not be read.
    ScreenNotFound,
}

impl WindowSystemError {
    /// The message shown to the user for this failure.
    pub fn message(&self) -> (r: &'static str)
        ensures
            *self == WindowSystemError::DisplayNotFound ==> r@ == "display not found"@,
            *self == WindowSystemError::ScreenNotFound ==> r@ == "screen not found"@,
    {
        match self {
            WindowSystemError::DisplayNotFound => "display not found",
            WindowSystemError::ScreenNotFound => "screen not found",
        }
    }
}

/// Failures of the window manager: every one comes from the display connection.
#[derive(Clone, Copy, Debug, PartialEq, Eq, Structural)]
pub enum MiniWMError {
    DisplayNotFound(WindowSystemError),
}

impl MiniWMError {
    /// The message shown to the user: that of the underlying failure.
    pub fn message(&self) -> (r: &'static str)
        ensures
            *self == MiniWMError::DisplayNotFound(WindowSystemError::DisplayNotFound) ==> r@
                == "display not found"@,
            *self == MiniWMError::DisplayNotFound(WindowSystemError::ScreenNotFound) ==> r@
                == "screen not found"@,
    {
        match self {
            MiniWMError::DisplayNotFound(e) => e.message(),
        }
    }
}

impl From<WindowSystemError> for MiniWMError {
    fn from(e: WindowSystemError) -> (r: MiniWMError)
        ensures
            r == MiniWMError::DisplayNotFound(e),
    {
        MiniWMError::DisplayNotFound(e)
    }
}

impl vstd::std_specs::convert::FromSpecImpl<WindowSystemError> for MiniWMError {
    open spec fn obeys_from_spec() -> bool {
        true
    }

    open spec fn from_spec(e: WindowSystemError) -> MiniWMError {
        MiniWMError::DisplayNotFound(e)
    }
}

} // verus!
