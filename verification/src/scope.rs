//! Where a settings file lives: at user level or project-local level.

use vstd::prelude::*;

verus! {

/// Scope for hook installation.
#[derive(Clone, Copy, Debug, PartialEq, Eq, Structural)]
pub enum HookScope {
    /// Install hooks at user level, in the settings file under the home
    /// directory.
    User,
    /// Install hooks at project local level, in the local settings file of
    /// the working directory.
    Local,
}

} // verus!
