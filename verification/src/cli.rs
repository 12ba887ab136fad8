//! The actions the command line can request.

use vstd::prelude::*;

verus! {

/// What the user asked for: scaffolding a new book or building one.
pub enum Action {
    NewBook { name: String, force: bool },
    Build,
}

} // verus!
