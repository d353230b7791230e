//! Access kinds of sysfs attributes.

use vstd::prelude::*;

verus! {

/// Any kind of access.
pub trait Access {}

/// Read access.
pub trait Read {}

/// Write access.
pub trait Write {}

} // verus!
