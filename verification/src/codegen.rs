//! Code generation targets.

use vstd::prelude::*;

verus! {

/// The ECMAScript 2015 target.
#[derive(Debug, Default)]
pub struct Es6 {}

} // verus!
