//! Product name and configuration file constants.

use vstd::prelude::*;

verus! {

pub const BINDIFF_NAME: &'static str = "BinDiff";

pub const BINDIFF_COPYRIGHT: &'static str = "(c)2004-2011 zynamics GmbH, (c)2011-2025 Google LLC.";

pub const CONFIG_NAME: &'static str = "bindiff.json";

} // verus!
