//! The asset descriptors that a registry is built from.

use vstd::prelude::*;

verus! {

/// One asset as configured: its symbol, the number of fractional digits that
/// balances keep, and the number shown to users.
#[derive(Clone, Debug)]
pub struct Asset {
    pub name: String,
    pub prec_save: u32,
    pub prec_show: u32,
}

} // verus!
