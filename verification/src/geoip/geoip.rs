//! What a provider reports about an address, as far as it is text.

use vstd::prelude::*;

verus! {

/// The names that a geolocation lookup reports for an address.
#[derive(Clone, Debug)]
pub struct GeoLabels {
    /// Country name (long name)
    pub country: Option<String>,
    /// City name
    pub city: Option<String>,
    /// Timezone of the address
    pub timezone: Option<String>,
    /// ISP name (unavailable for some providers)
    pub isp: Option<String>,
}

impl GeoLabels {
    /// Every name is present and satisfies `holds`.
    pub open spec fn all_names(self, holds: spec_fn(Seq<char>) -> bool) -> bool {
        &&& self.country matches Some(name) && holds(name@)
        &&& self.city matches Some(name) && holds(name@)
        &&& self.timezone matches Some(name) && holds(name@)
        &&& self.isp matches Some(name) && holds(name@)
    }
}

} // verus!
