//! The provider that asks a web service.

use vstd::prelude::*;

verus! {

/// List of supported ipgeolocate providers.
#[derive(Copy, Clone, Debug, PartialEq, Eq, Structural)]
pub enum BackendProvider {
    IpApiCom,
    IpApiCo,
}

/// ipgeolocate provider service configuration.
#[derive(Clone, Debug)]
pub struct IpGeolocateService {
    /// Geoip provider.
    pub provider: BackendProvider,
    /// API key.
    pub api_key: String,
}

impl IpGeolocateService {
    /// A service that asks `provider`, with `api_key`.
    pub fn new(provider: BackendProvider, api_key: &str) -> (service: Self)
        ensures
            service.provider == provider,
            service.api_key@ == api_key@,
    {
        Self { provider, api_key: api_key.to_owned() }
    }
}

} // verus!
