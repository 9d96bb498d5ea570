//! A provider that asks nobody: it answers with empty or with random names.

use rand::distributions::Alphanumeric;
use rand::{thread_rng, Rng};
use vstd::prelude::*;

use crate::geoip::geoip::GeoLabels;

verus! {

/// The length of a random name.
pub const RANDOM_NAME_LEN: usize = 8;

/// List of supported testing providers.
#[derive(Copy, Clone, Debug, PartialEq, Eq, Structural)]
pub enum TestingProvider {
    /// Return empty data.
    Zeroed,
    /// Return random data.
    Random,
}

/// Testing provider service configuration.
#[derive(Copy, Clone, Debug)]
pub struct TestingService {
    /// Testing provider.
    pub provider: TestingProvider,
}

/// An ASCII letter or digit.
pub open spec fn is_alphanumeric(c: char) -> bool {
    ('0' <= c && c <= '9') || ('A' <= c && c <= 'Z') || ('a' <= c && c <= 'z')
}

/// A name as the random provider makes them: eight ASCII letters and digits.
pub open spec fn is_random_name(name: Seq<char>) -> bool {
    &&& name.len() == RANDOM_NAME_LEN
    &&& forall|i: int| 0 <= i < name.len() ==> is_alphanumeric(#[trigger] name[i])
}

/// Draws `len` characters from `rand`'s `Alphanumeric` distribution with the
/// thread's generator. Which characters come is left open; the distribution
/// yields only the ASCII letters and digits, and `take` stops after `len`.
#[verifier::external_body]
fn random_alphanumeric(len: usize) -> (name: String)
    ensures
        name@.len() == len,
        forall|i: int| 0 <= i < name@.len() ==> is_alphanumeric(#[trigger] name@[i]),
{
    thread_rng().sample_iter(&Alphanumeric).take(len).map(char::from).collect()
}

impl TestingService {
    /// A service that answers as `provider` says.
    pub fn new(provider: TestingProvider) -> (service: Self)
        ensures
            service.provider == provider,
    {
        Self { provider }
    }

    /// The names that this service reports for any address: four empty names
    /// from the zeroed provider, four random names from the random one.
    pub fn labels(&self) -> (labels: GeoLabels)
        ensures
            self.provider == TestingProvider::Zeroed ==> labels.all_names(
                |name: Seq<char>| name.len() == 0,
            ),
            self.provider == TestingProvider::Random ==> labels.all_names(
                |name: Seq<char>| is_random_name(name),
            ),
    {
        if self.provider == TestingProvider::Zeroed {
            GeoLabels {
                country: Some(String::new()),
                city: Some(String::new()),
                timezone: Some(String::new()),
                isp: Some(String::new()),
            }
        } else {
            let country = random_alphanumeric(RANDOM_NAME_LEN);
            let city = random_alphanumeric(RANDOM_NAME_LEN);
            let timezone = random_alphanumeric(RANDOM_NAME_LEN);
            let isp = random_alphanumeric(RANDOM_NAME_LEN);
            GeoLabels {
                country: Some(country),
                city: Some(city),
                timezone: Some(timezone),
                isp: Some(isp),
            }
        }
    }
}

} // verus!
