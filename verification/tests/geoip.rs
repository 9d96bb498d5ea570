use ziggurat_core::geoip::providers::ip2loc::Ip2LocationService;
use ziggurat_core::geoip::providers::ipgeoloc::{BackendProvider, IpGeolocateService};
use ziggurat_core::geoip::providers::testing::{TestingProvider, TestingService};

#[test]
fn test_testing_provider() {
    let geoip = TestingService::new(TestingProvider::Zeroed);
    let labels = geoip.labels();
    assert_eq!(labels.country.unwrap(), "");
    assert_eq!(labels.city.unwrap(), "");
    assert_eq!(labels.timezone.unwrap(), "");
    assert_eq!(labels.isp.unwrap(), "");
}

#[test]
fn random_provider_gives_eight_letters_or_digits() {
    let geoip = TestingService::new(TestingProvider::Random);
    assert!(geoip.provider == TestingProvider::Random);
    let mut seen = Vec::new();
    for _ in 0..20 {
        let labels = geoip.labels();
        for name in [labels.country, labels.city, labels.timezone, labels.isp] {
            let name = name.unwrap();
            assert_eq!(name.chars().count(), 8);
            assert!(name.chars().all(|c| c.is_ascii_alphanumeric()));
            seen.push(name);
        }
    }
    seen.sort();
    seen.dedup();
    assert!(seen.len() > 1);
}

#[test]
fn ip2location_service_picks_the_database() {
    let both = Ip2LocationService::new("v4.bin", Some("v6.bin".to_string()));
    assert_eq!(both.database_file, "v4.bin");
    assert_eq!(both.database_file_ipv6, Some("v6.bin".to_string()));
    assert_eq!(both.database_for(false), "v4.bin");
    assert_eq!(both.database_for(true), "v6.bin");
    let one = Ip2LocationService::new("all.bin", None);
    assert_eq!(one.database_file, "all.bin");
    assert_eq!(one.database_file_ipv6, None);
    assert_eq!(one.database_for(false), "all.bin");
    assert_eq!(one.database_for(true), "all.bin");
}

#[test]
fn ipgeolocate_service_keeps_its_configuration() {
    let service = IpGeolocateService::new(BackendProvider::IpApiCo, "key");
    assert!(service.provider == BackendProvider::IpApiCo);
    assert_eq!(service.api_key, "key");
    let other = IpGeolocateService::new(BackendProvider::IpApiCom, "");
    assert!(other.provider == BackendProvider::IpApiCom);
    assert_eq!(other.api_key, "");
}
