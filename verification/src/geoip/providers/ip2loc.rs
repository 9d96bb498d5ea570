//! The provider that reads an IP2Location database file.

use vstd::prelude::*;

verus! {

/// Ip2Location provider service configuration.
#[derive(Clone, Debug)]
pub struct Ip2LocationService {
    /// Database file path.
    pub database_file: String,
    /// For LITE versions IPv4 and IPv6 databases are separated. If you want to use IPv6 database,
    /// you need to specify the path to the IPv6 database file.
    /// NOTE: commercial version have both IPv4 and IPv6 data in one database file. When using
    /// commercial version, you don't need to specify this field.
    pub database_file_ipv6: Option<String>,
}

impl Ip2LocationService {
    /// A service that reads `database_file`, and `database_file_ipv6` for IPv6
    /// addresses where one is given.
    pub fn new(database_file: &str, database_file_ipv6: Option<String>) -> (service: Self)
        ensures
            service.database_file@ == database_file@,
            service.database_file_ipv6 == database_file_ipv6,
    {
        Self { database_file: database_file.to_owned(), database_file_ipv6 }
    }

    /// The path of the database that answers for an address of the given
    /// family.
    pub open spec fn database_path(self, ipv6: bool) -> Seq<char> {
        match self.database_file_ipv6 {
            Some(path) if ipv6 => path@,
            _ => self.database_file@,
        }
    }

    /// The database file to open for an address: the IPv6 database for an IPv6
    /// address where one is configured, the main database otherwise.
    pub fn database_for(&self, ipv6: bool) -> (path: &String)
        ensures
            path@ == self.database_path(ipv6),
            ipv6 && self.database_file_ipv6.is_some() ==> self.database_file_ipv6 == Some(*path),
            !(ipv6 && self.database_file_ipv6.is_some()) ==> self.database_file == *path,
    {
        if ipv6 {
            match &self.database_file_ipv6 {
                Some(path) => path,
                None => &self.database_file,
            }
        } else {
            &self.database_file
        }
    }
}

} // verus!
