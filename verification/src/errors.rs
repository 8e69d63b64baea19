use vstd::prelude::*;

verus! {

/// The collaborator behind a failure that this library only passes on.
#[derive(Clone, Copy, Debug, PartialEq, Eq, Structural)]
pub enum Collaborator {
    /// The store of records, directories and files.
    Storage,
    /// Sealing or opening a service map.
    Crypto,
    /// Turning values into bytes or back.
    Codec,
}

/// Why an operation on names was refused.
#[derive(Clone, Copy, Debug, PartialEq, Eq, Structural)]
pub enum DnsError {
    /// The configuration file is absent, or what it holds is no list of key pairs
    /// under distinct long names.
    DnsConfigFileNotFoundOrCorrupted,
    /// The long name has a record, or an entry in the configuration, already.
    NameAlreadyRegistered,
    /// The long name has no record, or the configuration no key pair for it.
    NameNotFound,
    /// The long name has no service of that name.
    ServiceNotFound,
    /// The signing key is not among the record's owners.
    NotAuthorized,
    /// The change was prepared against a version that is no longer current.
    VersionConflict,
    /// The text is no locator of the form `scheme:[service.]label.label`.
    MalformedUrl,
    /// The service's directory holds no home page.
    HomePageNotFound,
    /// A collaborator failed.
    Underlying(Collaborator),
}

} // verus!
