use vstd::prelude::*;

verus! {

/// Operating system family of a target.
#[derive(Clone, Copy, Debug, PartialEq, Eq, Structural)]
pub enum OsType {
    Linux,
    MacOs,
    Windows,
    FreeBSD,
}

/// Operating system of a target: family, vendor ("ubuntu", "apple") and
/// version ("18.04", "10.15.4").
#[derive(Clone, Debug)]
pub struct Os {
    os_type: OsType,
    vendor: String,
    version: String,
}

/// What an `Os` says, as plain values.
pub struct OsView {
    pub os_type: OsType,
    pub vendor: Seq<char>,
    pub version: Seq<char>,
}

impl View for Os {
    type V = OsView;

    closed spec fn view(&self) -> OsView {
        OsView { os_type: self.os_type, vendor: self.vendor@, version: self.version@ }
    }
}

impl<'a, 'b> From<(OsType, &'a str, &'b str)> for Os {
    fn from(t: (OsType, &'a str, &'b str)) -> (r: Os)
        ensures
            r@.os_type == t.0,
            r@.vendor == t.1@,
            r@.version == t.2@,
    {
        Os { os_type: t.0, vendor: t.1.to_owned(), version: t.2.to_owned() }
    }
}

impl<'a, 'b> vstd::std_specs::convert::FromSpecImpl<(OsType, &'a str, &'b str)> for Os {
    open spec fn obeys_from_spec() -> bool {
        false
    }

    open spec fn from_spec(t: (OsType, &'a str, &'b str)) -> Os {
        arbitrary()
    }
}

impl Os {
    pub fn new(os_type: OsType, vendor: &str, version: &str) -> (r: Os)
        ensures
            r@.os_type == os_type,
            r@.vendor == vendor@,
            r@.version == version@,
    {
        Os { os_type, vendor: vendor.to_owned(), version: version.to_owned() }
    }

    pub fn os_type(&self) -> (r: OsType)
        ensures
            r == self@.os_type,
    {
        self.os_type
    }

    pub fn vendor(&self) -> (r: &str)
        ensures
            r@ == self@.vendor,
    {
        self.vendor.as_str()
    }

    pub fn version(&self) -> (r: &str)
        ensures
            r@ == self@.version,
    {
        self.version.as_str()
    }
}

/// The host that states are applied to: its name and operating system.
#[derive(Clone, Debug)]
pub struct Target {
    pub hostname: String,
    pub os: Os,
}

impl Target {
    pub fn new(hostname: &str, os: Os) -> (r: Target)
        ensures
            r.hostname@ == hostname@,
            r.os@ == os@,
    {
        Target { hostname: hostname.to_owned(), os }
    }

    pub fn hostname(&self) -> (r: &str)
        ensures
            r@ == self.hostname@,
    {
        self.hostname.as_str()
    }

    pub fn os(&self) -> (r: &Os)
        ensures
            r@ == self.os@,
    {
        &self.os
    }
}

} // verus!
