//! One WildFly container release and what is derived from it.

use crate::decimal::{decimal_string, decimal_text};
use crate::text::texts;
use std::cmp::Ordering;
use vstd::prelude::*;

verus! {

/// A semantic version without pre-release or build part.
#[derive(Clone, Copy, Debug, PartialEq, Eq, Hash, Structural)]
pub struct Version {
    pub major: u64,
    pub minor: u64,
    pub patch: u64,
}

/// Three numbers written in decimal with a dot between them.
pub open spec fn dotted(major: u64, minor: u64, patch: u64) -> Seq<char> {
    decimal_text(major as nat) + seq!['.'] + decimal_text(minor as nat) + seq!['.'] + decimal_text(
        patch as nat,
    )
}

/// `semver::Version::new(major, minor, patch).to_string()`: a version built from
/// three numbers has no pre-release and no build part, and its `Display` then
/// writes the three numbers in decimal, major first, with a dot between them.
#[verifier::external_body]
fn semver_text(major: u64, minor: u64, patch: u64) -> (text: String)
    ensures
        text@ == dotted(major, minor, patch),
{
    semver::Version::new(major, minor, patch).to_string()
}

impl Version {
    /// The version `major.minor.patch`.
    pub fn new(major: u64, minor: u64, patch: u64) -> (version: Version)
        ensures
            version == (Version { major, minor, patch }),
    {
        Version { major, minor, patch }
    }

    /// The version as `major.minor.patch`.
    pub open spec fn text(self) -> Seq<char> {
        dotted(self.major, self.minor, self.patch)
    }

    /// The version as `major.minor.patch`.
    pub fn to_text(&self) -> (text: String)
        ensures
            text@ == self.text(),
    {
        semver_text(self.major, self.minor, self.patch)
    }
}

/// The identifier of the release `major.minor`.
pub open spec fn identifier_of(major: int, minor: int) -> int {
    major * 10 + minor
}

/// The identifier of the release `major.minor`.
pub fn identifier(major: u16, minor: u16) -> (id: u16)
    requires
        identifier_of(major as int, minor as int) <= u16::MAX,
    ensures
        id == identifier_of(major as int, minor as int),
{
    major * 10 + minor
}

/// The identifier of the development build.
pub open spec fn dev_identifier() -> int {
    0
}

/// Where the development build is taken from.
pub open spec fn dev_location() -> Seq<char> {
    "https://github.com/wildfly/wildfly.git"@
}

/// What a `WildFlyContainer` stands for.
pub struct Release {
    pub port_offset: int,
    pub identifier: int,
    pub version: Version,
    pub short_version: Seq<char>,
    pub core_version: Version,
    pub suffix: Seq<char>,
    pub repository: Seq<char>,
    pub platforms: Seq<Seq<char>>,
}

impl Release {
    /// The release of the given version.
    pub open spec fn of(
        version: Version,
        core_version: Version,
        suffix: Seq<char>,
        repository: Seq<char>,
        platforms: Seq<Seq<char>>,
    ) -> Release {
        Release {
            port_offset: identifier_of(version.major as int, version.minor as int),
            identifier: identifier_of(version.major as int, version.minor as int),
            version,
            short_version: decimal_text(version.major as nat) + seq!['.'] + decimal_text(
                version.minor as nat,
            ),
            core_version,
            suffix,
            repository,
            platforms,
        }
    }

    /// The development build: version `0.0.0`, identifier zero, nothing else.
    pub open spec fn dev() -> Release {
        Release::of(
            Version { major: 0, minor: 0, patch: 0 },
            Version { major: 0, minor: 0, patch: 0 },
            Seq::empty(),
            Seq::empty(),
            Seq::empty(),
        )
    }

    /// Identifier, port offset and short version are those of the version.
    pub open spec fn wf(self) -> bool {
        &&& self.identifier == identifier_of(self.version.major as int, self.version.minor as int)
        &&& self.port_offset == self.identifier
        &&& self.identifier <= u16::MAX
        &&& self.short_version == decimal_text(self.version.major as nat) + seq!['.']
            + decimal_text(self.version.minor as nat)
    }

    /// This is the development build.
    pub open spec fn is_dev(self) -> bool {
        self.identifier == dev_identifier()
    }

    /// The image reference `repository:version.suffix`, or the source location for
    /// the development build.
    pub open spec fn image_name(self) -> Seq<char> {
        if self.is_dev() {
            dev_location()
        } else {
            self.repository + seq![':'] + self.version.text() + seq!['.'] + self.suffix
        }
    }
}

/// Describes a WildFly container version.
#[derive(Debug, Eq, Hash)]
pub struct WildFlyContainer {
    /// What the ports of this release are shifted by.
    pub port_offset: u16,
    /// A unique identifier `<major><minor>`.
    pub identifier: u16,
    /// The semantic version.
    pub version: Version,
    /// The short version as `<major>.<minor>`.
    pub short_version: String,
    /// The WildFly core version.
    pub core_version: Version,
    /// A suffix like "Final-jdk21".
    pub suffix: String,
    /// The container repository.
    pub repository: String,
    /// The supported platforms.
    pub platforms: Vec<String>,
}

/// The views of a sequence of strings.
pub open spec fn string_views(strings: Seq<String>) -> Seq<Seq<char>> {
    Seq::new(strings.len(), |i: int| strings[i]@)
}

impl View for WildFlyContainer {
    type V = Release;

    open spec fn view(&self) -> Release {
        Release {
            port_offset: self.port_offset as int,
            identifier: self.identifier as int,
            version: self.version,
            short_version: self.short_version@,
            core_version: self.core_version,
            suffix: self.suffix@,
            repository: self.repository@,
            platforms: string_views(self.platforms@),
        }
    }
}

/// The releases that a sequence of containers stands for.
pub open spec fn releases(containers: Seq<WildFlyContainer>) -> Seq<Release> {
    Seq::new(containers.len(), |i: int| containers[i]@)
}

/// Every container of the sequence is well formed.
pub open spec fn all_wf(containers: Seq<WildFlyContainer>) -> bool {
    forall|i: int| 0 <= i < containers.len() ==> (#[trigger] containers[i]).wf()
}

/// Owned copies of string slices.
fn owned_strings(slices: &Vec<&str>) -> (strings: Vec<String>)
    ensures
        string_views(strings@) == texts(slices@),
{
    let mut strings: Vec<String> = Vec::new();
    let n = slices.len();
    let mut i: usize = 0;
    while i < n
        invariant
            n == slices.len(),
            i <= n,
            strings.len() == i,
            forall|j: int| 0 <= j < i ==> strings@[j]@ == slices@[j]@,
        decreases n - i,
    {
        strings.push(String::from_str(slices[i]));
        i += 1;
    }
    assert(string_views(strings@) =~= texts(slices@));
    strings
}

/// Copies of strings.
fn copied_strings(source: &Vec<String>) -> (strings: Vec<String>)
    ensures
        string_views(strings@) == string_views(source@),
{
    let mut strings: Vec<String> = Vec::new();
    let n = source.len();
    let mut i: usize = 0;
    while i < n
        invariant
            n == source.len(),
            i <= n,
            strings.len() == i,
            forall|j: int| 0 <= j < i ==> strings@[j]@ == source@[j]@,
        decreases n - i,
    {
        strings.push(source[i].clone());
        i += 1;
    }
    assert(string_views(strings@) =~= string_views(source@));
    strings
}

/// Whether two lists hold the same strings in the same order.
fn same_strings(a: &Vec<String>, b: &Vec<String>) -> (same: bool)
    ensures
        same == (string_views(a@) == string_views(b@)),
{
    let n = a.len();
    if n != b.len() {
        assert(string_views(a@).len() != string_views(b@).len());
        return false;
    }
    let mut i: usize = 0;
    while i < n
        invariant
            n == a.len(),
            n == b.len(),
            i <= n,
            forall|j: int| 0 <= j < i ==> a@[j]@ == b@[j]@,
        decreases n - i,
    {
        if a[i] != b[i] {
            assert(string_views(a@)[i as int] != string_views(b@)[i as int]);
            return false;
        }
        i += 1;
    }
    assert(string_views(a@) =~= string_views(b@));
    true
}

impl PartialEq for WildFlyContainer {
    /// Two containers are equal where they stand for the same release.
    fn eq(&self, other: &Self) -> (same: bool) {
        self.port_offset == other.port_offset && self.identifier == other.identifier
            && self.version == other.version && self.short_version == other.short_version
            && self.core_version == other.core_version && self.suffix == other.suffix
            && self.repository == other.repository && same_strings(
            &self.platforms,
            &other.platforms,
        )
    }
}

impl vstd::std_specs::cmp::PartialEqSpecImpl for WildFlyContainer {
    open spec fn obeys_eq_spec() -> bool {
        true
    }

    open spec fn eq_spec(&self, other: &Self) -> bool {
        self@ == other@
    }
}

impl PartialOrd for WildFlyContainer {
    /// Containers are ordered by their identifiers.
    fn partial_cmp(&self, other: &Self) -> (order: Option<Ordering>) {
        if self.identifier < other.identifier {
            Some(Ordering::Less)
        } else if self.identifier == other.identifier {
            Some(Ordering::Equal)
        } else {
            Some(Ordering::Greater)
        }
    }
}

impl vstd::std_specs::cmp::PartialOrdSpecImpl for WildFlyContainer {
    open spec fn obeys_partial_cmp_spec() -> bool {
        true
    }

    open spec fn partial_cmp_spec(&self, other: &Self) -> Option<Ordering> {
        if self.identifier < other.identifier {
            Some(Ordering::Less)
        } else if self.identifier == other.identifier {
            Some(Ordering::Equal)
        } else {
            Some(Ordering::Greater)
        }
    }
}

impl Clone for WildFlyContainer {
    /// A copy that stands for the same release.
    fn clone(&self) -> (copy: Self)
        ensures
            copy@ == self@,
    {
        WildFlyContainer {
            port_offset: self.port_offset,
            identifier: self.identifier,
            version: self.version,
            short_version: self.short_version.clone(),
            core_version: self.core_version,
            suffix: self.suffix.clone(),
            repository: self.repository.clone(),
            platforms: copied_strings(&self.platforms),
        }
    }
}

impl WildFlyContainer {
    /// The release that this container stands for is well formed.
    pub open spec fn wf(&self) -> bool {
        self@.wf()
    }

    /// The container of a version: identifier, port offset and short version
    /// are taken from the major and minor version.
    pub fn new(
        version: Version,
        core_version: Version,
        suffix: &str,
        source_repository: &str,
        platforms: Vec<&str>,
    ) -> (container: Self)
        requires
            identifier_of(version.major as int, version.minor as int) <= u16::MAX,
        ensures
            container@ == Release::of(
                version,
                core_version,
                suffix@,
                source_repository@,
                texts(platforms@),
            ),
            container.wf(),
    {
        let id = identifier(version.major as u16, version.minor as u16);
        let mut short_version = decimal_string(version.major);
        short_version.append(".");
        short_version.append(decimal_string(version.minor).as_str());
        proof {
            reveal_strlit(".");
            assert("."@ =~= seq!['.']);
        }
        WildFlyContainer {
            identifier: id,
            port_offset: id,
            short_version,
            version,
            core_version,
            suffix: String::from_str(suffix),
            repository: String::from_str(source_repository),
            platforms: owned_strings(&platforms),
        }
    }

    /// Whether identifier, port offset and short version are those of the version.
    pub fn is_well_formed(&self) -> (well_formed: bool)
        ensures
            well_formed == self.wf(),
    {
        if self.version.major > 6553 || self.version.minor > 65535 {
            return false;
        }
        let id = self.version.major * 10 + self.version.minor;
        if id > 65535 || id != self.identifier as u64 || self.port_offset != self.identifier {
            return false;
        }
        let mut short_version = decimal_string(self.version.major);
        short_version.append(".");
        short_version.append(decimal_string(self.version.minor).as_str());
        proof {
            reveal_strlit(".");
            assert("."@ =~= seq!['.']);
        }
        self.short_version == short_version
    }

    /// The development build.
    pub fn dev() -> (container: Self)
        ensures
            container@ == Release::dev(),
            container.wf(),
    {
        let container = WildFlyContainer::new(
            Version::new(0, 0, 0),
            Version::new(0, 0, 0),
            "",
            "",
            Vec::new(),
        );
        proof {
            reveal_strlit("");
            assert(""@ =~= Seq::<char>::empty());
            assert(container@.platforms =~= Seq::<Seq<char>>::empty());
        }
        container
    }

    /// The image reference `repository:version.suffix`, or the source location
    /// for the development build.
    pub fn image_name(&self) -> (name: String)
        ensures
            name@ == self@.image_name(),
    {
        if self.is_dev() {
            String::from_str("https://github.com/wildfly/wildfly.git")
        } else {
            let mut name = self.repository.clone();
            name.append(":");
            name.append(self.version.to_text().as_str());
            name.append(".");
            name.append(self.suffix.as_str());
            proof {
                reveal_strlit(":");
                reveal_strlit(".");
                assert(":"@ =~= seq![':']);
                assert("."@ =~= seq!['.']);
            }
            name
        }
    }

    /// Whether this is the development build.
    pub fn is_dev(&self) -> (dev: bool)
        ensures
            dev == self@.is_dev(),
    {
        self.identifier == 0
    }

    /// The HTTP port: 8000 shifted by the port offset.
    pub fn http_port(&self) -> (port: u16)
        requires
            8000 + self.port_offset <= u16::MAX,
        ensures
            port == 8000 + self.port_offset,
    {
        8000 + self.port_offset
    }

    /// The management port: 9000 shifted by the port offset.
    pub fn management_port(&self) -> (port: u16)
        requires
            9000 + self.port_offset <= u16::MAX,
        ensures
            port == 9000 + self.port_offset,
    {
        9000 + self.port_offset
    }
}

} // verus!
