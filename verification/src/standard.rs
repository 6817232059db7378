//! The standard catalog: the WildFly releases from 10 to 36.

use crate::catalog::{lookup_in, valid_catalog, Catalog};
use crate::container::{all_wf, identifier_of, releases, Release, Version, WildFlyContainer};
use crate::enumeration::resolve_enumeration;
use crate::error::{EnumerationError, Failure, ResolveError};
use crate::range::resolve_range;
use crate::token::{resolve_version, resolve_versions};
use crate::text::texts;
use vstd::prelude::*;

verus! {

/// The first `count` of the platforms that images are built for.
pub open spec fn platform_names(count: int) -> Seq<Seq<char>> {
    seq!["linux/amd64"@, "linux/arm64"@, "linux/s390x"@, "linux/ppc64le"@].take(count)
}

/// One release of the standard catalog: its version, the version of its core,
/// its suffix, its repository, and for how many platforms it is built.
pub open spec fn release(
    major: u64,
    minor: u64,
    patch: u64,
    core_major: u64,
    core_minor: u64,
    core_patch: u64,
    suffix: Seq<char>,
    repository: Seq<char>,
    platforms: int,
) -> Release {
    Release::of(
        Version { major, minor, patch },
        Version { major: core_major, minor: core_minor, patch: core_patch },
        suffix,
        repository,
        platform_names(platforms),
    )
}

/// The releases of the standard catalog.
pub open spec fn standard_releases() -> Seq<Release> {
    seq![
        release(10, 0, 0, 2, 0, 10, "Final"@, "docker.io/jboss/wildfly"@, 0),
        release(10, 1, 0, 2, 2, 0, "Final"@, "docker.io/jboss/wildfly"@, 0),
        release(11, 0, 0, 3, 0, 8, "Final"@, "docker.io/jboss/wildfly"@, 0),
        release(12, 0, 0, 4, 0, 0, "Final"@, "docker.io/jboss/wildfly"@, 0),
        release(13, 0, 0, 5, 0, 0, "Final"@, "docker.io/jboss/wildfly"@, 0),
        release(14, 0, 1, 6, 0, 2, "Final"@, "docker.io/jboss/wildfly"@, 0),
        release(15, 0, 1, 7, 0, 0, "Final"@, "docker.io/jboss/wildfly"@, 0),
        release(16, 0, 0, 8, 0, 0, "Final"@, "docker.io/jboss/wildfly"@, 0),
        release(17, 0, 1, 9, 0, 2, "Final"@, "docker.io/jboss/wildfly"@, 0),
        release(18, 0, 1, 10, 0, 3, "Final"@, "docker.io/jboss/wildfly"@, 0),
        release(19, 0, 0, 11, 0, 0, "Final"@, "docker.io/jboss/wildfly"@, 0),
        release(19, 1, 0, 11, 1, 1, "Final"@, "docker.io/jboss/wildfly"@, 0),
        release(20, 0, 1, 12, 0, 3, "Final"@, "docker.io/jboss/wildfly"@, 0),
        release(21, 0, 2, 13, 0, 3, "Final"@, "docker.io/jboss/wildfly"@, 0),
        release(22, 0, 1, 14, 0, 1, "Final"@, "docker.io/jboss/wildfly"@, 0),
        release(23, 0, 2, 15, 0, 1, "Final"@, "quay.io/wildfly/wildfly"@, 0),
        release(24, 0, 0, 16, 0, 0, "Final"@, "quay.io/wildfly/wildfly"@, 0),
        release(25, 0, 1, 17, 0, 3, "Final"@, "quay.io/wildfly/wildfly"@, 0),
        release(26, 0, 1, 18, 0, 4, "Final"@, "quay.io/wildfly/wildfly"@, 0),
        release(26, 1, 3, 18, 1, 2, "Final-jdk17"@, "quay.io/wildfly/wildfly"@, 2),
        release(27, 0, 1, 19, 0, 1, "Final-jdk19"@, "quay.io/wildfly/wildfly"@, 2),
        release(28, 0, 1, 20, 0, 2, "Final-jdk20"@, "quay.io/wildfly/wildfly"@, 2),
        release(29, 0, 1, 21, 1, 1, "Final-jdk20"@, "quay.io/wildfly/wildfly"@, 2),
        release(30, 0, 1, 22, 0, 2, "Final-jdk20"@, "quay.io/wildfly/wildfly"@, 2),
        release(31, 0, 1, 23, 0, 3, "Final-jdk20"@, "quay.io/wildfly/wildfly"@, 2),
        release(32, 0, 1, 24, 0, 1, "Final-jdk21"@, "quay.io/wildfly/wildfly"@, 3),
        release(33, 0, 2, 25, 0, 2, "Final-jdk21"@, "quay.io/wildfly/wildfly"@, 4),
        release(34, 0, 1, 26, 0, 1, "Final-jdk21"@, "quay.io/wildfly/wildfly"@, 4),
        release(35, 0, 1, 27, 0, 1, "Final-jdk21"@, "quay.io/wildfly/wildfly"@, 4),
        release(36, 0, 1, 28, 0, 1, "Final-jdk21"@, "quay.io/wildfly/wildfly"@, 4),
    ]
}

/// The identifiers of the standard catalog.
pub open spec fn standard_identifiers() -> Seq<int> {
    seq![
        100, 101, 110, 120, 130, 140, 150, 160, 170, 180,
        190, 191, 200, 210, 220, 230, 240, 250, 260, 261,
        270, 280, 290, 300, 310, 320, 330, 340, 350, 360,
    ]
}

/// The first `count` of the platforms that images are built for.
fn platform_list(count: usize) -> (names: Vec<&'static str>)
    requires
        count <= 4,
    ensures
        texts(names@) == platform_names(count as int),
{
    let mut names: Vec<&'static str> = Vec::new();
    if count >= 1 {
        names.push("linux/amd64");
    }
    if count >= 2 {
        names.push("linux/arm64");
    }
    if count >= 3 {
        names.push("linux/s390x");
    }
    if count >= 4 {
        names.push("linux/ppc64le");
    }
    assert(texts(names@) =~= platform_names(count as int));
    names
}

/// One release of the standard catalog.
fn entry(
    major: u64,
    minor: u64,
    patch: u64,
    core_major: u64,
    core_minor: u64,
    core_patch: u64,
    suffix: &str,
    repository: &str,
    platforms: usize,
) -> (container: WildFlyContainer)
    requires
        identifier_of(major as int, minor as int) <= u16::MAX,
        platforms <= 4,
    ensures
        container@ == release(
            major,
            minor,
            patch,
            core_major,
            core_minor,
            core_patch,
            suffix@,
            repository@,
            platforms as int,
        ),
        container.wf(),
{
    WildFlyContainer::new(
        Version::new(major, minor, patch),
        Version::new(core_major, core_minor, core_patch),
        suffix,
        repository,
        platform_list(platforms),
    )
}

/// The standard catalog holds its identifiers in order.
pub proof fn lemma_standard_identifiers()
    ensures
        standard_releases().len() == standard_identifiers().len(),
        forall|i: int|
            0 <= i < standard_releases().len() ==> (#[trigger] standard_releases()[i]).identifier
                == standard_identifiers()[i],
{
}

/// The standard catalog is a valid catalog.
pub proof fn lemma_standard_valid()
    ensures
        valid_catalog(standard_releases()),
{
    let c = standard_releases();
    let ids = standard_identifiers();
    lemma_standard_identifiers();
    assert forall|i: int| 0 <= i < c.len() implies (#[trigger] c[i]).wf() && c[i].identifier
        > 0 by {
        assert(c[i].identifier == ids[i]);
    }
    assert forall|i: int, j: int| 0 <= i < j < c.len() implies (#[trigger] c[i]).identifier < (
    #[trigger] c[j]).identifier by {
        assert(c[i].identifier == ids[i]);
        assert(c[j].identifier == ids[j]);
    }
}

impl Catalog {
    /// The standard catalog.
    pub fn standard() -> (catalog: Catalog)
        ensures
            catalog@ == standard_releases(),
    {
        let mut entries: Vec<WildFlyContainer> = Vec::new();
        entries.push(entry(10, 0, 0, 2, 0, 10, "Final", "docker.io/jboss/wildfly", 0));
        entries.push(entry(10, 1, 0, 2, 2, 0, "Final", "docker.io/jboss/wildfly", 0));
        entries.push(entry(11, 0, 0, 3, 0, 8, "Final", "docker.io/jboss/wildfly", 0));
        entries.push(entry(12, 0, 0, 4, 0, 0, "Final", "docker.io/jboss/wildfly", 0));
        entries.push(entry(13, 0, 0, 5, 0, 0, "Final", "docker.io/jboss/wildfly", 0));
        entries.push(entry(14, 0, 1, 6, 0, 2, "Final", "docker.io/jboss/wildfly", 0));
        entries.push(entry(15, 0, 1, 7, 0, 0, "Final", "docker.io/jboss/wildfly", 0));
        entries.push(entry(16, 0, 0, 8, 0, 0, "Final", "docker.io/jboss/wildfly", 0));
        entries.push(entry(17, 0, 1, 9, 0, 2, "Final", "docker.io/jboss/wildfly", 0));
        entries.push(entry(18, 0, 1, 10, 0, 3, "Final", "docker.io/jboss/wildfly", 0));
        entries.push(entry(19, 0, 0, 11, 0, 0, "Final", "docker.io/jboss/wildfly", 0));
        entries.push(entry(19, 1, 0, 11, 1, 1, "Final", "docker.io/jboss/wildfly", 0));
        entries.push(entry(20, 0, 1, 12, 0, 3, "Final", "docker.io/jboss/wildfly", 0));
        entries.push(entry(21, 0, 2, 13, 0, 3, "Final", "docker.io/jboss/wildfly", 0));
        entries.push(entry(22, 0, 1, 14, 0, 1, "Final", "docker.io/jboss/wildfly", 0));
        entries.push(entry(23, 0, 2, 15, 0, 1, "Final", "quay.io/wildfly/wildfly", 0));
        entries.push(entry(24, 0, 0, 16, 0, 0, "Final", "quay.io/wildfly/wildfly", 0));
        entries.push(entry(25, 0, 1, 17, 0, 3, "Final", "quay.io/wildfly/wildfly", 0));
        entries.push(entry(26, 0, 1, 18, 0, 4, "Final", "quay.io/wildfly/wildfly", 0));
        entries.push(entry(26, 1, 3, 18, 1, 2, "Final-jdk17", "quay.io/wildfly/wildfly", 2));
        entries.push(entry(27, 0, 1, 19, 0, 1, "Final-jdk19", "quay.io/wildfly/wildfly", 2));
        entries.push(entry(28, 0, 1, 20, 0, 2, "Final-jdk20", "quay.io/wildfly/wildfly", 2));
        entries.push(entry(29, 0, 1, 21, 1, 1, "Final-jdk20", "quay.io/wildfly/wildfly", 2));
        entries.push(entry(30, 0, 1, 22, 0, 2, "Final-jdk20", "quay.io/wildfly/wildfly", 2));
        entries.push(entry(31, 0, 1, 23, 0, 3, "Final-jdk20", "quay.io/wildfly/wildfly", 2));
        entries.push(entry(32, 0, 1, 24, 0, 1, "Final-jdk21", "quay.io/wildfly/wildfly", 3));
        entries.push(entry(33, 0, 2, 25, 0, 2, "Final-jdk21", "quay.io/wildfly/wildfly", 4));
        entries.push(entry(34, 0, 1, 26, 0, 1, "Final-jdk21", "quay.io/wildfly/wildfly", 4));
        entries.push(entry(35, 0, 1, 27, 0, 1, "Final-jdk21", "quay.io/wildfly/wildfly", 4));
        entries.push(entry(36, 0, 1, 28, 0, 1, "Final-jdk21", "quay.io/wildfly/wildfly", 4));
        proof {
            assert(releases(entries@) =~= standard_releases());
            lemma_standard_valid();
        }
        Catalog::of_valid(entries)
    }
}

impl WildFlyContainer {
    /// Turns an enumeration of WildFly versions like `3x10,23..26,5x28,34,dev`
    /// into the releases of the standard catalog that it names: in ascending
    /// order of identifiers, each release once.
    pub fn enumeration(enumeration: &str) -> (resolved: Result<
        Vec<WildFlyContainer>,
        EnumerationError,
    >)
        ensures
            match resolved {
                Ok(containers) => resolve_enumeration(standard_releases(), enumeration@) == Ok::<
                    Seq<Release>,
                    Seq<Failure>,
                >(releases(containers@)) && all_wf(containers@),
                Err(error) => resolve_enumeration(standard_releases(), enumeration@) == Err::<
                    Seq<Release>,
                    Seq<Failure>,
                >(error@) && error@.len() > 0,
            },
    {
        Catalog::standard().enumeration(enumeration)
    }

    /// Turns a range of WildFly versions like `20..29`, `2x25..`, `..26.1` or
    /// `..`, but not `..dev` or `dev..`, into the releases of the standard
    /// catalog from its first end to its second.
    pub fn range(range: &str) -> (resolved: Result<Vec<WildFlyContainer>, ResolveError>)
        ensures
            match resolved {
                Ok(containers) => resolve_range(standard_releases(), range@) == Ok::<
                    Seq<Release>,
                    Failure,
                >(releases(containers@)) && all_wf(containers@),
                Err(error) => resolve_range(standard_releases(), range@) == Err::<
                    Seq<Release>,
                    Failure,
                >(error@),
            },
    {
        Catalog::standard().range(range)
    }

    /// Looks up a version like `dev`, `22` or `3x26.1` in the standard catalog.
    pub fn versions(short_version: &str) -> (resolved: Result<Vec<WildFlyContainer>, ResolveError>)
        ensures
            match resolved {
                Ok(containers) => resolve_versions(standard_releases(), short_version@) == Ok::<
                    Seq<Release>,
                    Failure,
                >(releases(containers@)) && all_wf(containers@),
                Err(error) => resolve_versions(standard_releases(), short_version@) == Err::<
                    Seq<Release>,
                    Failure,
                >(error@),
            },
    {
        Catalog::standard().versions(short_version)
    }

    /// Looks up a single version like `dev`, `22` or `26.1` in the standard catalog.
    pub fn version(short_version: &str) -> (resolved: Result<WildFlyContainer, ResolveError>)
        ensures
            match resolved {
                Ok(container) => resolve_version(standard_releases(), short_version@) == Ok::<
                    Release,
                    Failure,
                >(container@) && container.wf(),
                Err(error) => resolve_version(standard_releases(), short_version@) == Err::<
                    Release,
                    Failure,
                >(error@),
            },
    {
        Catalog::standard().version(short_version)
    }

    /// Looks up the release of the standard catalog with this identifier.
    pub fn lookup(identifier: u16) -> (found: Result<WildFlyContainer, ResolveError>)
        ensures
            match found {
                Ok(container) => lookup_in(standard_releases(), identifier as int) == Ok::<
                    Release,
                    Failure,
                >(container@) && container.wf(),
                Err(error) => lookup_in(standard_releases(), identifier as int) == Err::<
                    Release,
                    Failure,
                >(error@),
            },
    {
        Catalog::standard().lookup(identifier)
    }
}

} // verus!
