use wildfly_container_versions::{
    identifier, Catalog, ResolveError, Version, WildFlyContainer, DEVELOPMENT_TAG,
    DEVELOPMENT_VERSION,
};

fn release(major: u64, minor: u64) -> WildFlyContainer {
    WildFlyContainer::new(
        Version::new(major, minor, 0),
        Version::new(1, 0, 0),
        "Final",
        "example.org/wildfly",
        vec![],
    )
}

#[test]
fn identifier_is_ten_times_major_plus_minor() {
    assert_eq!(identifier(26, 1), 261);
    assert_eq!(identifier(10, 0), 100);
    assert_eq!(identifier(0, 0), 0);
    assert_eq!(identifier(6553, 5), 65535);
}

#[test]
fn development_names() {
    assert_eq!(DEVELOPMENT_VERSION, "dev");
    assert_eq!(DEVELOPMENT_TAG, "development");
}

#[test]
fn new_derives_identifier_and_short_version() {
    let container = WildFlyContainer::new(
        Version::new(26, 1, 3),
        Version::new(18, 1, 2),
        "Final-jdk17",
        "quay.io/wildfly/wildfly",
        vec!["linux/amd64", "linux/arm64"],
    );
    assert_eq!(container.identifier, 261);
    assert_eq!(container.port_offset, 261);
    assert_eq!(container.short_version, "26.1");
    assert_eq!(container.version, Version::new(26, 1, 3));
    assert_eq!(container.core_version, Version::new(18, 1, 2));
    assert_eq!(container.suffix, "Final-jdk17");
    assert_eq!(container.repository, "quay.io/wildfly/wildfly");
    assert_eq!(container.platforms, vec!["linux/amd64", "linux/arm64"]);
    assert!(container.is_well_formed());
    assert!(!container.is_dev());
}

#[test]
fn image_name_joins_repository_version_and_suffix() {
    let container = WildFlyContainer::lookup(261).expect("261");
    assert_eq!(
        container.image_name(),
        "quay.io/wildfly/wildfly:26.1.3.Final-jdk17"
    );
    let container = WildFlyContainer::lookup(100).expect("100");
    assert_eq!(container.image_name(), "docker.io/jboss/wildfly:10.0.0.Final");
    let container = release(120, 34);
    assert_eq!(container.image_name(), "example.org/wildfly:120.34.0.Final");
}

#[test]
fn image_name_of_dev_is_the_source() {
    let dev = WildFlyContainer::dev();
    assert_eq!(dev.image_name(), "https://github.com/wildfly/wildfly.git");
    assert_eq!(dev.short_version, "0.0");
    assert_eq!(dev.suffix, "");
    assert_eq!(dev.repository, "");
    assert!(dev.platforms.is_empty());
}

#[test]
fn version_text_is_that_of_semver() {
    for (major, minor, patch) in [(0, 0, 0), (26, 1, 3), (10, 20, 30), (u64::MAX, 9, 100)] {
        assert_eq!(
            Version::new(major, minor, patch).to_text(),
            semver::Version::new(major, minor, patch).to_string()
        );
    }
    assert_eq!(Version::new(1, 2, 3).to_text(), "1.2.3");
}

#[test]
fn ports_are_shifted_by_the_identifier() {
    let container = WildFlyContainer::lookup(261).expect("261");
    assert_eq!(container.http_port(), 8261);
    assert_eq!(container.management_port(), 9261);
    let dev = WildFlyContainer::dev();
    assert_eq!(dev.http_port(), 8000);
    assert_eq!(dev.management_port(), 9000);
}

#[test]
fn containers_are_ordered_by_identifier() {
    let older = WildFlyContainer::lookup(260).expect("260");
    let newer = WildFlyContainer::lookup(261).expect("261");
    assert!(older < newer);
    assert!(newer > older);
    assert!(older <= older.clone());
    assert_eq!(older, older.clone());
    assert_ne!(older, newer);
}

#[test]
fn lookup_by_identifier() {
    let container = WildFlyContainer::lookup(340).expect("340");
    assert_eq!(container.short_version, "34.0");
    assert_eq!(container.version, Version::new(34, 0, 1));
    assert_eq!(container.core_version, Version::new(26, 0, 1));
    assert_eq!(container.suffix, "Final-jdk21");
    assert_eq!(
        container.platforms,
        vec!["linux/amd64", "linux/arm64", "linux/s390x", "linux/ppc64le"]
    );
    assert_eq!(
        WildFlyContainer::lookup(262),
        Err(ResolveError::UnknownVersion("262".to_string()))
    );
    assert_eq!(
        WildFlyContainer::lookup(0),
        Err(ResolveError::UnknownVersion("0".to_string()))
    );
}

#[test]
fn standard_catalog_is_in_order() {
    let catalog = Catalog::standard();
    assert_eq!(catalog.len(), 30);
    assert_eq!(catalog.first().identifier, 100);
    assert_eq!(catalog.last().identifier, 360);
    for i in 0..catalog.len() {
        let entry = catalog.get(i);
        assert!(entry.is_well_formed());
        assert!(entry.identifier > 0);
        assert_eq!(catalog.position(entry.identifier), Some(i));
        if i > 0 {
            assert!(catalog.get(i - 1).identifier < entry.identifier);
        }
    }
    assert_eq!(catalog.position(262), None);
}

#[test]
fn range_inclusive_spans_both_ends() {
    let catalog = Catalog::standard();
    let span = catalog.range_inclusive(191, 261);
    let ids: Vec<u16> = span.iter().map(|c| c.identifier).collect();
    assert_eq!(ids, vec![191, 200, 210, 220, 230, 240, 250, 260, 261]);
    let span = catalog.range_inclusive(200, 200);
    assert_eq!(span.len(), 1);
    assert_eq!(span[0].identifier, 200);
    let span = catalog.range_inclusive(102, 115);
    let ids: Vec<u16> = span.iter().map(|c| c.identifier).collect();
    assert_eq!(ids, vec![110]);
    assert!(catalog.range_inclusive(261, 260).is_empty());
    assert!(catalog.range_inclusive(361, 65535).is_empty());
    assert_eq!(catalog.range_inclusive(0, 65535).len(), catalog.len());
}

#[test]
fn catalog_of_other_releases() {
    let catalog =
        Catalog::from_entries(vec![release(1, 0), release(1, 5), release(2, 0)]).expect("valid");
    assert_eq!(catalog.len(), 3);
    assert_eq!(catalog.version("dev").expect("dev").identifier, 0);
    assert_eq!(
        catalog.version("10"),
        Err(ResolveError::UnknownVersion("10".to_string()))
    );
    let span = catalog.range("..").expect("..");
    let ids: Vec<u16> = span.iter().map(|c| c.identifier).collect();
    assert_eq!(ids, vec![10, 15, 20]);
    let catalog = Catalog::from_entries(vec![release(1, 0), release(1, 1), release(2, 0)])
        .expect("valid");
    let span = catalog.range("01..01.1").expect("01..01.1");
    let ids: Vec<u16> = span.iter().map(|c| c.identifier).collect();
    assert_eq!(ids, vec![10, 11]);
    let found = catalog.enumeration("02,dev,01").expect("02,dev,01");
    let ids: Vec<u16> = found.iter().map(|c| c.identifier).collect();
    assert_eq!(ids, vec![0, 10, 20]);
}

#[test]
fn catalog_refuses_what_is_not_valid() {
    assert!(Catalog::from_entries(vec![]).is_none());
    assert!(Catalog::from_entries(vec![release(2, 0), release(1, 0)]).is_none());
    assert!(Catalog::from_entries(vec![release(1, 0), release(1, 0)]).is_none());
    assert!(Catalog::from_entries(vec![WildFlyContainer::dev(), release(1, 0)]).is_none());
    let mut changed = release(1, 0);
    changed.identifier = 11;
    assert!(!changed.is_well_formed());
    assert!(Catalog::from_entries(vec![changed]).is_none());
    let mut changed = release(1, 0);
    changed.short_version = "1".to_string();
    assert!(Catalog::from_entries(vec![changed]).is_none());
    let mut changed = release(1, 0);
    changed.port_offset = 0;
    assert!(Catalog::from_entries(vec![changed]).is_none());
}
