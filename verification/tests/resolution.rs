use wildfly_container_versions::{
    Catalog, Endpoint, EndpointCause, EnumerationError, ResolveError, WildFlyContainer,
};

fn identifiers(containers: &[WildFlyContainer]) -> Vec<u16> {
    containers.iter().map(|c| c.identifier).collect()
}

#[test]
fn multiplier_takes_the_count_off() {
    assert_eq!(WildFlyContainer::multiplier("5x26.1"), Some((5, "26.1")));
    assert_eq!(WildFlyContainer::multiplier("2x20..30"), Some((2, "20..30")));
    assert_eq!(WildFlyContainer::multiplier("007x10"), Some((7, "10")));
    assert_eq!(WildFlyContainer::multiplier("65535x10"), Some((65535, "10")));
    assert_eq!(WildFlyContainer::multiplier("26.1"), Some((1, "26.1")));
}

#[test]
fn multiplier_refuses_what_is_no_count() {
    assert_eq!(WildFlyContainer::multiplier("0x10"), None);
    assert_eq!(WildFlyContainer::multiplier("x25"), None);
    assert_eq!(WildFlyContainer::multiplier("25x"), None);
    assert_eq!(WildFlyContainer::multiplier("10xx20"), None);
    assert_eq!(WildFlyContainer::multiplier("65536x10"), None);
    assert_eq!(WildFlyContainer::multiplier("+5x10"), None);
    assert_eq!(WildFlyContainer::multiplier("-5x10"), None);
    assert_eq!(WildFlyContainer::multiplier("axb"), None);
    assert_eq!(WildFlyContainer::multiplier("x"), None);
    assert_eq!(WildFlyContainer::multiplier("2x3x10"), None);
}

#[test]
fn major_alone_means_minor_zero() {
    let short = WildFlyContainer::version("25").expect("25");
    let long = WildFlyContainer::version("25.0").expect("25.0");
    assert_eq!(short, long);
    assert_eq!(short.identifier, 250);
    assert!(WildFlyContainer::version("99").is_err());
    assert!(WildFlyContainer::version("99.0").is_err());
}

#[test]
fn dev_is_below_every_release() {
    let dev = WildFlyContainer::version("dev").expect("dev");
    assert_eq!(dev.identifier, 0);
    assert!(dev.is_dev());
    let catalog = Catalog::standard();
    for i in 0..catalog.len() {
        assert!(dev.identifier < catalog.get(i).identifier);
        assert!(dev < *catalog.get(i));
    }
}

#[test]
fn version_errors() {
    assert_eq!(
        WildFlyContainer::version("foo"),
        Err(ResolveError::InvalidVersionSyntax("foo".to_string()))
    );
    assert_eq!(
        WildFlyContainer::version("10."),
        Err(ResolveError::InvalidVersionSyntax("10.".to_string()))
    );
    assert_eq!(
        WildFlyContainer::version("123"),
        Err(ResolveError::InvalidVersionSyntax("123".to_string()))
    );
    assert_eq!(
        WildFlyContainer::version("261"),
        Err(ResolveError::InvalidVersionSyntax("261".to_string()))
    );
    assert_eq!(
        WildFlyContainer::version("26.1\n"),
        Err(ResolveError::InvalidVersionSyntax("26.1\n".to_string()))
    );
    assert_eq!(
        WildFlyContainer::version("٢٦"),
        Err(ResolveError::InvalidVersionSyntax("٢٦".to_string()))
    );
    assert_eq!(
        WildFlyContainer::version("99"),
        Err(ResolveError::UnknownVersion("99".to_string()))
    );
    assert_eq!(
        WildFlyContainer::version("26.2"),
        Err(ResolveError::UnknownVersion("26.2".to_string()))
    );
    assert_eq!(
        WildFlyContainer::version("37"),
        Err(ResolveError::UnknownVersion("37".to_string()))
    );
}

#[test]
fn versions_repeat_the_release() {
    let wf = WildFlyContainer::versions("3x26.1").expect("3x26.1");
    assert_eq!(identifiers(&wf), vec![261, 261, 261]);
    assert_eq!(wf[0], wf[2]);
    let wf = WildFlyContainer::versions("2xdev").expect("2xdev");
    assert_eq!(identifiers(&wf), vec![0, 0]);
    let wf = WildFlyContainer::versions("10").expect("10");
    assert_eq!(identifiers(&wf), vec![100]);
}

#[test]
fn versions_errors() {
    assert_eq!(
        WildFlyContainer::versions("0x10"),
        Err(ResolveError::InvalidMultiplier("0x10".to_string()))
    );
    assert_eq!(
        WildFlyContainer::versions("2x"),
        Err(ResolveError::InvalidMultiplier("2x".to_string()))
    );
    assert_eq!(
        WildFlyContainer::versions("2xfoo"),
        Err(ResolveError::InvalidVersionSyntax("foo".to_string()))
    );
    assert_eq!(
        WildFlyContainer::versions("10."),
        Err(ResolveError::InvalidVersionSyntax("10.".to_string()))
    );
    assert_eq!(
        WildFlyContainer::versions("2x99"),
        Err(ResolveError::UnknownVersion("99".to_string()))
    );
    assert_eq!(
        WildFlyContainer::versions(""),
        Err(ResolveError::InvalidVersionSyntax("".to_string()))
    );
}

#[test]
fn range_of_twenty_to_thirty() {
    let interval = WildFlyContainer::range("20..30").expect("20..30");
    assert_eq!(
        identifiers(&interval),
        vec![200, 210, 220, 230, 240, 250, 260, 261, 270, 280, 290, 300]
    );
}

#[test]
fn open_range_is_the_catalog() {
    let catalog = Catalog::standard();
    let interval = WildFlyContainer::range("..").expect("..");
    assert_eq!(interval.len(), catalog.len());
    assert_eq!(interval.len(), 30);
    for i in 0..catalog.len() {
        assert_eq!(interval[i], *catalog.get(i));
    }
    for pair in interval.windows(2) {
        assert!(pair[0].identifier < pair[1].identifier);
    }
}

#[test]
fn range_of_one_version_is_one_release() {
    let catalog = Catalog::standard();
    for i in 0..catalog.len() {
        let short = catalog.get(i).short_version.clone();
        let interval = WildFlyContainer::range(&format!("{}..{}", short, short)).expect("one");
        assert_eq!(interval.len(), 1);
        assert_eq!(interval[0], *catalog.get(i));
    }
}

#[test]
fn range_repeats_each_release_in_place() {
    let interval = WildFlyContainer::range("2x26..27").expect("2x26..27");
    assert_eq!(identifiers(&interval), vec![260, 260, 261, 261, 270, 270]);
    let interval = WildFlyContainer::range("3x36..").expect("3x36..");
    assert_eq!(identifiers(&interval), vec![360, 360, 360]);
}

#[test]
fn descending_range_fails() {
    assert_eq!(
        WildFlyContainer::range("30..20"),
        Err(ResolveError::RangeDescending(300, 200))
    );
    assert_eq!(
        WildFlyContainer::range("10.1..10"),
        Err(ResolveError::RangeDescending(101, 100))
    );
    assert_eq!(
        WildFlyContainer::range("2x26.1..26"),
        Err(ResolveError::RangeDescending(261, 260))
    );
}

#[test]
fn dev_is_no_end_of_a_range() {
    for range in [
        "dev..20",
        "20..dev",
        "dev..dev",
        "dev..",
        "..dev",
        "2xdev..20",
        "20..development",
        "development..20",
    ] {
        assert_eq!(
            WildFlyContainer::range(range),
            Err(ResolveError::DevNotAllowedInRange(range.to_string()))
        );
    }
    for range in ["dev..foo", "foo..dev", "dev..x", "x..dev", "10...dev", "dev...10"] {
        assert!(WildFlyContainer::range(range).is_err());
    }
}

#[test]
fn range_errors() {
    assert_eq!(
        WildFlyContainer::range("0x10..20"),
        Err(ResolveError::InvalidMultiplier("0x10..20".to_string()))
    );
    assert_eq!(
        WildFlyContainer::range("foo"),
        Err(ResolveError::MalformedRange("foo".to_string()))
    );
    assert_eq!(
        WildFlyContainer::range("10..20..30"),
        Err(ResolveError::MalformedRange("10..20..30".to_string()))
    );
    assert_eq!(
        WildFlyContainer::range("2x10....20"),
        Err(ResolveError::MalformedRange("2x10....20".to_string()))
    );
    assert_eq!(
        WildFlyContainer::range("..."),
        Err(ResolveError::InvalidRangeEndpoint(
            Endpoint::To,
            ".".to_string(),
            EndpointCause::InvalidVersionSyntax
        ))
    );
    assert_eq!(
        WildFlyContainer::range("foo..20"),
        Err(ResolveError::InvalidRangeEndpoint(
            Endpoint::From,
            "foo".to_string(),
            EndpointCause::InvalidVersionSyntax
        ))
    );
    assert_eq!(
        WildFlyContainer::range("99..20"),
        Err(ResolveError::InvalidRangeEndpoint(
            Endpoint::From,
            "99".to_string(),
            EndpointCause::UnknownVersion
        ))
    );
    assert_eq!(
        WildFlyContainer::range("20..26.2"),
        Err(ResolveError::InvalidRangeEndpoint(
            Endpoint::To,
            "26.2".to_string(),
            EndpointCause::UnknownVersion
        ))
    );
    assert_eq!(
        WildFlyContainer::range("foo..bar"),
        Err(ResolveError::InvalidRangeEndpoint(
            Endpoint::From,
            "foo".to_string(),
            EndpointCause::InvalidVersionSyntax
        ))
    );
}

#[test]
fn enumeration_is_sorted_and_names_each_release_once() {
    let found = WildFlyContainer::enumeration("23..26.1,dev,28,10,25,34").expect("enumeration");
    assert_eq!(found.len(), 9);
    assert_eq!(
        identifiers(&found),
        vec![0, 100, 230, 240, 250, 260, 261, 280, 340]
    );
    assert!(found[0].is_dev());
}

#[test]
fn enumeration_drops_repeats() {
    let found = WildFlyContainer::enumeration("26.1,26.1").expect("26.1,26.1");
    assert_eq!(identifiers(&found), vec![261]);
    let found = WildFlyContainer::enumeration("3x10,2x10..11").expect("3x10,2x10..11");
    assert_eq!(identifiers(&found), vec![100, 101, 110]);
    let found = WildFlyContainer::enumeration("dev,2xdev").expect("dev,2xdev");
    assert_eq!(identifiers(&found), vec![0]);
}

#[test]
fn invalid_enumerations_have_a_message() {
    for enumeration in ["", "  ", ",", "foo"] {
        let error = WildFlyContainer::enumeration(enumeration).expect_err("fails");
        assert!(!error.errors.is_empty());
        assert!(!error.message().is_empty());
    }
}

#[test]
fn blank_segments_fail() {
    assert_eq!(
        WildFlyContainer::enumeration(""),
        Err(EnumerationError {
            errors: vec![ResolveError::EmptyOrUnparsableSegment("".to_string())]
        })
    );
    assert_eq!(
        WildFlyContainer::enumeration(" \t"),
        Err(EnumerationError {
            errors: vec![ResolveError::EmptyOrUnparsableSegment(" \t".to_string())]
        })
    );
    assert_eq!(
        WildFlyContainer::enumeration(","),
        Err(EnumerationError {
            errors: vec![
                ResolveError::EmptyOrUnparsableSegment("".to_string()),
                ResolveError::EmptyOrUnparsableSegment("".to_string())
            ]
        })
    );
    assert_eq!(
        WildFlyContainer::enumeration("10,"),
        Err(EnumerationError {
            errors: vec![ResolveError::EmptyOrUnparsableSegment("".to_string())]
        })
    );
    assert_eq!(
        WildFlyContainer::enumeration(" 10"),
        Err(EnumerationError {
            errors: vec![ResolveError::InvalidVersionSyntax(" 10".to_string())]
        })
    );
}

#[test]
fn enumeration_reports_every_failing_segment_in_order() {
    let error = WildFlyContainer::enumeration("foo,10,30..20,,0x10,dev..").expect_err("fails");
    assert_eq!(
        error.errors,
        vec![
            ResolveError::InvalidVersionSyntax("foo".to_string()),
            ResolveError::RangeDescending(300, 200),
            ResolveError::EmptyOrUnparsableSegment("".to_string()),
            ResolveError::InvalidMultiplier("0x10".to_string()),
            ResolveError::DevNotAllowedInRange("dev..".to_string()),
        ]
    );
    assert_eq!(
        error.message(),
        "invalid version 'foo'\n300 is greater than 200\nempty segment ''\n\
         invalid multiplier in '0x10'\n'dev' is not allowed in 'dev..'"
    );
}

#[test]
fn single_error_message_stands_alone() {
    let error = WildFlyContainer::enumeration("10,99").expect_err("fails");
    assert_eq!(error.errors.len(), 1);
    assert_eq!(error.message(), "unknown version 99");
    assert_eq!(error.message(), error.errors[0].message());
}

#[test]
fn error_messages() {
    assert_eq!(
        ResolveError::InvalidMultiplier("0x10".to_string()).message(),
        "invalid multiplier in '0x10'"
    );
    assert_eq!(
        ResolveError::InvalidVersionSyntax("foo".to_string()).message(),
        "invalid version 'foo'"
    );
    assert_eq!(
        ResolveError::UnknownVersion("99".to_string()).message(),
        "unknown version 99"
    );
    assert_eq!(
        ResolveError::MalformedRange("10..20..30".to_string()).message(),
        "malformed range '10..20..30'"
    );
    assert_eq!(
        ResolveError::DevNotAllowedInRange("dev..20".to_string()).message(),
        "'dev' is not allowed in 'dev..20'"
    );
    assert_eq!(
        ResolveError::InvalidRangeEndpoint(
            Endpoint::From,
            "foo".to_string(),
            EndpointCause::InvalidVersionSyntax
        )
        .message(),
        "from 'foo' is not valid"
    );
    assert_eq!(
        ResolveError::InvalidRangeEndpoint(
            Endpoint::To,
            "99".to_string(),
            EndpointCause::UnknownVersion
        )
        .message(),
        "to '99' is not valid"
    );
    assert_eq!(
        ResolveError::RangeDescending(300, 200).message(),
        "300 is greater than 200"
    );
    assert_eq!(
        ResolveError::RangeDescending(65535, 0).message(),
        "65535 is greater than 0"
    );
    assert_eq!(
        ResolveError::EmptyOrUnparsableSegment("  ".to_string()).message(),
        "empty segment '  '"
    );
    assert_eq!(EnumerationError { errors: vec![] }.message(), "");
}
