//! One version reference, with or without a repeat count before it.

use crate::catalog::{entry, holds, Catalog};
use crate::container::{all_wf, identifier_of, releases, Release, WildFlyContainer};
use crate::decimal::{
    all_digits, decimal_value, digit_of, digit_value, is_digit, is_digit_char, parse_u16,
};
use crate::error::{Failure, ResolveError};
use crate::text::{
    chars_of, lemma_split_len, occurs, occurs_at, same_text, split, split_text, texts,
};
use vstd::prelude::*;

verus! {

/// The name of the development build.
pub const DEVELOPMENT_VERSION: &'static str = "dev";

/// The tag of the development build.
pub const DEVELOPMENT_TAG: &'static str = "development";

/// The name of the development build as characters.
pub open spec fn dev_word() -> Seq<char> {
    "dev"@
}

/// The tag of the development build as characters.
pub open spec fn development_word() -> Seq<char> {
    "development"@
}

/// What stands between a repeat count and what is repeated.
pub open spec fn times_sign() -> Seq<char> {
    "x"@
}

/// The major version that two digits write.
pub open spec fn major_of(tens: char, ones: char) -> int {
    (digit_value(tens) * 10 + digit_value(ones)) as int
}

/// The identifier that a numbered version names: two digits for the major
/// version, then nothing, or a dot and one digit for the minor version.
pub open spec fn version_identifier(s: Seq<char>) -> Option<int> {
    if s.len() == 2 && is_digit(s[0]) && is_digit(s[1]) {
        Some(identifier_of(major_of(s[0], s[1]), 0))
    } else if s.len() == 4 && is_digit(s[0]) && is_digit(s[1]) && s[2] == '.' && is_digit(s[3]) {
        Some(identifier_of(major_of(s[0], s[1]), digit_value(s[3]) as int))
    } else {
        None
    }
}

/// The release that one version reference names in the catalog `c`.
pub open spec fn resolve_version(c: Seq<Release>, s: Seq<char>) -> Result<Release, Failure> {
    if s == dev_word() {
        Ok(Release::dev())
    } else {
        match version_identifier(s) {
            None => Err(Failure::InvalidVersionSyntax(s)),
            Some(identifier) => if holds(c, identifier) {
                Ok(entry(c, identifier))
            } else {
                Err(Failure::UnknownVersion(s))
            },
        }
    }
}

/// The repeat count in front of `s` and what follows it: count 1 and all of `s`
/// where `s` holds no `x`; else a count from 1 to 65535 in digits, one `x`, and
/// a rest that is not empty.
pub open spec fn multiplier_of(s: Seq<char>) -> Option<(int, Seq<char>)> {
    if !occurs(s, times_sign()) {
        Some((1, s))
    } else {
        let parts = split(s, times_sign());
        if parts.len() == 2 && parts[0].len() > 0 && all_digits(parts[0]) && 1 <= decimal_value(
            parts[0],
        ) <= u16::MAX && parts[1].len() > 0 {
            Some((decimal_value(parts[0]) as int, parts[1]))
        } else {
            None
        }
    }
}

/// `count` times the release `r`.
pub open spec fn repeated(r: Release, count: int) -> Seq<Release> {
    Seq::new(count as nat, |i: int| r)
}

/// What a version reference with an optional repeat count names in the catalog
/// `c`: the release, as often as the count says.
pub open spec fn resolve_versions(c: Seq<Release>, s: Seq<char>) -> Result<Seq<Release>, Failure> {
    match multiplier_of(s) {
        None => Err(Failure::InvalidMultiplier(s)),
        Some((count, rest)) => match resolve_version(c, rest) {
            Ok(r) => Ok(repeated(r, count)),
            Err(failure) => Err(failure),
        },
    }
}

/// `x` stands in `s` at `i` where the character at `i` is an `x`.
pub proof fn lemma_times_sign_at(s: Seq<char>, i: int)
    ensures
        occurs_at(s, times_sign(), i) <==> (0 <= i < s.len() && s[i] == 'x'),
{
    reveal_strlit("x");
    if occurs_at(s, times_sign(), i) {
        assert(s[i + 0] == times_sign()[0]);
    }
}

/// Whether `s` names the development build.
pub fn is_dev_word(s: &str) -> (dev: bool)
    ensures
        dev == (s@ == dev_word()),
{
    same_text(s, DEVELOPMENT_VERSION)
}

/// The identifier that a numbered version names.
pub fn parse_version_identifier(s: &str) -> (parsed: Option<u16>)
    ensures
        parsed is Some <==> version_identifier(s@) is Some,
        parsed matches Some(id) ==> version_identifier(s@) == Some(id as int),
{
    let chars = chars_of(s);
    let n = chars.len();
    if n != 2 && n != 4 {
        return None;
    }
    if !is_digit_char(chars[0]) || !is_digit_char(chars[1]) {
        return None;
    }
    let major = digit_of(chars[0]) * 10 + digit_of(chars[1]);
    if n == 2 {
        return Some((major * 10) as u16);
    }
    if chars[2] != '.' || !is_digit_char(chars[3]) {
        return None;
    }
    Some((major * 10 + digit_of(chars[3])) as u16)
}

/// `count` copies of a container.
pub fn copies(container: &WildFlyContainer, count: u16) -> (made: Vec<WildFlyContainer>)
    ensures
        releases(made@) == repeated(container@, count as int),
        container.wf() ==> all_wf(made@),
{
    let mut made: Vec<WildFlyContainer> = Vec::new();
    let mut i: u16 = 0;
    while i < count
        invariant
            i <= count,
            made@.len() == i,
            forall|j: int| 0 <= j < i ==> (#[trigger] made@[j])@ == container@,
        decreases count - i,
    {
        made.push(container.clone());
        i += 1;
    }
    assert(releases(made@) =~= repeated(container@, count as int));
    made
}

impl WildFlyContainer {
    /// Takes the repeat count off the front of a version reference or a range.
    pub fn multiplier(range_or_short_version: &str) -> (parsed: Option<(u16, &str)>)
        ensures
            match parsed {
                Some((count, rest)) => multiplier_of(range_or_short_version@) == Some(
                    (count as int, rest@),
                ),
                None => multiplier_of(range_or_short_version@) is None,
            },
    {
        let parts = split_text(range_or_short_version, "x");
        proof {
            reveal_strlit("x");
            lemma_split_len(range_or_short_version@, times_sign());
        }
        if parts.len() == 1 {
            return Some((1, range_or_short_version));
        }
        if parts.len() != 2 {
            return None;
        }
        let rest = parts[1];
        proof {
            assert(texts(parts@)[0] == parts@[0]@);
            assert(texts(parts@)[1] == parts@[1]@);
        }
        if rest.is_empty() {
            return None;
        }
        match parse_u16(&chars_of(parts[0])) {
            Some(count) => if count > 0 {
                Some((count, rest))
            } else {
                None
            },
            None => None,
        }
    }
}

impl Catalog {
    /// Looks up the release that one version reference names: `dev`, or a
    /// version like `22` or `26.1`.
    pub fn version(&self, short_version: &str) -> (resolved: Result<WildFlyContainer, ResolveError>)
        ensures
            match resolved {
                Ok(container) => resolve_version(self@, short_version@) == Ok::<Release, Failure>(
                    container@,
                ) && container.wf(),
                Err(error) => resolve_version(self@, short_version@) == Err::<Release, Failure>(
                    error@,
                ),
            },
    {
        if is_dev_word(short_version) {
            return Ok(WildFlyContainer::dev());
        }
        match parse_version_identifier(short_version) {
            None => Err(ResolveError::InvalidVersionSyntax(String::from_str(short_version))),
            Some(identifier) => match self.position(identifier) {
                Some(i) => Ok(self.get(i).clone()),
                None => Err(ResolveError::UnknownVersion(String::from_str(short_version))),
            },
        }
    }

    /// Looks up a version reference with an optional repeat count, like `dev`,
    /// `22` or `3x26.1`.
    pub fn versions(&self, short_version: &str) -> (resolved: Result<
        Vec<WildFlyContainer>,
        ResolveError,
    >)
        ensures
            match resolved {
                Ok(containers) => resolve_versions(self@, short_version@) == Ok::<
                    Seq<Release>,
                    Failure,
                >(releases(containers@)) && all_wf(containers@),
                Err(error) => resolve_versions(self@, short_version@) == Err::<
                    Seq<Release>,
                    Failure,
                >(error@),
            },
    {
        match WildFlyContainer::multiplier(short_version) {
            None => Err(ResolveError::InvalidMultiplier(String::from_str(short_version))),
            Some((count, rest)) => match self.version(rest) {
                Ok(container) => Ok(copies(&container, count)),
                Err(error) => Err(error),
            },
        }
    }
}

} // verus!
