//! A range of versions: two ends with `..` between them.

use crate::catalog::{between, Catalog};
use crate::container::{all_wf, releases, Release, WildFlyContainer};
use crate::error::{Endpoint, EndpointCause, Failure, ResolveError};
use crate::text::{occurs_at, same_text, split, split_text, texts};
use crate::token::{
    copies, dev_word, development_word, is_dev_word, multiplier_of, repeated, resolve_version,
    DEVELOPMENT_TAG,
};
use vstd::prelude::*;

verus! {

/// What stands between the two ends of a range.
pub open spec fn range_sign() -> Seq<char> {
    ".."@
}

/// `s` names the development build, by its name or by its tag.
pub open spec fn is_development(s: Seq<char>) -> bool {
    s == dev_word() || s == development_word()
}

/// The release at one end of a range: the first or last of the catalog where
/// the end is left empty, else the release that the end names.
pub open spec fn resolve_endpoint(c: Seq<Release>, side: Endpoint, s: Seq<char>) -> Result<
    Release,
    Failure,
> {
    if s.len() == 0 {
        match side {
            Endpoint::From => Ok(c.first()),
            Endpoint::To => Ok(c.last()),
        }
    } else {
        match resolve_version(c, s) {
            Ok(r) => Ok(r),
            Err(Failure::UnknownVersion(_)) => Err(
                Failure::InvalidRangeEndpoint(side, s, EndpointCause::UnknownVersion),
            ),
            Err(_) => Err(
                Failure::InvalidRangeEndpoint(side, s, EndpointCause::InvalidVersionSyntax),
            ),
        }
    }
}

/// Each release of `rs`, in order, `count` times.
pub open spec fn repeat_each(rs: Seq<Release>, count: int) -> Seq<Release>
    decreases rs.len(),
{
    if rs.len() == 0 {
        Seq::empty()
    } else {
        repeat_each(rs.drop_last(), count) + repeated(rs.last(), count)
    }
}

/// The releases of the span between two resolved ends, each `count` times, or
/// the failure of a span that starts after it ends.
pub open spec fn resolve_span(c: Seq<Release>, from: Release, to: Release, count: int) -> Result<
    Seq<Release>,
    Failure,
> {
    if from.identifier > to.identifier {
        Err(Failure::RangeDescending(from.identifier, to.identifier))
    } else {
        Ok(repeat_each(between(c, from.identifier, to.identifier), count))
    }
}

/// What a range names in the catalog `c`, each release as often as the repeat
/// count in front of the range says.
pub open spec fn resolve_range(c: Seq<Release>, s: Seq<char>) -> Result<Seq<Release>, Failure> {
    match multiplier_of(s) {
        None => Err(Failure::InvalidMultiplier(s)),
        Some((count, rest)) => {
            let parts = split(rest, range_sign());
            if parts.len() != 2 {
                Err(Failure::MalformedRange(s))
            } else if is_development(parts[0]) || is_development(parts[1]) {
                Err(Failure::DevNotAllowedInRange(s))
            } else {
                match resolve_endpoint(c, Endpoint::From, parts[0]) {
                    Err(failure) => Err(failure),
                    Ok(from) => match resolve_endpoint(c, Endpoint::To, parts[1]) {
                        Err(failure) => Err(failure),
                        Ok(to) => resolve_span(c, from, to, count),
                    },
                }
            }
        },
    }
}

/// Each release once is the releases themselves.
pub proof fn lemma_repeat_each_once(rs: Seq<Release>)
    ensures
        repeat_each(rs, 1) == rs,
    decreases rs.len(),
{
    if rs.len() > 0 {
        lemma_repeat_each_once(rs.drop_last());
        assert(repeated(rs.last(), 1) =~= seq![rs.last()]);
        assert(rs.drop_last() + seq![rs.last()] =~= rs);
    }
}

/// Repeating each release multiplies the length.
pub proof fn lemma_repeat_each_len(rs: Seq<Release>, count: int)
    requires
        count >= 0,
    ensures
        repeat_each(rs, count).len() == rs.len() * count,
    decreases rs.len(),
{
    if rs.len() > 0 {
        lemma_repeat_each_len(rs.drop_last(), count);
        assert((rs.len() - 1) * count + count == rs.len() * count) by (nonlinear_arith);
    }
}

/// `..` stands in `s` at `i` where the characters at `i` and after it are dots.
pub proof fn lemma_range_sign_at(s: Seq<char>, i: int)
    ensures
        occurs_at(s, range_sign(), i) <==> (0 <= i && i + 2 <= s.len() && s[i] == '.' && s[i + 1]
            == '.'),
{
    reveal_strlit("..");
    if 0 <= i && i + 2 <= s.len() && s[i] == '.' && s[i + 1] == '.' {
        assert forall|k: int| 0 <= k < range_sign().len() implies s[i + k] == range_sign()[k] by {
            if k == 0 {
            } else {
                assert(k == 1);
            }
        }
    }
    if occurs_at(s, range_sign(), i) {
        assert(s[i + 0] == range_sign()[0]);
        assert(s[i + 1] == range_sign()[1]);
    }
}

/// Whether `s` names the development build, by its name or by its tag.
pub fn is_development_word(s: &str) -> (dev: bool)
    ensures
        dev == is_development(s@),
{
    is_dev_word(s) || same_text(s, DEVELOPMENT_TAG)
}

/// Each container of `span`, in order, `count` times.
pub fn repeat_all(span: &Vec<WildFlyContainer>, count: u16) -> (made: Vec<WildFlyContainer>)
    ensures
        releases(made@) == repeat_each(releases(span@), count as int),
        all_wf(span@) ==> all_wf(made@),
{
    let n = span.len();
    let ghost rs = releases(span@);
    let mut made: Vec<WildFlyContainer> = Vec::new();
    let mut i: usize = 0;
    proof {
        assert(rs.take(0) =~= Seq::<Release>::empty());
        assert(releases(made@) =~= Seq::<Release>::empty());
    }
    while i < n
        invariant
            n == span.len(),
            rs == releases(span@),
            i <= n,
            releases(made@) == repeat_each(rs.take(i as int), count as int),
            all_wf(span@) ==> all_wf(made@),
        decreases n - i,
    {
        let ghost done = releases(made@);
        let ghost old_made = made@;
        let mut more = copies(&span[i], count);
        let ghost added = more@;
        made.append(&mut more);
        proof {
            assert(rs.take(i + 1).drop_last() =~= rs.take(i as int));
            assert(rs.take(i + 1).last() == span@[i as int]@);
            assert(releases(made@) =~= done + releases(added));
            if all_wf(span@) {
                assert(span@[i as int].wf());
                assert forall|j: int| 0 <= j < made@.len() implies (#[trigger] made@[j]).wf() by {
                    if j < old_made.len() {
                        assert(old_made[j].wf());
                    } else {
                        assert(added[j - old_made.len()].wf());
                    }
                }
            }
        }
        i += 1;
    }
    proof {
        assert(rs.take(n as int) =~= rs);
    }
    made
}

impl Catalog {
    /// The release at one end of a range.
    pub fn endpoint(&self, side: Endpoint, text: &str) -> (resolved: Result<
        WildFlyContainer,
        ResolveError,
    >)
        ensures
            match resolved {
                Ok(container) => resolve_endpoint(self@, side, text@) == Ok::<Release, Failure>(
                    container@,
                ) && container.wf(),
                Err(error) => resolve_endpoint(self@, side, text@) == Err::<Release, Failure>(
                    error@,
                ),
            },
    {
        if text.is_empty() {
            return match side {
                Endpoint::From => Ok(self.first()),
                Endpoint::To => Ok(self.last()),
            };
        }
        match self.version(text) {
            Ok(container) => Ok(container),
            Err(ResolveError::UnknownVersion(_)) => Err(
                ResolveError::InvalidRangeEndpoint(
                    side,
                    String::from_str(text),
                    EndpointCause::UnknownVersion,
                ),
            ),
            Err(_) => Err(
                ResolveError::InvalidRangeEndpoint(
                    side,
                    String::from_str(text),
                    EndpointCause::InvalidVersionSyntax,
                ),
            ),
        }
    }

    /// Turns a range of versions like `20..29`, `2x25..`, `..26.1` or `..`, but
    /// not `..dev` or `dev..`, into the releases from its first end to its
    /// second, both included.
    pub fn range(&self, range: &str) -> (resolved: Result<Vec<WildFlyContainer>, ResolveError>)
        ensures
            match resolved {
                Ok(containers) => resolve_range(self@, range@) == Ok::<Seq<Release>, Failure>(
                    releases(containers@),
                ) && all_wf(containers@),
                Err(error) => resolve_range(self@, range@) == Err::<Seq<Release>, Failure>(error@),
            },
    {
        let (count, rest) = match WildFlyContainer::multiplier(range) {
            None => {
                return Err(ResolveError::InvalidMultiplier(String::from_str(range)));
            },
            Some(parsed) => parsed,
        };
        let parts = split_text(rest, "..");
        if parts.len() != 2 {
            return Err(ResolveError::MalformedRange(String::from_str(range)));
        }
        let left = parts[0];
        let right = parts[1];
        proof {
            assert(texts(parts@)[0] == left@);
            assert(texts(parts@)[1] == right@);
        }
        if is_development_word(left) || is_development_word(right) {
            return Err(ResolveError::DevNotAllowedInRange(String::from_str(range)));
        }
        let from = match self.endpoint(Endpoint::From, left) {
            Err(error) => {
                return Err(error);
            },
            Ok(container) => container,
        };
        let to = match self.endpoint(Endpoint::To, right) {
            Err(error) => {
                return Err(error);
            },
            Ok(container) => container,
        };
        if from.identifier > to.identifier {
            return Err(ResolveError::RangeDescending(from.identifier, to.identifier));
        }
        let span = self.range_inclusive(from.identifier, to.identifier);
        Ok(repeat_all(&span, count))
    }
}

} // verus!
