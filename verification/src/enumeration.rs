//! An enumeration: versions and ranges with commas between them.

use crate::catalog::Catalog;
use crate::container::{all_wf, releases, Release, WildFlyContainer};
use crate::error::{failures, EnumerationError, Failure, ResolveError};
use crate::range::{range_sign, resolve_range};
use crate::text::{chars_of, contains_text, occurs, split, split_text, texts};
use crate::token::resolve_versions;
use vstd::prelude::*;

verus! {

/// What stands between the segments of an enumeration.
pub open spec fn comma() -> Seq<char> {
    ","@
}

/// `c` is a space, a tab, a line feed, a vertical tab, a form feed or a carriage return.
pub open spec fn is_space(c: char) -> bool {
    c == ' ' || 9 <= c as int <= 13
}

/// `s` is empty or holds white space only.
pub open spec fn is_blank(s: Seq<char>) -> bool {
    forall|i: int| 0 <= i < s.len() ==> is_space(#[trigger] s[i])
}

/// What one segment of an enumeration names in the catalog `c`: a range where
/// it holds `..`, else a version, and nothing where it is blank.
pub open spec fn resolve_segment(c: Seq<Release>, segment: Seq<char>) -> Result<
    Seq<Release>,
    Failure,
> {
    if is_blank(segment) {
        Err(Failure::EmptyOrUnparsableSegment(segment))
    } else if occurs(segment, range_sign()) {
        resolve_range(c, segment)
    } else {
        resolve_versions(c, segment)
    }
}

/// The releases that the segments which resolve name, in the order of the segments.
pub open spec fn named(c: Seq<Release>, segments: Seq<Seq<char>>) -> Seq<Release>
    decreases segments.len(),
{
    if segments.len() == 0 {
        Seq::empty()
    } else {
        let before = named(c, segments.drop_last());
        match resolve_segment(c, segments.last()) {
            Ok(rs) => before + rs,
            Err(_) => before,
        }
    }
}

/// The failures of the segments that do not resolve, in the order of the segments.
pub open spec fn failed(c: Seq<Release>, segments: Seq<Seq<char>>) -> Seq<Failure>
    decreases segments.len(),
{
    if segments.len() == 0 {
        Seq::empty()
    } else {
        let before = failed(c, segments.drop_last());
        match resolve_segment(c, segments.last()) {
            Ok(_) => before,
            Err(failure) => before.push(failure),
        }
    }
}

/// The releases that occur in `rs`.
pub open spec fn among(rs: Seq<Release>) -> spec_fn(Release) -> bool {
    |r: Release| rs.contains(r)
}

/// The development build and the releases of the catalog `c`, in this order,
/// as far as they occur in `rs`: each once, however often it occurs there.
pub open spec fn selection(c: Seq<Release>, rs: Seq<Release>) -> Seq<Release> {
    (seq![Release::dev()] + c).filter(among(rs))
}

/// What an enumeration names in the catalog `c`: where every segment resolves,
/// the releases that the segments name, in ascending order of identifiers and
/// each once; else the failures of the segments, in the order of the segments.
pub open spec fn resolve_enumeration(c: Seq<Release>, s: Seq<char>) -> Result<
    Seq<Release>,
    Seq<Failure>,
> {
    let segments = split(s, comma());
    if failed(c, segments).len() == 0 {
        Ok(selection(c, named(c, segments)))
    } else {
        Err(failed(c, segments))
    }
}

/// Whether `s` is empty or holds white space only.
pub fn is_blank_text(s: &str) -> (blank: bool)
    ensures
        blank == is_blank(s@),
{
    let chars = chars_of(s);
    let n = chars.len();
    let mut i: usize = 0;
    while i < n
        invariant
            chars@ == s@,
            n == chars.len(),
            i <= n,
            forall|j: int| 0 <= j < i ==> is_space(#[trigger] chars@[j]),
        decreases n - i,
    {
        let c = chars[i];
        if !(c == ' ' || ('\t' <= c && c <= '\r')) {
            assert(!is_space(s@[i as int]));
            return false;
        }
        i += 1;
    }
    true
}

/// Whether the release of `container` is one of those of `containers`.
pub fn is_among(container: &WildFlyContainer, containers: &Vec<WildFlyContainer>) -> (found: bool)
    ensures
        found == releases(containers@).contains(container@),
{
    let n = containers.len();
    let ghost rs = releases(containers@);
    let mut i: usize = 0;
    while i < n
        invariant
            n == containers.len(),
            rs == releases(containers@),
            i <= n,
            forall|j: int| 0 <= j < i ==> rs[j] != container@,
        decreases n - i,
    {
        if containers[i].identifier == container.identifier && containers[i] == *container {
            assert(rs[i as int] == container@);
            return true;
        }
        i += 1;
    }
    false
}

impl Catalog {
    /// The development build and the releases of the catalog, in this order, as
    /// far as they are among `containers`.
    pub fn select(&self, containers: &Vec<WildFlyContainer>) -> (chosen: Vec<WildFlyContainer>)
        ensures
            releases(chosen@) == selection(self@, releases(containers@)),
            all_wf(chosen@),
    {
        let n = self.len();
        let ghost pred = among(releases(containers@));
        let ghost all = seq![Release::dev()] + self@;
        let mut chosen: Vec<WildFlyContainer> = Vec::new();
        let dev = WildFlyContainer::dev();
        proof {
            assert(all.take(1) =~= Seq::<Release>::empty().push(Release::dev()));
            assert(Seq::<Release>::empty().filter(pred) =~= Seq::<Release>::empty()) by {
                reveal(Seq::filter);
            }
            Seq::<Release>::empty().lemma_filter_push(Release::dev(), pred);
        }
        if is_among(&dev, containers) {
            chosen.push(dev);
            assert(releases(chosen@) =~= Seq::<Release>::empty().push(Release::dev()));
        } else {
            assert(releases(chosen@) =~= Seq::<Release>::empty());
        }
        let mut i: usize = 0;
        while i < n
            invariant
                n == self@.len(),
                i <= n,
                pred == among(releases(containers@)),
                all == seq![Release::dev()] + self@,
                releases(chosen@) == all.take(i + 1).filter(pred),
                all_wf(chosen@),
            decreases n - i,
        {
            let entry = self.get(i);
            let ghost before = releases(chosen@);
            proof {
                assert(all.take(i + 2) =~= all.take(i + 1).push(self@[i as int]));
                all.take(i + 1).lemma_filter_push(self@[i as int], pred);
            }
            if is_among(entry, containers) {
                chosen.push(entry.clone());
                assert(releases(chosen@) =~= before.push(self@[i as int]));
            }
            i += 1;
        }
        proof {
            assert(all.take(n + 1) =~= all);
        }
        chosen
    }

    /// Resolves one segment of an enumeration.
    pub fn segment(&self, segment: &str) -> (resolved: Result<Vec<WildFlyContainer>, ResolveError>)
        ensures
            match resolved {
                Ok(containers) => resolve_segment(self@, segment@) == Ok::<Seq<Release>, Failure>(
                    releases(containers@),
                ) && all_wf(containers@),
                Err(error) => resolve_segment(self@, segment@) == Err::<Seq<Release>, Failure>(
                    error@,
                ),
            },
    {
        if is_blank_text(segment) {
            Err(ResolveError::EmptyOrUnparsableSegment(String::from_str(segment)))
        } else if contains_text(segment, "..") {
            self.range(segment)
        } else {
            self.versions(segment)
        }
    }

    /// Turns an enumeration of versions like `3x10,23..26,5x28,34,dev` into the
    /// releases that it names: in ascending order of identifiers, each release
    /// once. Every segment is tried; where one or more fail, the errors of all
    /// that failed are returned.
    pub fn enumeration(&self, enumeration: &str) -> (resolved: Result<
        Vec<WildFlyContainer>,
        EnumerationError,
    >)
        ensures
            match resolved {
                Ok(containers) => resolve_enumeration(self@, enumeration@) == Ok::<
                    Seq<Release>,
                    Seq<Failure>,
                >(releases(containers@)) && all_wf(containers@),
                Err(error) => resolve_enumeration(self@, enumeration@) == Err::<
                    Seq<Release>,
                    Seq<Failure>,
                >(error@) && error@.len() > 0,
            },
    {
        let segments = split_text(enumeration, ",");
        let n = segments.len();
        let ghost segs = texts(segments@);
        let mut found: Vec<WildFlyContainer> = Vec::new();
        let mut errors: Vec<ResolveError> = Vec::new();
        let mut i: usize = 0;
        proof {
            assert(segs.take(0) =~= Seq::<Seq<char>>::empty());
            assert(releases(found@) =~= Seq::<Release>::empty());
            assert(failures(errors@) =~= Seq::<Failure>::empty());
        }
        while i < n
            invariant
                n == segments.len(),
                segs == texts(segments@),
                i <= n,
                releases(found@) == named(self@, segs.take(i as int)),
                failures(errors@) == failed(self@, segs.take(i as int)),
                all_wf(found@),
            decreases n - i,
        {
            let ghost before = releases(found@);
            let ghost old_found = found@;
            let ghost old_failures = failures(errors@);
            proof {
                assert(segs.take(i + 1).drop_last() =~= segs.take(i as int));
                assert(segs.take(i + 1).last() == segments@[i as int]@);
            }
            match self.segment(segments[i]) {
                Ok(containers) => {
                    let mut containers = containers;
                    let ghost added = containers@;
                    found.append(&mut containers);
                    proof {
                        assert(releases(found@) =~= before + releases(added));
                        assert forall|j: int| 0 <= j < found@.len() implies (
                        #[trigger] found@[j]).wf() by {
                            if j < old_found.len() {
                                assert(old_found[j].wf());
                            } else {
                                assert(added[j - old_found.len()].wf());
                            }
                        }
                    }
                },
                Err(error) => {
                    let ghost failure = error@;
                    errors.push(error);
                    proof {
                        assert(failures(errors@) =~= old_failures.push(failure));
                    }
                },
            }
            i += 1;
        }
        proof {
            assert(segs.take(n as int) =~= segs);
        }
        if errors.len() == 0 {
            Ok(self.select(&found))
        } else {
            Err(EnumerationError { errors })
        }
    }
}

} // verus!
