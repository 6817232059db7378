//! The catalog: the known releases, ordered by identifier.

use crate::container::{all_wf, releases, Release, WildFlyContainer};
use crate::decimal::{decimal_string, decimal_text};
use crate::error::{Failure, ResolveError};
use vstd::prelude::*;

verus! {

/// The identifiers of `rs` ascend strictly.
pub open spec fn ascending(rs: Seq<Release>) -> bool {
    forall|i: int, j: int|
        0 <= i < j < rs.len() ==> (#[trigger] rs[i]).identifier < (#[trigger] rs[j]).identifier
}

/// What every catalog is: not empty, each release well formed and none the
/// development build, identifiers strictly ascending.
pub open spec fn valid_catalog(c: Seq<Release>) -> bool {
    &&& c.len() > 0
    &&& forall|i: int| 0 <= i < c.len() ==> (#[trigger] c[i]).wf() && c[i].identifier > 0
    &&& ascending(c)
}

/// The catalog holds a release with this identifier.
pub open spec fn holds(c: Seq<Release>, identifier: int) -> bool {
    exists|i: int| 0 <= i < c.len() && (#[trigger] c[i]).identifier == identifier
}

/// The release with this identifier; meaningful where the catalog holds one.
pub open spec fn entry(c: Seq<Release>, identifier: int) -> Release {
    c[choose|i: int| 0 <= i < c.len() && (#[trigger] c[i]).identifier == identifier]
}

/// The releases whose identifier is from `from` to `to`, both included.
pub open spec fn in_span(from: int, to: int) -> spec_fn(Release) -> bool {
    |r: Release| from <= r.identifier <= to
}

/// The releases of the catalog from identifier `from` to identifier `to`, both
/// included, in the order of the catalog.
pub open spec fn between(c: Seq<Release>, from: int, to: int) -> Seq<Release> {
    c.filter(in_span(from, to))
}

/// The release with this identifier, or the failure of an identifier that the
/// catalog does not hold, which names the identifier in decimal.
pub open spec fn lookup_in(c: Seq<Release>, identifier: int) -> Result<Release, Failure> {
    if holds(c, identifier) {
        Ok(entry(c, identifier))
    } else {
        Err(Failure::UnknownVersion(decimal_text(identifier as nat)))
    }
}

/// In a valid catalog the release at an index is the entry of its identifier.
pub proof fn lemma_entry_at(c: Seq<Release>, i: int)
    requires
        valid_catalog(c),
        0 <= i < c.len(),
    ensures
        holds(c, c[i].identifier),
        entry(c, c[i].identifier) == c[i],
{
    let id = c[i].identifier;
    let j = choose|j: int| 0 <= j < c.len() && (#[trigger] c[j]).identifier == id;
    if j < i {
        assert(c[j].identifier < c[i].identifier);
    }
    if i < j {
        assert(c[i].identifier < c[j].identifier);
    }
}

/// What is kept of an ascending sequence is ascending.
pub proof fn lemma_filter_ascending(rs: Seq<Release>, pred: spec_fn(Release) -> bool)
    requires
        ascending(rs),
    ensures
        ascending(rs.filter(pred)),
    decreases rs.len(),
{
    reveal(Seq::filter);
    if rs.len() > 0 {
        let front = rs.drop_last();
        let kept = front.filter(pred);
        assert(ascending(front)) by {
            assert forall|i: int, j: int| 0 <= i < j < front.len() implies (
            #[trigger] front[i]).identifier < (#[trigger] front[j]).identifier by {
                assert(rs[i].identifier < rs[j].identifier);
            }
        }
        lemma_filter_ascending(front, pred);
        if pred(rs.last()) {
            let out = kept.push(rs.last());
            assert forall|i: int, j: int| 0 <= i < j < out.len() implies (
            #[trigger] out[i]).identifier < (#[trigger] out[j]).identifier by {
                if j < kept.len() {
                    assert(kept[i].identifier < kept[j].identifier);
                } else {
                    assert(kept.contains(kept[i]));
                    front.lemma_filter_contains_rev(pred, kept[i]);
                    let k = choose|k: int| 0 <= k < front.len() && front[k] == kept[i];
                    assert(rs[k].identifier < rs[rs.len() - 1].identifier);
                }
            }
        }
    }
}

/// A sequence of which everything is kept stays as it is.
pub proof fn lemma_filter_all(rs: Seq<Release>, pred: spec_fn(Release) -> bool)
    requires
        forall|i: int| 0 <= i < rs.len() ==> pred(#[trigger] rs[i]),
    ensures
        rs.filter(pred) == rs,
    decreases rs.len(),
{
    reveal(Seq::filter);
    if rs.len() > 0 {
        let front = rs.drop_last();
        assert forall|i: int| 0 <= i < front.len() implies pred(#[trigger] front[i]) by {
            assert(pred(rs[i]));
        }
        lemma_filter_all(front, pred);
        assert(pred(rs[rs.len() - 1]));
        assert(front.push(rs.last()) =~= rs);
    }
}

/// The span between two identifiers in a valid catalog: ascending, within the
/// two identifiers, and holding every release of the catalog that lies within.
pub proof fn lemma_between(c: Seq<Release>, from: int, to: int)
    requires
        valid_catalog(c),
    ensures
        ascending(between(c, from, to)),
        forall|k: int|
            0 <= k < between(c, from, to).len() ==> from <= (#[trigger] between(
                c,
                from,
                to,
            )[k]).identifier <= to && c.contains(between(c, from, to)[k]),
        forall|i: int|
            0 <= i < c.len() && from <= (#[trigger] c[i]).identifier <= to ==> between(
                c,
                from,
                to,
            ).contains(c[i]),
{
    let pred = in_span(from, to);
    let span = c.filter(pred);
    lemma_filter_ascending(c, pred);
    assert forall|k: int| 0 <= k < span.len() implies from <= (#[trigger] span[k]).identifier
        <= to && c.contains(span[k]) by {
        c.lemma_filter_pred(pred, k);
        assert(span.contains(span[k]));
        c.lemma_filter_contains_rev(pred, span[k]);
    }
    assert forall|i: int| 0 <= i < c.len() && from <= (#[trigger] c[i]).identifier
        <= to implies span.contains(c[i]) by {
        assert(pred(c[i]));
        c.lemma_filter_contains(pred, i);
    }
}

/// The span from an identifier of the catalog to itself is its one release.
pub proof fn lemma_between_one(c: Seq<Release>, identifier: int)
    requires
        valid_catalog(c),
        holds(c, identifier),
    ensures
        between(c, identifier, identifier) == seq![entry(c, identifier)],
{
    let span = between(c, identifier, identifier);
    lemma_between(c, identifier, identifier);
    let i = choose|i: int| 0 <= i < c.len() && (#[trigger] c[i]).identifier == identifier;
    assert(span.contains(c[i]));
    let k = choose|k: int| 0 <= k < span.len() && span[k] == c[i];
    if span.len() > 1 {
        assert(span[0].identifier < span[1].identifier);
    }
    assert(span =~= seq![entry(c, identifier)]);
}

/// The span from the first identifier of a valid catalog to its last is the catalog.
pub proof fn lemma_between_all(c: Seq<Release>)
    requires
        valid_catalog(c),
    ensures
        between(c, c.first().identifier, c.last().identifier) == c,
{
    let pred = in_span(c.first().identifier, c.last().identifier);
    assert forall|i: int| 0 <= i < c.len() implies pred(#[trigger] c[i]) by {
        if 0 < i {
            assert(c[0].identifier < c[i].identifier);
        }
        if i < c.len() - 1 {
            assert(c[i].identifier < c[c.len() - 1].identifier);
        }
    }
    lemma_filter_all(c, pred);
}

/// The known releases.
pub struct Catalog {
    entries: Vec<WildFlyContainer>,
}

impl View for Catalog {
    type V = Seq<Release>;

    closed spec fn view(&self) -> Seq<Release> {
        releases(self.entries@)
    }
}

impl Catalog {
    /// A catalog is always valid.
    #[verifier::type_invariant]
    pub open spec fn inv(&self) -> bool {
        valid_catalog(self@)
    }

    /// The catalog of these releases, where they make a valid one.
    pub fn from_entries(entries: Vec<WildFlyContainer>) -> (made: Option<Catalog>)
        ensures
            made is Some <==> valid_catalog(releases(entries@)),
            made matches Some(catalog) ==> catalog@ == releases(entries@),
    {
        let n = entries.len();
        let ghost c = releases(entries@);
        if n == 0 {
            return None;
        }
        let mut i: usize = 0;
        while i < n
            invariant
                n == entries.len(),
                c == releases(entries@),
                i <= n,
                forall|j: int| 0 <= j < i ==> (#[trigger] c[j]).wf() && c[j].identifier > 0,
                forall|j: int| 0 < j < i ==> (#[trigger] c[j - 1]).identifier < c[j].identifier,
            decreases n - i,
        {
            if !entries[i].is_well_formed() || entries[i].identifier == 0 {
                proof {
                    assert(!(c[i as int].wf() && c[i as int].identifier > 0));
                }
                return None;
            }
            if i > 0 && entries[i - 1].identifier >= entries[i].identifier {
                proof {
                    assert(c[i - 1].identifier >= c[i as int].identifier);
                }
                return None;
            }
            i += 1;
        }
        proof {
            lemma_ascending(c);
        }
        Some(Catalog { entries })
    }

    /// The catalog of these releases, which make a valid one.
    pub(crate) fn of_valid(entries: Vec<WildFlyContainer>) -> (catalog: Catalog)
        requires
            valid_catalog(releases(entries@)),
        ensures
            catalog@ == releases(entries@),
    {
        Catalog { entries }
    }

    /// How many releases the catalog holds.
    pub fn len(&self) -> (n: usize)
        ensures
            n == self@.len(),
            n > 0,
    {
        proof {
            use_type_invariant(self);
        }
        self.entries.len()
    }

    /// The release at an index, in ascending order of identifiers.
    pub fn get(&self, index: usize) -> (found: &WildFlyContainer)
        requires
            index < self@.len(),
        ensures
            found@ == self@[index as int],
            found.wf(),
    {
        proof {
            use_type_invariant(self);
            assert(self@[index as int].wf());
        }
        &self.entries[index]
    }

    /// Where the release with this identifier stands.
    pub fn position(&self, identifier: u16) -> (found: Option<usize>)
        ensures
            found is Some <==> holds(self@, identifier as int),
            found matches Some(i) ==> i < self@.len() && self@[i as int] == entry(
                self@,
                identifier as int,
            ),
    {
        proof {
            use_type_invariant(self);
        }
        let mut low: usize = 0;
        let mut high: usize = self.entries.len();
        while low < high
            invariant
                low <= high <= self.entries.len(),
                valid_catalog(self@),
                forall|j: int| 0 <= j < low ==> (#[trigger] self@[j]).identifier < identifier,
                forall|j: int|
                    high <= j < self@.len() ==> (#[trigger] self@[j]).identifier > identifier,
            decreases high - low,
        {
            let middle = low + (high - low) / 2;
            let found = self.entries[middle].identifier;
            proof {
                assert(self@[middle as int].identifier == found);
                assert forall|j: int| 0 <= j < middle implies (#[trigger] self@[j]).identifier
                    < found by {
                    assert(self@[j].identifier < self@[middle as int].identifier);
                }
                assert forall|j: int| middle < j < self@.len() implies (
                #[trigger] self@[j]).identifier > found by {
                    assert(self@[middle as int].identifier < self@[j].identifier);
                }
            }
            if found == identifier {
                proof {
                    lemma_entry_at(self@, middle as int);
                }
                return Some(middle);
            } else if found < identifier {
                low = middle + 1;
            } else {
                high = middle;
            }
        }
        None
    }

    /// The release with this identifier.
    pub fn lookup(&self, identifier: u16) -> (found: Result<WildFlyContainer, ResolveError>)
        ensures
            match found {
                Ok(container) => lookup_in(self@, identifier as int) == Ok::<Release, Failure>(
                    container@,
                ) && container.wf(),
                Err(error) => lookup_in(self@, identifier as int) == Err::<Release, Failure>(
                    error@,
                ),
            },
    {
        match self.position(identifier) {
            Some(i) => Ok(self.get(i).clone()),
            None => Err(ResolveError::UnknownVersion(decimal_string(identifier as u64))),
        }
    }

    /// The release with the lowest identifier.
    pub fn first(&self) -> (found: WildFlyContainer)
        ensures
            found@ == self@.first(),
            found.wf(),
    {
        proof {
            use_type_invariant(self);
            assert(self@[0].wf());
        }
        self.entries[0].clone()
    }

    /// The release with the highest identifier.
    pub fn last(&self) -> (found: WildFlyContainer)
        ensures
            found@ == self@.last(),
            found.wf(),
    {
        proof {
            use_type_invariant(self);
            assert(self@[self@.len() - 1].wf());
        }
        self.entries[self.entries.len() - 1].clone()
    }

    /// The releases from identifier `from` to identifier `to`, both included, in
    /// ascending order.
    pub fn range_inclusive(&self, from: u16, to: u16) -> (span: Vec<WildFlyContainer>)
        ensures
            releases(span@) == between(self@, from as int, to as int),
            all_wf(span@),
    {
        proof {
            use_type_invariant(self);
        }
        let n = self.entries.len();
        let ghost pred = in_span(from as int, to as int);
        let mut span: Vec<WildFlyContainer> = Vec::new();
        let mut i: usize = 0;
        proof {
            assert(self@.take(0) =~= Seq::<Release>::empty());
            assert(self@.take(0).filter(pred) =~= Seq::<Release>::empty()) by {
                reveal(Seq::filter);
            }
            assert(releases(span@) =~= Seq::<Release>::empty());
        }
        while i < n
            invariant
                n == self.entries.len(),
                i <= n,
                valid_catalog(self@),
                pred == in_span(from as int, to as int),
                releases(span@) == self@.take(i as int).filter(pred),
                all_wf(span@),
            decreases n - i,
        {
            let entry = &self.entries[i];
            let ghost before = releases(span@);
            proof {
                assert(self@.take(i + 1) =~= self@.take(i as int).push(self@[i as int]));
                self@.take(i as int).lemma_filter_push(self@[i as int], pred);
                assert(pred(self@[i as int]) == (from <= entry.identifier <= to));
            }
            if from <= entry.identifier && entry.identifier <= to {
                span.push(entry.clone());
                proof {
                    assert(releases(span@) =~= before.push(self@[i as int]));
                    assert(self@[i as int].wf());
                }
            }
            i += 1;
        }
        proof {
            assert(self@.take(n as int) =~= self@);
        }
        span
    }
}

/// Neighbours in ascending order make the whole sequence ascending.
proof fn lemma_ascending(c: Seq<Release>)
    requires
        forall|j: int| 0 < j < c.len() ==> (#[trigger] c[j - 1]).identifier < c[j].identifier,
    ensures
        ascending(c),
{
    assert forall|i: int, j: int| 0 <= i < j < c.len() implies (#[trigger] c[i]).identifier < (
    #[trigger] c[j]).identifier by {
        lemma_ascending_pair(c, i, j);
    }
}

proof fn lemma_ascending_pair(c: Seq<Release>, i: int, j: int)
    requires
        forall|j: int| 0 < j < c.len() ==> (#[trigger] c[j - 1]).identifier < c[j].identifier,
        0 <= i < j < c.len(),
    ensures
        c[i].identifier < c[j].identifier,
    decreases j - i,
{
    if j - 1 > i {
        lemma_ascending_pair(c, i, j - 1);
    }
    assert(c[j - 1].identifier < c[j].identifier);
}

} // verus!
