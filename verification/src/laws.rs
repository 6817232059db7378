//! What holds of every catalog and every expression.

use crate::catalog::{
    ascending, between, entry, holds, lemma_between, lemma_between_all, lemma_between_one,
    lemma_filter_ascending, valid_catalog,
};
use crate::container::{identifier_of, Release};
use crate::decimal::{all_digits, decimal_text, decimal_value, digit_char, is_digit};
use crate::enumeration::{
    among, comma, failed, is_blank, is_space, named, resolve_enumeration, resolve_segment,
};
use crate::error::{Endpoint, Failure};
use crate::range::{
    is_development, lemma_range_sign_at, lemma_repeat_each_len, lemma_repeat_each_once,
    range_sign, repeat_each, resolve_endpoint, resolve_range, resolve_span,
};
use crate::text::{
    first_occurrence, lemma_first_occurrence_exists, lemma_split_at, lemma_split_pair,
    lemma_split_two, occurs, occurs_at, split,
};
use crate::token::{
    dev_word, lemma_times_sign_at, multiplier_of, repeated, resolve_version, times_sign,
    version_identifier,
};
use vstd::prelude::*;

verus! {

/// Identifiers order releases as their versions do: by the major version, and
/// among equal major versions by the minor version, as long as the minor
/// version is a single digit.
pub proof fn law_identifier_order(major: int, minor: int, other_major: int, other_minor: int)
    requires
        0 <= minor <= 9,
        0 <= other_minor <= 9,
    ensures
        identifier_of(major, minor) < identifier_of(other_major, other_minor) <==> (major
            < other_major || (major == other_major && minor < other_minor)),
        identifier_of(major, minor) == identifier_of(other_major, other_minor) <==> (major
            == other_major && minor == other_minor),
{
}

/// The identifier is the key of the catalog: releases of a valid catalog with
/// the same identifier are the same release, and none is the development build.
pub proof fn law_identifier_is_key(c: Seq<Release>, i: int, j: int)
    requires
        valid_catalog(c),
        0 <= i < c.len(),
        0 <= j < c.len(),
        c[i].identifier == c[j].identifier,
    ensures
        i == j,
        c[i] == c[j],
        c[i] != Release::dev(),
{
    if i < j {
        assert(c[i].identifier < c[j].identifier);
    }
    if j < i {
        assert(c[j].identifier < c[i].identifier);
    }
}

/// A number written in decimal is a run of digits, not empty, that reads back
/// as the number.
pub proof fn law_decimal_round_trip(n: nat)
    ensures
        decimal_text(n).len() > 0,
        all_digits(decimal_text(n)),
        decimal_value(decimal_text(n)) == n,
    decreases n,
{
    if n < 10 {
        let t = decimal_text(n);
        assert(t.drop_last() =~= Seq::<char>::empty());
        assert(decimal_value(t.drop_last()) == 0);
        assert(digit_char(n) as int == n + 48);
    } else {
        law_decimal_round_trip(n / 10);
        let t = decimal_text(n);
        assert(t.drop_last() =~= decimal_text(n / 10));
        assert(digit_char(n % 10) as int == n % 10 + 48);
    }
}

/// A major version alone names the release that it names with `.0` behind it:
/// both resolve or neither does, and if they do, to the same release.
pub proof fn law_minor_zero(c: Seq<Release>, tens: char, ones: char)
    requires
        is_digit(tens),
        is_digit(ones),
    ensures
        resolve_version(c, seq![tens, ones]) is Ok <==> resolve_version(
            c,
            seq![tens, ones, '.', '0'],
        ) is Ok,
        resolve_version(c, seq![tens, ones]) matches Ok(r) ==> resolve_version(
            c,
            seq![tens, ones, '.', '0'],
        ) == Ok::<Release, Failure>(r),
{
    reveal_strlit("dev");
    let short = seq![tens, ones];
    let long = seq![tens, ones, '.', '0'];
    assert(short.len() != dev_word().len());
    assert(long.len() != dev_word().len());
    assert(version_identifier(short) == version_identifier(long));
}

/// `dev` always resolves, to the development build, whose identifier is below
/// that of every release of the catalog.
pub proof fn law_dev_below_catalog(c: Seq<Release>, i: int)
    requires
        valid_catalog(c),
        0 <= i < c.len(),
    ensures
        resolve_version(c, dev_word()) == Ok::<Release, Failure>(Release::dev()),
        Release::dev().identifier < c[i].identifier,
{
}

/// The span between two identifiers, the first not above the second, ascends
/// strictly. Where the catalog holds the first identifier, the span starts
/// with it; where it holds the second, the span ends with it.
pub proof fn law_range_inclusive(c: Seq<Release>, from: int, to: int)
    requires
        valid_catalog(c),
        from <= to,
    ensures
        ascending(between(c, from, to)),
        holds(c, from) ==> between(c, from, to).len() > 0 && between(
            c,
            from,
            to,
        ).first().identifier == from,
        holds(c, to) ==> between(c, from, to).len() > 0 && between(c, from, to).last().identifier
            == to,
{
    let span = between(c, from, to);
    lemma_between(c, from, to);
    if holds(c, from) {
        let i = choose|i: int| 0 <= i < c.len() && (#[trigger] c[i]).identifier == from;
        assert(span.contains(c[i]));
        let k = choose|k: int| 0 <= k < span.len() && span[k] == c[i];
        if 0 < k {
            assert(span[0].identifier < span[k].identifier);
        }
        assert(from <= span[0].identifier);
    }
    if holds(c, to) {
        let i = choose|i: int| 0 <= i < c.len() && (#[trigger] c[i]).identifier == to;
        assert(span.contains(c[i]));
        let k = choose|k: int| 0 <= k < span.len() && span[k] == c[i];
        if k < span.len() - 1 {
            assert(span[k].identifier < span[span.len() - 1].identifier);
        }
        assert(span[span.len() - 1].identifier <= to);
    }
}

/// Repeating each release `count` times puts the release of index `k / count`
/// at index `k`.
pub proof fn law_repeat_each_index(rs: Seq<Release>, count: int, k: int)
    requires
        count > 0,
        0 <= k < rs.len() * count,
    ensures
        repeat_each(rs, count).len() == rs.len() * count,
        0 <= k / count < rs.len(),
        repeat_each(rs, count)[k] == rs[k / count],
    decreases rs.len(),
{
    lemma_repeat_each_len(rs, count);
    if rs.len() > 0 {
        let n = rs.len() as int;
        let front = repeat_each(rs.drop_last(), count);
        lemma_repeat_each_len(rs.drop_last(), count);
        if k < (n - 1) * count {
            law_repeat_each_index(rs.drop_last(), count, k);
        } else {
            assert(k / count == n - 1) by (nonlinear_arith)
                requires
                    count > 0,
                    (n - 1) * count <= k < n * count,
            ;
            assert(repeated(rs.last(), count)[k - front.len()] == rs.last());
        }
    } else {
        assert(rs.len() * count == 0) by (nonlinear_arith)
            requires
                rs.len() == 0,
        ;
    }
}

/// An end of a range that is left empty or is a numbered version.
pub open spec fn is_plain_end(s: Seq<char>) -> bool {
    s.len() == 0 || version_identifier(s) is Some
}

/// A range of two plain ends has no repeat count, splits into its two ends,
/// and neither end names the development build.
pub proof fn lemma_plain_range(a: Seq<char>, b: Seq<char>)
    requires
        is_plain_end(a),
        is_plain_end(b),
    ensures
        multiplier_of(a + range_sign() + b) == Some((1int, a + range_sign() + b)),
        split(a + range_sign() + b, range_sign()) == seq![a, b],
        !is_development(a),
        !is_development(b),
{
    reveal_strlit("..");
    reveal_strlit("dev");
    reveal_strlit("development");
    let s = a + range_sign() + b;
    assert forall|i: int| !occurs_at(s, times_sign(), i) by {
        lemma_times_sign_at(s, i);
        if 0 <= i < s.len() {
            if i < a.len() {
                assert(s[i] == a[i]);
            } else if i < a.len() + 2 {
                assert(s[i] == range_sign()[i - a.len()]);
            } else {
                assert(s[i] == b[i - a.len() - 2]);
            }
        }
    }
    assert forall|j: int| 0 <= j < a.len() implies !occurs_at(s, range_sign(), j) by {
        lemma_range_sign_at(s, j);
        assert(s[j] == a[j]);
        if j + 1 < a.len() {
            assert(s[j + 1] == a[j + 1]);
        }
    }
    assert forall|j: int| !occurs_at(b, range_sign(), j) by {
        lemma_range_sign_at(b, j);
    }
    lemma_split_two(a, range_sign(), b);
    if a.len() > 0 {
        assert(a[0] != dev_word()[0]);
    }
    if b.len() > 0 {
        assert(b[0] != dev_word()[0]);
    }
}

/// The range from a version of the catalog to the same version names that one
/// release, once.
pub proof fn law_range_of_one(c: Seq<Release>, x: Seq<char>)
    requires
        valid_catalog(c),
        x != dev_word(),
        resolve_version(c, x) is Ok,
    ensures
        resolve_range(c, x + range_sign() + x) == Ok::<Seq<Release>, Failure>(
            seq![resolve_version(c, x)->Ok_0],
        ),
{
    let id = version_identifier(x)->Some_0;
    let r = entry(c, id);
    lemma_plain_range(x, x);
    lemma_between_one(c, id);
    lemma_repeat_each_once(seq![r]);
    assert(resolve_endpoint(c, Endpoint::From, x) == Ok::<Release, Failure>(r));
    assert(resolve_endpoint(c, Endpoint::To, x) == Ok::<Release, Failure>(r));
    let i = choose|i: int| 0 <= i < c.len() && (#[trigger] c[i]).identifier == id;
    assert(r.identifier == id);
    assert(resolve_span(c, r, r, 1) == Ok::<Seq<Release>, Failure>(seq![r]));
}

/// A range from a version of the catalog to one that stands before it fails
/// as a descending range, with the identifiers of the two.
pub proof fn law_descending_range(c: Seq<Release>, a: Seq<char>, b: Seq<char>)
    requires
        valid_catalog(c),
        a != dev_word(),
        b != dev_word(),
        resolve_version(c, a) is Ok,
        resolve_version(c, b) is Ok,
        resolve_version(c, a)->Ok_0.identifier > resolve_version(c, b)->Ok_0.identifier,
    ensures
        resolve_range(c, a + range_sign() + b) == Err::<Seq<Release>, Failure>(
            Failure::RangeDescending(
                resolve_version(c, a)->Ok_0.identifier,
                resolve_version(c, b)->Ok_0.identifier,
            ),
        ),
{
    lemma_plain_range(a, b);
    assert(resolve_endpoint(c, Endpoint::From, a) == resolve_version(c, a));
    assert(resolve_endpoint(c, Endpoint::To, b) == resolve_version(c, b));
}

/// The range `..` names the whole catalog, in its order.
pub proof fn law_open_range(c: Seq<Release>)
    requires
        valid_catalog(c),
    ensures
        resolve_range(c, range_sign()) == Ok::<Seq<Release>, Failure>(c),
{
    let none = Seq::<char>::empty();
    lemma_plain_range(none, none);
    assert(none + range_sign() + none =~= range_sign());
    lemma_between_all(c);
    lemma_repeat_each_once(c);
    if c.len() > 1 {
        assert(c[0].identifier < c[c.len() - 1].identifier);
    }
}

/// `s` ends with `..dev`.
pub open spec fn ends_with_dev(s: Seq<char>) -> bool {
    &&& s.len() >= 5
    &&& s[s.len() - 5] == '.'
    &&& s[s.len() - 4] == '.'
    &&& s[s.len() - 3] == 'd'
    &&& s[s.len() - 2] == 'e'
    &&& s[s.len() - 1] == 'v'
}

/// A range whose text after the repeat count ends with `..dev` fails.
proof fn lemma_range_to_dev(c: Seq<Release>, s: Seq<char>)
    requires
        multiplier_of(s) is Some,
        ends_with_dev(multiplier_of(s)->Some_0.1),
    ensures
        resolve_range(c, s) is Err,
{
    reveal_strlit("dev");
    let rest = multiplier_of(s)->Some_0.1;
    let parts = split(rest, range_sign());
    reveal_strlit("..");
    if parts.len() == 2 {
        lemma_split_pair(rest, range_sign());
        let i = first_occurrence(rest, range_sign());
        lemma_range_sign_at(rest, rest.len() - 5);
        assert(i <= rest.len() - 5);
        let tail = parts[1];
        assert(tail.len() >= 3);
        assert(tail[tail.len() - 1] == rest[rest.len() - 1]);
        assert(version_identifier(tail) is None);
    }
}

/// A range that starts with `dev..` fails.
proof fn lemma_range_from_dev(c: Seq<Release>, x: Seq<char>)
    ensures
        resolve_range(c, dev_word() + range_sign() + x) is Err,
{
    reveal_strlit("dev");
    reveal_strlit("..");
    reveal_strlit("x");
    let s = dev_word() + range_sign() + x;
    assert(s[0] == 'd' && s[1] == 'e' && s[2] == 'v' && s[3] == '.' && s[4] == '.');
    if occurs(s, times_sign()) {
        lemma_first_occurrence_exists(s, times_sign());
        let k = first_occurrence(s, times_sign());
        lemma_times_sign_at(s, k);
        let parts = split(s, times_sign());
        assert(parts[0] == s.subrange(0, k));
        assert(k > 0);
        assert(parts[0][0] == 'd');
    } else {
        assert forall|j: int| 0 <= j < 3 implies !occurs_at(s, range_sign(), j) by {
            lemma_range_sign_at(s, j);
        }
        lemma_range_sign_at(s, 3);
        lemma_split_at(s, range_sign(), 3);
        assert(s.subrange(0, 3) =~= dev_word());
        let parts = split(s, range_sign());
        assert(parts[0] == dev_word());
    }
}

/// The development build cannot be an end of a range: a range from `dev`, a
/// range to `dev` and the range from `dev` to `dev` all fail, whatever stands
/// at the other end.
pub proof fn law_dev_range_fails(c: Seq<Release>, x: Seq<char>)
    ensures
        resolve_range(c, dev_word() + range_sign() + x) is Err,
        resolve_range(c, x + range_sign() + dev_word()) is Err,
        resolve_range(c, dev_word() + range_sign() + dev_word()) is Err,
{
    lemma_range_from_dev(c, x);
    lemma_range_from_dev(c, dev_word());
    reveal_strlit("dev");
    reveal_strlit("..");
    reveal_strlit("x");
    let s = x + range_sign() + dev_word();
    let n = s.len() as int;
    assert(s[n - 5] == range_sign()[0] && s[n - 4] == range_sign()[1]);
    assert(s[n - 3] == dev_word()[0] && s[n - 2] == dev_word()[1] && s[n - 1] == dev_word()[2]);
    assert(ends_with_dev(s));
    if multiplier_of(s) is Some {
        if occurs(s, times_sign()) {
            lemma_split_pair(s, times_sign());
            let k = first_occurrence(s, times_sign());
            lemma_times_sign_at(s, k);
            assert(k < n - 5);
            let rest = split(s, times_sign())[1];
            assert(rest == s.subrange(k + 1, n));
            assert(ends_with_dev(rest));
        }
        lemma_range_to_dev(c, s);
    }
}

/// The development build and the releases of the catalog `c`, in this order.
pub open spec fn known(c: Seq<Release>) -> Seq<Release> {
    seq![Release::dev()] + c
}

/// Repeating releases brings in no other release.
proof fn lemma_repeat_each_members(rs: Seq<Release>, count: int, k: int)
    requires
        0 <= k < repeat_each(rs, count).len(),
    ensures
        rs.contains(repeat_each(rs, count)[k]),
    decreases rs.len(),
{
    if rs.len() > 0 {
        let front = repeat_each(rs.drop_last(), count);
        if k < front.len() {
            lemma_repeat_each_members(rs.drop_last(), count, k);
            let j = choose|j: int|
                0 <= j < rs.drop_last().len() && rs.drop_last()[j] == front[k];
            assert(rs[j] == front[k]);
        } else {
            assert(repeat_each(rs, count)[k] == rs[rs.len() - 1]);
        }
    }
}

/// What a segment names is the development build or stands in the catalog.
proof fn lemma_segment_known(c: Seq<Release>, segment: Seq<char>, k: int)
    requires
        valid_catalog(c),
        resolve_segment(c, segment) is Ok,
        0 <= k < resolve_segment(c, segment)->Ok_0.len(),
    ensures
        known(c).contains(resolve_segment(c, segment)->Ok_0[k]),
{
    let rs = resolve_segment(c, segment)->Ok_0;
    let r = rs[k];
    assert(known(c)[0] == Release::dev());
    if occurs(segment, range_sign()) {
        let (count, rest) = multiplier_of(segment)->Some_0;
        let parts = split(rest, range_sign());
        let from = resolve_endpoint(c, Endpoint::From, parts[0])->Ok_0;
        let to = resolve_endpoint(c, Endpoint::To, parts[1])->Ok_0;
        let span = between(c, from.identifier, to.identifier);
        lemma_repeat_each_members(span, count, k);
        let j = choose|j: int| 0 <= j < span.len() && span[j] == r;
        lemma_between(c, from.identifier, to.identifier);
        assert(c.contains(span[j]));
        let i = choose|i: int| 0 <= i < c.len() && c[i] == r;
        assert(known(c)[i + 1] == r);
    } else {
        let (count, rest) = multiplier_of(segment)->Some_0;
        let found = resolve_version(c, rest)->Ok_0;
        assert(r == found);
        if rest != dev_word() {
            let id = version_identifier(rest)->Some_0;
            let i = choose|i: int| 0 <= i < c.len() && (#[trigger] c[i]).identifier == id;
            assert(known(c)[i + 1] == r);
        }
    }
}

/// What the segments name is the development build or stands in the catalog.
proof fn lemma_named_known(c: Seq<Release>, segments: Seq<Seq<char>>, k: int)
    requires
        valid_catalog(c),
        0 <= k < named(c, segments).len(),
    ensures
        known(c).contains(named(c, segments)[k]),
    decreases segments.len(),
{
    if segments.len() > 0 {
        let before = named(c, segments.drop_last());
        if k < before.len() {
            lemma_named_known(c, segments.drop_last(), k);
        } else {
            lemma_segment_known(c, segments.last(), k - before.len());
        }
    }
}

/// An enumeration that resolves names its releases in strictly ascending
/// order of identifiers, the development build first: each release that a
/// segment names, once, and no other.
pub proof fn law_enumeration_ascending(c: Seq<Release>, s: Seq<char>)
    requires
        valid_catalog(c),
        resolve_enumeration(c, s) is Ok,
    ensures
        ascending(resolve_enumeration(c, s)->Ok_0),
        forall|r: Release|
            resolve_enumeration(c, s)->Ok_0.contains(r) <==> named(c, split(s, comma())).contains(
                r,
            ),
{
    let wanted = named(c, split(s, comma()));
    let chosen = resolve_enumeration(c, s)->Ok_0;
    let all = known(c);
    assert(chosen == all.filter(among(wanted)));
    assert(ascending(all)) by {
        assert forall|i: int, j: int| 0 <= i < j < all.len() implies (
        #[trigger] all[i]).identifier < (#[trigger] all[j]).identifier by {
            assert(all[j] == c[j - 1]);
            if i > 0 {
                assert(all[i] == c[i - 1]);
            }
        }
    }
    lemma_filter_ascending(all, among(wanted));
    assert forall|r: Release| chosen.contains(r) <==> wanted.contains(r) by {
        if chosen.contains(r) {
            let k = choose|k: int| 0 <= k < chosen.len() && chosen[k] == r;
            all.lemma_filter_pred(among(wanted), k);
        }
        if wanted.contains(r) {
            let k = choose|k: int| 0 <= k < wanted.len() && wanted[k] == r;
            lemma_named_known(c, split(s, comma()), k);
            let i = choose|i: int| 0 <= i < all.len() && all[i] == r;
            all.lemma_filter_contains(among(wanted), i);
        }
    }
}

/// An enumeration that is empty or holds white space only fails, with the
/// one failure of its one segment.
pub proof fn law_blank_enumeration_fails(c: Seq<Release>, s: Seq<char>)
    requires
        is_blank(s),
    ensures
        resolve_enumeration(c, s) == Err::<Seq<Release>, Seq<Failure>>(
            seq![Failure::EmptyOrUnparsableSegment(s)],
        ),
{
    reveal_strlit(",");
    assert forall|i: int| !occurs_at(s, comma(), i) by {
        if occurs_at(s, comma(), i) {
            assert(s[i + 0] == comma()[0]);
            assert(is_space(s[i]));
        }
    }
    let segments = split(s, comma());
    assert(segments =~= seq![s]);
    assert(segments.drop_last() =~= Seq::<Seq<char>>::empty());
    assert(failed(c, segments.drop_last()) =~= Seq::<Failure>::empty());
    assert(failed(c, segments) =~= seq![Failure::EmptyOrUnparsableSegment(s)]);
}

} // verus!
