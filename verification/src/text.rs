//! Sequences of characters: searching for a separator and splitting on it.

use vstd::prelude::*;

verus! {

/// `pat` stands in `s` at index `i`.
pub open spec fn occurs_at(s: Seq<char>, pat: Seq<char>, i: int) -> bool {
    &&& 0 <= i
    &&& i + pat.len() <= s.len()
    &&& forall|k: int| 0 <= k < pat.len() ==> s[i + k] == pat[k]
}

/// `pat` stands somewhere in `s`.
pub open spec fn occurs(s: Seq<char>, pat: Seq<char>) -> bool {
    exists|i: int| occurs_at(s, pat, i)
}

/// `pat` stands in `s` at index `i` and nowhere before it.
pub open spec fn is_first_occurrence(s: Seq<char>, pat: Seq<char>, i: int) -> bool {
    &&& occurs_at(s, pat, i)
    &&& forall|j: int| 0 <= j < i ==> !occurs_at(s, pat, j)
}

/// The least index at which `pat` stands in `s`; meaningful where `occurs(s, pat)`.
pub open spec fn first_occurrence(s: Seq<char>, pat: Seq<char>) -> int {
    choose|i: int| is_first_occurrence(s, pat, i)
}

/// The pieces of `s` between the occurrences of `pat`, taken from the left and
/// without overlap. A text in which `pat` does not occur is a single piece.
pub open spec fn split(s: Seq<char>, pat: Seq<char>) -> Seq<Seq<char>>
    decreases s.len(),
    via split_decreases
{
    if pat.len() > 0 && occurs(s, pat) {
        let i = first_occurrence(s, pat);
        seq![s.subrange(0, i)] + split(s.subrange(i + pat.len(), s.len() as int), pat)
    } else {
        seq![s]
    }
}

#[via_fn]
proof fn split_decreases(s: Seq<char>, pat: Seq<char>) {
    if pat.len() > 0 && occurs(s, pat) {
        lemma_first_occurrence_exists(s, pat);
    }
}

/// Below any occurrence there is a first one.
proof fn lemma_least_occurrence(s: Seq<char>, pat: Seq<char>, w: int)
    requires
        occurs_at(s, pat, w),
    ensures
        exists|i: int| is_first_occurrence(s, pat, i),
    decreases w,
{
    if exists|j: int| 0 <= j < w && occurs_at(s, pat, j) {
        let j = choose|j: int| 0 <= j < w && occurs_at(s, pat, j);
        lemma_least_occurrence(s, pat, j);
    } else {
        assert(is_first_occurrence(s, pat, w));
    }
}

/// Where `pat` occurs at all, `first_occurrence` is its first occurrence.
pub proof fn lemma_first_occurrence_exists(s: Seq<char>, pat: Seq<char>)
    requires
        occurs(s, pat),
    ensures
        is_first_occurrence(s, pat, first_occurrence(s, pat)),
{
    let w = choose|i: int| occurs_at(s, pat, i);
    lemma_least_occurrence(s, pat, w);
}

/// A first occurrence is the first occurrence.
pub proof fn lemma_first_occurrence_unique(s: Seq<char>, pat: Seq<char>, i: int)
    requires
        is_first_occurrence(s, pat, i),
    ensures
        occurs(s, pat),
        first_occurrence(s, pat) == i,
{
    let c = first_occurrence(s, pat);
    assert(is_first_occurrence(s, pat, c));
    if c < i {
        assert(!occurs_at(s, pat, c));
    }
    if i < c {
        assert(!occurs_at(s, pat, i));
    }
}

/// `split` unfolded once at a known first occurrence.
pub proof fn lemma_split_at(s: Seq<char>, pat: Seq<char>, i: int)
    requires
        pat.len() > 0,
        is_first_occurrence(s, pat, i),
    ensures
        split(s, pat) == seq![s.subrange(0, i)] + split(
            s.subrange(i + pat.len(), s.len() as int),
            pat,
        ),
{
    lemma_first_occurrence_unique(s, pat, i);
}

/// `split` of a text in which `pat` does not occur.
pub proof fn lemma_split_whole(s: Seq<char>, pat: Seq<char>)
    requires
        !occurs(s, pat),
    ensures
        split(s, pat) == seq![s],
{
}

/// The characters of `s`, in order.
pub fn chars_of(s: &str) -> (v: Vec<char>)
    ensures
        v@ == s@,
{
    broadcast use vstd::string::group_string_axioms;

    let mut v: Vec<char> = Vec::new();
    for c in it: s.chars()
        invariant
            it.seq() == s@,
            v@ == it.seq().take(it.index()),
    {
        v.push(c);
    }
    v
}

/// An occurrence in what is left of `s` after `from` characters is an occurrence in `s`.
pub proof fn lemma_occurs_at_skip(s: Seq<char>, pat: Seq<char>, from: int, k: int)
    requires
        0 <= from <= s.len(),
    ensures
        occurs_at(s.skip(from), pat, k) <==> (0 <= k && occurs_at(s, pat, from + k)),
{
}

/// The views of a sequence of string slices.
pub open spec fn texts(parts: Seq<&str>) -> Seq<Seq<char>> {
    Seq::new(parts.len(), |i: int| parts[i]@)
}

/// Whether `pat` stands in `hay` at index `i`.
fn matches_at(hay: &Vec<char>, i: usize, pat: &Vec<char>) -> (b: bool)
    requires
        i + pat.len() <= hay.len(),
    ensures
        b == occurs_at(hay@, pat@, i as int),
{
    let m = pat.len();
    let mut k: usize = 0;
    while k < m
        invariant
            m == pat.len(),
            k <= m,
            i + m <= hay.len(),
            forall|j: int| 0 <= j < k ==> hay@[i + j] == pat@[j],
        decreases m - k,
    {
        if hay[i + k] != pat[k] {
            return false;
        }
        k += 1;
    }
    true
}

/// The first index at or after `from` at which `pat` stands in `hay`.
pub fn find(hay: &Vec<char>, from: usize, pat: &Vec<char>) -> (found: Option<usize>)
    ensures
        match found {
            Some(i) => {
                &&& from <= i
                &&& occurs_at(hay@, pat@, i as int)
                &&& forall|j: int| from <= j < i ==> !occurs_at(hay@, pat@, j)
            },
            None => forall|j: int| from <= j ==> !occurs_at(hay@, pat@, j),
        },
{
    let n = hay.len();
    let m = pat.len();
    if m > n {
        return None;
    }
    let last = n - m;
    let mut i = from;
    while i <= last
        invariant
            n == hay.len(),
            m == pat.len(),
            last == n - m,
            from <= i,
            forall|j: int| from <= j < i ==> !occurs_at(hay@, pat@, j),
        decreases last + 1 - i,
    {
        if matches_at(hay, i, pat) {
            return Some(i);
        }
        i += 1;
    }
    None
}

/// Splits `s` on `pat`, as `split` says.
pub fn split_text<'a>(s: &'a str, pat: &str) -> (parts: Vec<&'a str>)
    ensures
        texts(parts@) == split(s@, pat@),
{
    let hay = chars_of(s);
    let needle = chars_of(pat);
    let n = hay.len();
    let m = needle.len();
    let mut parts: Vec<&'a str> = Vec::new();
    if m == 0 {
        parts.push(s);
        assert(texts(parts@) =~= seq![s@]);
        return parts;
    }
    let mut pos: usize = 0;
    let mut done = false;
    proof {
        assert(s@.skip(0) =~= s@);
        assert(texts(parts@) + split(s@, pat@) =~= split(s@, pat@));
    }
    while !done
        invariant
            hay@ == s@,
            needle@ == pat@,
            n == hay.len(),
            m == needle.len(),
            m > 0,
            pos <= n,
            !done ==> split(s@, pat@) == texts(parts@) + split(s@.skip(pos as int), pat@),
            done ==> split(s@, pat@) == texts(parts@),
        decreases
            (if done { 0 } else { 1 + n - pos }),
    {
        let ghost rest = s@.skip(pos as int);
        let ghost before = texts(parts@);
        match find(&hay, pos, &needle) {
            Some(i) => {
                let piece = s.substring_char(pos, i);
                parts.push(piece);
                proof {
                    assert forall|j: int| 0 <= j < i - pos implies !occurs_at(rest, pat@, j) by {
                        lemma_occurs_at_skip(s@, pat@, pos as int, j);
                    }
                    lemma_occurs_at_skip(s@, pat@, pos as int, i - pos);
                    lemma_split_at(rest, pat@, i - pos);
                    assert(rest.subrange(0, i - pos) =~= piece@);
                    assert(rest.subrange(i - pos + m, rest.len() as int) =~= s@.skip(i + m));
                    assert(texts(parts@) =~= before.push(piece@));
                    assert(before + (seq![piece@] + split(s@.skip(i + m), pat@)) =~= before.push(
                        piece@,
                    ) + split(s@.skip(i + m), pat@));
                }
                pos = i + m;
            },
            None => {
                let piece = s.substring_char(pos, n);
                parts.push(piece);
                proof {
                    assert forall|j: int| !occurs_at(rest, pat@, j) by {
                        lemma_occurs_at_skip(s@, pat@, pos as int, j);
                    }
                    assert(rest =~= piece@);
                    assert(texts(parts@) =~= before.push(piece@));
                    assert(before + seq![piece@] =~= before.push(piece@));
                }
                done = true;
            },
        }
    }
    parts
}

/// A split has one piece where `pat` does not occur, and more where it does.
pub proof fn lemma_split_len(s: Seq<char>, pat: Seq<char>)
    requires
        pat.len() > 0,
    ensures
        split(s, pat).len() >= 1,
        occurs(s, pat) <==> split(s, pat).len() >= 2,
    decreases s.len(),
{
    if occurs(s, pat) {
        lemma_first_occurrence_exists(s, pat);
        let i = first_occurrence(s, pat);
        lemma_split_len(s.subrange(i + pat.len(), s.len() as int), pat);
    }
}

/// Whether two texts hold the same characters.
pub fn same_text(a: &str, b: &str) -> (same: bool)
    ensures
        same == (a@ == b@),
{
    let x = chars_of(a);
    let y = chars_of(b);
    let n = x.len();
    if n != y.len() {
        return false;
    }
    let mut i: usize = 0;
    while i < n
        invariant
            x@ == a@,
            y@ == b@,
            n == x.len(),
            n == y.len(),
            i <= n,
            forall|j: int| 0 <= j < i ==> x@[j] == y@[j],
        decreases n - i,
    {
        if x[i] != y[i] {
            assert(a@[i as int] != b@[i as int]);
            return false;
        }
        i += 1;
    }
    assert(x@ =~= y@);
    true
}

/// Whether `pat` stands somewhere in `s`.
pub fn contains_text(s: &str, pat: &str) -> (found: bool)
    ensures
        found == occurs(s@, pat@),
{
    let hay = chars_of(s);
    let needle = chars_of(pat);
    match find(&hay, 0, &needle) {
        Some(i) => {
            assert(occurs_at(s@, pat@, i as int));
            true
        },
        None => false,
    }
}

/// A text made of two pieces with `pat` between them splits into the two,
/// where `pat` occurs neither earlier nor in the second piece.
pub proof fn lemma_split_two(a: Seq<char>, pat: Seq<char>, b: Seq<char>)
    requires
        pat.len() > 0,
        forall|j: int| 0 <= j < a.len() ==> !occurs_at(a + pat + b, pat, j),
        !occurs(b, pat),
    ensures
        split(a + pat + b, pat) == seq![a, b],
{
    let s = a + pat + b;
    assert(occurs_at(s, pat, a.len() as int));
    lemma_split_at(s, pat, a.len() as int);
    assert(s.subrange(0, a.len() as int) =~= a);
    assert(s.subrange((a.len() + pat.len()) as int, s.len() as int) =~= b);
    lemma_split_whole(b, pat);
    assert(seq![a] + seq![b] =~= seq![a, b]);
}

/// A split into two pieces is made at the first occurrence of `pat`, and
/// `pat` does not occur in the second piece.
pub proof fn lemma_split_pair(s: Seq<char>, pat: Seq<char>)
    requires
        pat.len() > 0,
        split(s, pat).len() == 2,
    ensures
        is_first_occurrence(s, pat, first_occurrence(s, pat)),
        split(s, pat)[0] == s.subrange(0, first_occurrence(s, pat)),
        split(s, pat)[1] == s.subrange(first_occurrence(s, pat) + pat.len(), s.len() as int),
        !occurs(split(s, pat)[1], pat),
{
    lemma_split_len(s, pat);
    lemma_first_occurrence_exists(s, pat);
    let i = first_occurrence(s, pat);
    let tail = s.subrange(i + pat.len(), s.len() as int);
    lemma_split_len(tail, pat);
}

} // verus!
