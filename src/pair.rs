//! Splitting text at the first occurrence of a separator, and reading both
//! sides as scalars.
use vstd::prelude::*;
use vstd::string::*;
use crate::decimal::ParseScalar;

verus! {

/// The text before and after the first occurrence of `sep`, or `None` where
/// `sep` does not occur.
pub open spec fn split_spec(s: Seq<char>, sep: char) -> Option<(Seq<char>, Seq<char>)> {
    match s.index_of_first(sep) {
        Some(i) => Some((s.subrange(0, i), s.subrange(i + 1, s.len() as int))),
        None => None,
    }
}

/// The pair read from the two sides of the first `sep`, present only where
/// both sides are complete written forms of `T`.
pub open spec fn pair_spec<T: ParseScalar>(s: Seq<char>, sep: char) -> Option<(T, T)> {
    match split_spec(s, sep) {
        Some((l, r)) => match (T::parse_spec(l), T::parse_spec(r)) {
            (Some(x), Some(y)) => Some((x, y)),
            _ => None,
        },
        None => None,
    }
}

/// Splits `s` at the first occurrence of `separator` into the text before it
/// and the text after it; `None` where the separator does not occur.
pub fn split_pair(s: &str, separator: char) -> (r: Option<(&str, &str)>)
    ensures
        match r {
            Some((l, t)) => split_spec(s@, separator) == Some((l@, t@)),
            None => split_spec(s@, separator) is None,
        },
{
    let n = s.unicode_len();
    let mut i: usize = 0;
    for c in it: s.chars()
        invariant
            n == s@.len(),
            it.seq() == s@,
            i == it.index(),
            forall|j: int| 0 <= j < i ==> s@[j] != separator,
    {
        if c == separator {
            proof {
                s@.index_of_first_ensures(separator);
            }
            let left = s.substring_char(0, i);
            let right = s.substring_char(i + 1, n);
            return Some((left, right));
        }
        i = i + 1;
    }
    proof {
        s@.index_of_first_ensures(separator);
    }
    None
}

/// Reads `s` as `<left><separator><right>`, split at the first occurrence of
/// `separator`, with both sides complete written forms of `T`.
pub fn parse_pair<T: ParseScalar>(s: &str, separator: char) -> (r: Option<(T, T)>)
    ensures
        r == pair_spec::<T>(s@, separator),
{
    match split_pair(s, separator) {
        None => None,
        Some((left, right)) => match (T::parse_exact(left), T::parse_exact(right)) {
            (Some(l), Some(r)) => Some((l, r)),
            _ => None,
        },
    }
}

/// The split is the one at the first occurrence: `s` splits into `(l, r)`
/// exactly where `s` is `l`, the separator, then `r`, and `l` holds no
/// separator.
pub proof fn lemma_split_at_first(s: Seq<char>, sep: char, l: Seq<char>, r: Seq<char>)
    ensures
        split_spec(s, sep) == Some((l, r)) <==> (s == l + seq![sep] + r && !l.contains(sep)),
{
    s.index_of_first_ensures(sep);
    if s == l + seq![sep] + r && !l.contains(sep) {
        let k = l.len() as int;
        assert(s[k] == sep);
        let i = s.index_of_first(sep)->0;
        if i < k {
            assert(s[i] == l[i]);
        }
        assert(s.subrange(0, k) =~= l);
        assert(s.subrange(k + 1, s.len() as int) =~= r);
    }
    if split_spec(s, sep) == Some((l, r)) {
        assert(s =~= l + seq![sep] + r);
        assert forall|j: int| 0 <= j < l.len() implies l[j] != sep by {
            assert(l[j] == s[j]);
        }
    }
}

/// Text in which the separator never occurs holds no pair.
pub proof fn lemma_no_separator_no_pair<T: ParseScalar>(s: Seq<char>, sep: char)
    requires
        !s.contains(sep),
    ensures
        pair_spec::<T>(s, sep) is None,
{
    s.index_of_first_ensures(sep);
}

/// Joining two written forms of `T` with a separator that does not occur in
/// the first reads back as exactly the two values.
pub proof fn lemma_joined_pair<T: ParseScalar>(a: Seq<char>, b: Seq<char>, sep: char, x: T, y: T)
    requires
        T::parse_spec(a) == Some(x),
        T::parse_spec(b) == Some(y),
        !a.contains(sep),
    ensures
        pair_spec::<T>(a + seq![sep] + b, sep) == Some((x, y)),
{
    lemma_split_at_first(a + seq![sep] + b, sep, a, b);
}

/// The canonical forms of two values, joined by a separator that does not
/// occur in the first, read back as exactly the two values.
pub proof fn lemma_canonical_pair<T: ParseScalar>(x: T, y: T, sep: char)
    requires
        !T::canonical_text(x).contains(sep),
    ensures
        pair_spec::<T>(T::canonical_text(x) + seq![sep] + T::canonical_text(y), sep) == Some(
            (x, y),
        ),
{
    T::lemma_canonical_parses(x);
    T::lemma_canonical_parses(y);
    lemma_joined_pair(T::canonical_text(x), T::canonical_text(y), sep, x, y);
}

/// Reading a pair is a function of the text and the separator alone: two
/// readings of equal text with the same separator agree.
pub proof fn lemma_pair_deterministic<T: ParseScalar>(
    s: Seq<char>,
    t: Seq<char>,
    sep: char,
    r1: Option<(T, T)>,
    r2: Option<(T, T)>,
)
    requires
        s == t,
        r1 == pair_spec::<T>(s, sep),
        r2 == pair_spec::<T>(t, sep),
    ensures
        r1 == r2,
{
}

} // verus!
