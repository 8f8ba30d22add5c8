//! The decimal grammar that std's integer parsers accept, and the
//! `ParseScalar` capability built on it.
use vstd::prelude::*;

verus! {

/// An ASCII digit `'0'..='9'`.
pub open spec fn is_ascii_digit(c: char) -> bool {
    '0' <= c && c <= '9'
}

/// The value of an ASCII digit.
pub open spec fn digit_value(c: char) -> int {
    (c as int) - ('0' as int)
}

/// A non-empty run of ASCII digits.
pub open spec fn all_digits(s: Seq<char>) -> bool {
    &&& s.len() > 0
    &&& forall|i: int| 0 <= i < s.len() ==> is_ascii_digit(#[trigger] s[i])
}

/// The number that a run of digits denotes, most significant digit first.
pub open spec fn digits_value(s: Seq<char>) -> int
    decreases s.len(),
{
    if s.len() == 0 {
        0
    } else {
        digits_value(s.drop_last()) * 10 + digit_value(s.last())
    }
}

/// The value of an optional `+` or `-` followed by digits, with nothing else.
pub open spec fn signed_decimal(s: Seq<char>) -> Option<int> {
    if s.len() > 0 && s[0] == '-' && all_digits(s.drop_first()) {
        Some(-digits_value(s.drop_first()))
    } else if s.len() > 0 && s[0] == '+' && all_digits(s.drop_first()) {
        Some(digits_value(s.drop_first()))
    } else if all_digits(s) {
        Some(digits_value(s))
    } else {
        None
    }
}

/// The value of an optional `+` followed by digits, with nothing else.
pub open spec fn unsigned_decimal(s: Seq<char>) -> Option<int> {
    if s.len() > 0 && s[0] == '+' && all_digits(s.drop_first()) {
        Some(digits_value(s.drop_first()))
    } else if all_digits(s) {
        Some(digits_value(s))
    } else {
        None
    }
}

/// The `i32` that the whole text denotes, if it is signed decimal in range.
pub open spec fn i32_of_text(s: Seq<char>) -> Option<i32> {
    match signed_decimal(s) {
        Some(v) => if i32::MIN <= v <= i32::MAX {
            Some(v as i32)
        } else {
            None
        },
        None => None,
    }
}

/// The `usize` that the whole text denotes, if it is unsigned decimal in range.
pub open spec fn usize_of_text(s: Seq<char>) -> Option<usize> {
    match unsigned_decimal(s) {
        Some(v) => if v <= usize::MAX {
            Some(v as usize)
        } else {
            None
        },
        None => None,
    }
}

/// The ASCII digit for `d` in `0..10`.
pub open spec fn digit_char(d: int) -> char {
    (d + ('0' as int)) as char
}

/// The shortest decimal digits of `n`: no leading zero but for `n == 0`.
pub open spec fn digits_text(n: nat) -> Seq<char>
    decreases n,
{
    if n < 10 {
        seq![digit_char(n as int)]
    } else {
        digits_text(n / 10) + seq![digit_char((n % 10) as int)]
    }
}

/// The canonical written form of an integer: its digits, after a `-` where
/// it is negative.
pub open spec fn decimal_text(v: int) -> Seq<char> {
    if v < 0 {
        seq!['-'] + digits_text((-v) as nat)
    } else {
        digits_text(v as nat)
    }
}

/// The digits of `n` are a run of digits that denotes `n`.
pub proof fn lemma_digits_text(n: nat)
    ensures
        all_digits(digits_text(n)),
        digits_value(digits_text(n)) == n,
    decreases n,
{
    let s = digits_text(n);
    assert(digits_value(s) == digits_value(s.drop_last()) * 10 + digit_value(s.last()));
    if n < 10 {
        assert(s.drop_last() =~= Seq::<char>::empty());
        assert(digit_value(s.last()) == n);
        assert(digits_value(s.drop_last()) == 0);
    } else {
        lemma_digits_text(n / 10);
        let p = digits_text(n / 10);
        assert(s.drop_last() =~= p);
        assert(digit_value(s.last()) == n % 10);
        assert(n == (n / 10) * 10 + n % 10);
        assert forall|i: int| 0 <= i < s.len() implies is_ascii_digit(#[trigger] s[i]) by {
            if i < p.len() {
                assert(s[i] == p[i]);
            }
        }
    }
}

/// The canonical form of an integer reads back as its value under the signed
/// grammar, and under the unsigned one where it is not negative.
pub proof fn lemma_decimal_text(v: int)
    ensures
        signed_decimal(decimal_text(v)) == Some(v),
        v >= 0 ==> unsigned_decimal(decimal_text(v)) == Some(v),
{
    if v < 0 {
        let d = digits_text((-v) as nat);
        lemma_digits_text((-v) as nat);
        assert(decimal_text(v).drop_first() =~= d);
    } else {
        lemma_digits_text(v as nat);
        let d = digits_text(v as nat);
        assert(is_ascii_digit(d[0]));
    }
}

/// A scalar that can be read from an exact piece of text: the whole text must
/// be the scalar's written form, with no surrounding or trailing characters.
pub trait ParseScalar: Sized {
    /// The value that the text denotes, or `None` where it is not a complete
    /// written form of a value of this type.
    spec fn parse_spec(s: Seq<char>) -> Option<Self>;

    /// The canonical written form of `v`.
    spec fn canonical_text(v: Self) -> Seq<char>;

    /// The canonical form of every value reads back as that value.
    proof fn lemma_canonical_parses(v: Self)
        ensures
            Self::parse_spec(Self::canonical_text(v)) == Some(v),
    ;

    /// Reads the whole of `s` as a value of this type.
    fn parse_exact(s: &str) -> (r: Option<Self>)
        ensures
            r == Self::parse_spec(s@),
    ;
}

/// Relies on `<i32 as FromStr>::from_str`, which accepts exactly an optional
/// `+` or `-` followed by ASCII digits whose value fits in an `i32`.
#[verifier::external_body]
fn parse_i32(s: &str) -> (r: Option<i32>)
    ensures
        r == i32_of_text(s@),
{
    <i32 as std::str::FromStr>::from_str(s).ok()
}

/// Relies on `<usize as FromStr>::from_str`, which accepts exactly an optional
/// `+` followed by ASCII digits whose value fits in a `usize`.
#[verifier::external_body]
fn parse_usize(s: &str) -> (r: Option<usize>)
    ensures
        r == usize_of_text(s@),
{
    <usize as std::str::FromStr>::from_str(s).ok()
}

impl ParseScalar for i32 {
    open spec fn parse_spec(s: Seq<char>) -> Option<i32> {
        i32_of_text(s)
    }

    open spec fn canonical_text(v: i32) -> Seq<char> {
        decimal_text(v as int)
    }

    proof fn lemma_canonical_parses(v: i32) {
        lemma_decimal_text(v as int);
    }

    fn parse_exact(s: &str) -> (r: Option<i32>) {
        parse_i32(s)
    }
}

impl ParseScalar for usize {
    open spec fn parse_spec(s: Seq<char>) -> Option<usize> {
        usize_of_text(s)
    }

    open spec fn canonical_text(v: usize) -> Seq<char> {
        decimal_text(v as int)
    }

    proof fn lemma_canonical_parses(v: usize) {
        lemma_decimal_text(v as int);
    }

    fn parse_exact(s: &str) -> (r: Option<usize>) {
        parse_usize(s)
    }
}

} // verus!
