//! Parsing of numeric pairs such as `WIDTHxHEIGHT`.
//!
//! `parse_pair` splits a string at the first occurrence of a separator
//! and parses both sides with a caller-chosen `FromStr` type.
//! `parse_pair_usize` is the fully specified decimal form used for pixel
//! dimensions: it succeeds exactly on `AxB` where both sides are
//! non-empty digit runs whose values fit in `usize`, and then returns
//! exactly `(A, B)`.

use vstd::prelude::*;
use vstd::string::*;

verus! {

/// `c` is a decimal digit.
pub open spec fn is_digit(c: char) -> bool {
    48 <= (c as u32) && (c as u32) <= 57
}

/// The value of the decimal digit `c`.
pub open spec fn digit_val(c: char) -> int {
    (c as u32) - 48
}

/// Every character of `s` is a decimal digit.
pub open spec fn all_digits(s: Seq<char>) -> bool {
    forall|i: int| 0 <= i < s.len() ==> is_digit(#[trigger] s[i])
}

/// The value of the decimal numeral `s`, most significant digit first.
pub open spec fn dec_val(s: Seq<char>) -> int
    decreases s.len(),
{
    if s.len() == 0 {
        0
    } else {
        dec_val(s.drop_last()) * 10 + digit_val(s.last())
    }
}

/// A digit run has a non-negative value.
proof fn lemma_dec_val_nonneg(s: Seq<char>)
    requires
        all_digits(s),
    ensures
        dec_val(s) >= 0,
    decreases s.len(),
{
    if s.len() > 0 {
        assert(all_digits(s.drop_last()));
        lemma_dec_val_nonneg(s.drop_last());
    }
}

/// A prefix of a digit run is worth no more than the whole run.
proof fn lemma_dec_prefix_le(s: Seq<char>, j: int)
    requires
        all_digits(s),
        0 <= j <= s.len(),
    ensures
        dec_val(s.take(j)) <= dec_val(s),
    decreases s.len() - j,
{
    if j == s.len() {
        assert(s.take(j) =~= s);
    } else {
        assert(s.take(j + 1).drop_last() =~= s.take(j));
        assert(all_digits(s.take(j)));
        lemma_dec_val_nonneg(s.take(j));
        lemma_dec_prefix_le(s, j + 1);
    }
}

/// Find the first occurrence of `separator` in `s`.
pub fn find_char(s: &str, separator: char) -> (r: Option<usize>)
    ensures
        r matches Some(i) ==> i < s@.len() && s@[i as int] == separator && (forall|j: int|
            0 <= j < i ==> s@[j] != separator),
        r is None ==> forall|j: int| 0 <= j < s@.len() ==> s@[j] != separator,
{
    let n = s.unicode_len();
    let mut i: usize = 0;
    while i < n
        invariant
            n == s@.len(),
            i <= n,
            forall|j: int| 0 <= j < i ==> s@[j] != separator,
        decreases n - i,
    {
        if s.get_char(i) == separator {
            return Some(i);
        }
        i += 1;
    }
    None
}

/// Parse one decimal numeral: succeeds exactly on non-empty digit runs
/// whose value fits in `usize`, and then returns exactly that value.
pub fn parse_usize(s: &str) -> (r: Option<usize>)
    ensures
        r is Some <==> s@.len() > 0 && all_digits(s@) && dec_val(s@) <= usize::MAX,
        r matches Some(v) ==> v == dec_val(s@),
{
    let n = s.unicode_len();
    if n == 0 {
        return None;
    }
    let mut acc: usize = 0;
    let mut i: usize = 0;
    while i < n
        invariant
            0 < n == s@.len(),
            i <= n,
            all_digits(s@.take(i as int)),
            acc == dec_val(s@.take(i as int)),
        decreases n - i,
    {
        let c = s.get_char(i);
        let cv: u32 = c as u32;
        if cv < 48 || cv > 57 {
            assert(!is_digit(s@[i as int]));
            return None;
        }
        let d: usize = (cv - 48) as usize;
        proof {
            assert(s@.take(i as int + 1).drop_last() =~= s@.take(i as int));
            assert(s@.take(i as int + 1).last() == s@[i as int]);
            assert(all_digits(s@.take(i as int + 1)));
        }
        let next = match acc.checked_mul(10) {
            Some(a) => a.checked_add(d),
            None => None,
        };
        match next {
            Some(b) => {
                acc = b;
            },
            None => {
                proof {
                    assert(dec_val(s@.take(i as int + 1)) > usize::MAX);
                    if all_digits(s@) {
                        lemma_dec_prefix_le(s@, i as int + 1);
                    }
                }
                return None;
            },
        }
        i += 1;
    }
    proof {
        assert(s@.take(n as int) =~= s@);
    }
    Some(acc)
}

/// `i` is the first occurrence of `sep` in `s`.
pub open spec fn first_sep_at(s: Seq<char>, sep: char, i: int) -> bool {
    &&& 0 <= i < s.len()
    &&& s[i] == sep
    &&& forall|j: int| 0 <= j < i ==> s[j] != sep
}

/// `s` splits at `i` into `sep` between two non-empty digit runs whose
/// values fit in `usize`.
pub open spec fn valid_pair(s: Seq<char>, sep: char, i: int) -> bool {
    let left = s.subrange(0, i);
    let right = s.subrange(i + 1, s.len() as int);
    &&& first_sep_at(s, sep, i)
    &&& left.len() > 0 && all_digits(left) && dec_val(left) <= usize::MAX
    &&& right.len() > 0 && all_digits(right) && dec_val(right) <= usize::MAX
}

/// Parse a pair of decimal numerals separated by `separator`: succeeds
/// exactly on strings made of two non-empty digit runs that fit in
/// `usize` around the first occurrence of the separator, and then
/// returns exactly that pair of values.  A missing separator, an empty
/// side, or any other character fails.
pub fn parse_pair_usize(s: &str, separator: char) -> (r: Option<(usize, usize)>)
    ensures
        r is Some <==> exists|i: int| #[trigger] valid_pair(s@, separator, i),
        forall|i: int|
            #[trigger] valid_pair(s@, separator, i) ==> r == Some(
                (
                    dec_val(s@.subrange(0, i)) as usize,
                    dec_val(s@.subrange(i + 1, s@.len() as int)) as usize,
                ),
            ),
{
    let n = s.unicode_len();
    match find_char(s, separator) {
        None => {
            assert(forall|i: int| !valid_pair(s@, separator, i));
            None
        },
        Some(i) => {
            let left = s.substring_char(0, i);
            let right = s.substring_char(i + 1, n);
            proof {
                assert forall|k: int| #[trigger] valid_pair(s@, separator, k) implies k
                    == i as int by {
                    if k < i as int {
                        assert(s@[k] != separator);
                    } else if k > i as int {
                        assert(s@[i as int] != separator);
                    }
                }
            }
            match (parse_usize(left), parse_usize(right)) {
                (Some(a), Some(b)) => {
                    assert(valid_pair(s@, separator, i as int));
                    Some((a, b))
                },
                (None, _) => {
                    assert(!valid_pair(s@, separator, i as int));
                    None
                },
                (_, None) => {
                    assert(!valid_pair(s@, separator, i as int));
                    None
                },
            }
        },
    }
}

/// Relies on `str::FromStr::from_str` for the caller's type, turning its
/// `Result` into an `Option`; nothing is assumed of which strings parse,
/// and the caller's `FromStr` impl is assumed to return rather than
/// panic (std's numeric impls do).
#[verifier::external_body]
fn from_str_opt<T: core::str::FromStr>(s: &str) -> (r: Option<T>) {
    match T::from_str(s) {
        Ok(v) => Some(v),
        Err(_) => None,
    }
}

/// Parse a pair of values separated by `separator`: split at the first
/// occurrence of the separator and parse each side with `T`'s string
/// parser.  Without a separator the result is `None`; what each side
/// parses to is up to `T`.
pub fn parse_pair<T: core::str::FromStr>(s: &str, separator: char) -> (r: Option<(T, T)>)
    ensures
        r is Some ==> exists|i: int| 0 <= i < s@.len() && s@[i] == separator,
        (forall|j: int| 0 <= j < s@.len() ==> s@[j] != separator) ==> r is None,
{
    let n = s.unicode_len();
    match find_char(s, separator) {
        None => None,
        Some(i) => {
            let left = s.substring_char(0, i);
            let right = s.substring_char(i + 1, n);
            match (from_str_opt::<T>(left), from_str_opt::<T>(right)) {
                (Some(l), Some(r2)) => {
                    assert(s@[i as int] == separator);
                    Some((l, r2))
                },
                _ => None,
            }
        },
    }
}

} // verus!
