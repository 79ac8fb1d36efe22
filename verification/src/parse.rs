//! The parsing capability that target types of a resolution implement,
//! with implementations for strings, integers and booleans.

use vstd::prelude::*;

verus! {

/// A type that a raw variable value can be parsed into.
///
/// `parses` says which character sequences are accepted, and
/// `parse_model` gives the abstract value of an accepted sequence;
/// `parse_env` is the executable parser, tied to both.
pub trait EnvParse: Sized + View {
    spec fn parses(s: Seq<char>) -> bool;

    spec fn parse_model(s: Seq<char>) -> Self::V;

    fn parse_env(s: &str) -> (r: Option<Self>)
        ensures
            (r is Some) == Self::parses(s@),
            r matches Some(v) ==> v@ == Self::parse_model(s@),
    ;
}

/// A decimal digit.
pub open spec fn is_digit(c: char) -> bool {
    '0' <= c && c <= '9'
}

/// The numeric value of a decimal digit.
pub open spec fn digit_val(c: char) -> int {
    c as int - '0' as int
}

pub open spec fn all_digits(s: Seq<char>) -> bool {
    forall|i: int| 0 <= i < s.len() ==> is_digit(s[i])
}

/// The number written by a sequence of decimal digits.
pub open spec fn digits_val(s: Seq<char>) -> int
    decreases s.len(),
{
    if s.len() == 0 {
        0
    } else {
        digits_val(s.drop_last()) * 10 + digit_val(s.last())
    }
}

proof fn lemma_digits_val_nonneg(s: Seq<char>)
    requires
        all_digits(s),
    ensures
        digits_val(s) >= 0,
    decreases s.len(),
{
    if s.len() > 0 {
        assert(all_digits(s.drop_last()));
        lemma_digits_val_nonneg(s.drop_last());
    }
}

/// A longer digit string never writes a smaller number.
proof fn lemma_digits_val_prefix(s: Seq<char>, k: int)
    requires
        all_digits(s),
        0 <= k <= s.len(),
    ensures
        digits_val(s.take(k)) <= digits_val(s),
    decreases s.len() - k,
{
    if k == s.len() {
        assert(s.take(k) =~= s);
    } else {
        assert(all_digits(s.take(k)));
        lemma_digits_val_nonneg(s.take(k));
        assert(s.take(k + 1).drop_last() =~= s.take(k));
        assert(s.take(k + 1).last() == s[k]);
        lemma_digits_val_prefix(s, k + 1);
    }
}

/// A nonempty all-digit sequence whose value fits in a `u64`.
pub open spec fn parses_u64(s: Seq<char>) -> bool {
    s.len() > 0 && all_digits(s) && digits_val(s) <= u64::MAX
}

/// Parses a nonempty string of decimal digits, rejecting any other
/// character and any value over `u64::MAX`.
pub fn parse_u64_digits(s: &str) -> (r: Option<u64>)
    ensures
        (r is Some) == parses_u64(s@),
        r matches Some(v) ==> v == digits_val(s@),
{
    let n = s.unicode_len();
    if n == 0 {
        return None;
    }
    let mut acc: u64 = 0;
    let mut i: usize = 0;
    while i < n
        invariant
            n == s@.len(),
            i <= n,
            all_digits(s@.take(i as int)),
            acc == digits_val(s@.take(i as int)),
        decreases n - i,
    {
        let c = s.get_char(i);
        if !('0' <= c && c <= '9') {
            assert(!is_digit(s@[i as int]));
            return None;
        }
        let d: u64 = (c as u32 - '0' as u32) as u64;
        proof {
            assert(s@.take(i + 1).drop_last() =~= s@.take(i as int));
            assert(s@.take(i + 1).last() == s@[i as int]);
            assert(d == digit_val(s@[i as int]));
        }
        if acc > (u64::MAX - d) / 10 {
            proof {
                assert(digits_val(s@.take(i + 1)) == acc * 10 + d);
                assert(acc * 10 + d > u64::MAX) by (nonlinear_arith)
                    requires
                        acc > (u64::MAX - d) / 10,
                        d <= 9,
                ;
                if all_digits(s@) {
                    lemma_digits_val_prefix(s@, i + 1);
                }
            }
            return None;
        }
        proof {
            assert(acc * 10 + d <= u64::MAX) by (nonlinear_arith)
                requires
                    acc <= (u64::MAX - d) / 10,
                    d <= 9,
            ;
        }
        acc = acc * 10 + d;
        i += 1;
    }
    proof {
        assert(s@.take(n as int) =~= s@);
    }
    Some(acc)
}

impl EnvParse for String {
    /// Every raw value is accepted verbatim.
    open spec fn parses(s: Seq<char>) -> bool {
        true
    }

    open spec fn parse_model(s: Seq<char>) -> Seq<char> {
        s
    }

    fn parse_env(s: &str) -> (r: Option<Self>) {
        Some(s.to_owned())
    }
}

impl EnvParse for u64 {
    open spec fn parses(s: Seq<char>) -> bool {
        parses_u64(s)
    }

    open spec fn parse_model(s: Seq<char>) -> u64 {
        digits_val(s) as u64
    }

    fn parse_env(s: &str) -> (r: Option<Self>) {
        parse_u64_digits(s)
    }
}

impl EnvParse for u8 {
    open spec fn parses(s: Seq<char>) -> bool {
        s.len() > 0 && all_digits(s) && digits_val(s) <= u8::MAX
    }

    open spec fn parse_model(s: Seq<char>) -> u8 {
        digits_val(s) as u8
    }

    fn parse_env(s: &str) -> (r: Option<Self>) {
        match parse_u64_digits(s) {
            Some(v) => {
                if v <= u8::MAX as u64 {
                    Some(v as u8)
                } else {
                    None
                }
            },
            None => None,
        }
    }
}

impl EnvParse for u32 {
    open spec fn parses(s: Seq<char>) -> bool {
        s.len() > 0 && all_digits(s) && digits_val(s) <= u32::MAX
    }

    open spec fn parse_model(s: Seq<char>) -> u32 {
        digits_val(s) as u32
    }

    fn parse_env(s: &str) -> (r: Option<Self>) {
        match parse_u64_digits(s) {
            Some(v) => {
                if v <= u32::MAX as u64 {
                    Some(v as u32)
                } else {
                    None
                }
            },
            None => None,
        }
    }
}

impl EnvParse for usize {
    open spec fn parses(s: Seq<char>) -> bool {
        s.len() > 0 && all_digits(s) && digits_val(s) <= usize::MAX
    }

    open spec fn parse_model(s: Seq<char>) -> usize {
        digits_val(s) as usize
    }

    fn parse_env(s: &str) -> (r: Option<Self>) {
        match parse_u64_digits(s) {
            Some(v) => {
                if v <= usize::MAX as u64 {
                    Some(v as usize)
                } else {
                    None
                }
            },
            None => None,
        }
    }
}

/// The number written by an optionally `-`-signed digit sequence.
pub open spec fn signed_val(s: Seq<char>) -> int {
    if s.len() > 0 && s[0] == '-' {
        -digits_val(s.skip(1))
    } else {
        digits_val(s)
    }
}

impl EnvParse for i64 {
    /// Digits with one optional leading minus sign.
    open spec fn parses(s: Seq<char>) -> bool {
        if s.len() > 0 && s[0] == '-' {
            let digits = s.skip(1);
            digits.len() > 0 && all_digits(digits) && -digits_val(digits) >= i64::MIN
        } else {
            s.len() > 0 && all_digits(s) && digits_val(s) <= i64::MAX
        }
    }

    open spec fn parse_model(s: Seq<char>) -> i64 {
        signed_val(s) as i64
    }

    fn parse_env(s: &str) -> (r: Option<Self>) {
        let n = s.unicode_len();
        if n > 0 && s.get_char(0) == '-' {
            let digits = s.substring_char(1, n);
            proof {
                assert(digits@ =~= s@.skip(1));
            }
            match parse_u64_digits(digits) {
                Some(v) => {
                    if v <= 9223372036854775807u64 {
                        Some(-(v as i64))
                    } else if v == 9223372036854775808u64 {
                        Some(i64::MIN)
                    } else {
                        None
                    }
                },
                None => None,
            }
        } else {
            match parse_u64_digits(s) {
                Some(v) => {
                    if v <= i64::MAX as u64 {
                        Some(v as i64)
                    } else {
                        None
                    }
                },
                None => None,
            }
        }
    }
}

impl EnvParse for bool {
    /// Only the words `true` and `false` are accepted.
    open spec fn parses(s: Seq<char>) -> bool {
        s == "true"@ || s == "false"@
    }

    open spec fn parse_model(s: Seq<char>) -> bool {
        s == "true"@
    }

    fn parse_env(s: &str) -> (r: Option<Self>) {
        if crate::env::str_eq(s, "true") {
            Some(true)
        } else if crate::env::str_eq(s, "false") {
            proof {
                reveal_strlit("true");
                reveal_strlit("false");
            }
            Some(false)
        } else {
            None
        }
    }
}

} // verus!
