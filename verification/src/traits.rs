//! The interface that whole-record binders implement, and the naming
//! convention they use: a field name is folded to ASCII upper case to
//! obtain the variable name, with no other transformation.

use vstd::prelude::*;

use crate::env::EnvVars;

verus! {

/// A record whose fields can all be resolved from an environment
/// table.  A binder resolves every field with no default and stops at
/// the first field that fails.
pub trait Decouple {
    type Error;

    fn parse(env: &EnvVars) -> Result<Self, Self::Error> where Self: Sized;
}

/// `c` with an ASCII lower-case letter folded to upper case; any other
/// character is kept as it is.
pub open spec fn upper_char(c: char) -> char {
    if 'a' <= c && c <= 'z' {
        ((c as u8) - 32) as char
    } else {
        c
    }
}

/// A name folded to ASCII upper case, character by character.
pub open spec fn upper_name(s: Seq<char>) -> Seq<char> {
    s.map_values(|c: char| upper_char(c))
}

/// Relies on `String::push`: appends the one character at the end.
#[verifier::external_body]
fn push_char(s: &mut String, c: char)
    ensures
        final(s)@ == old(s)@.push(c),
{
    s.push(c);
}

/// The variable name a binder reads a field from: the field's name
/// folded to ASCII upper case.
pub fn env_var_name(field: &str) -> (r: String)
    ensures
        r@ == upper_name(field@),
{
    let n = field.unicode_len();
    let mut out = String::new();
    let mut i: usize = 0;
    while i < n
        invariant
            n == field@.len(),
            i <= n,
            out@ == upper_name(field@.take(i as int)),
        decreases n - i,
    {
        let c = field.get_char(i);
        let up: char = if 'a' <= c && c <= 'z' {
            ((c as u8) - 32) as char
        } else {
            c
        };
        push_char(&mut out, up);
        proof {
            assert(field@.take(i + 1).drop_last() =~= field@.take(i as int));
            assert(field@.take(i + 1).last() == field@[i as int]);
            assert(out@ =~= upper_name(field@.take(i + 1)));
        }
        i += 1;
    }
    proof {
        assert(field@.take(n as int) =~= field@);
    }
    out
}

} // verus!
