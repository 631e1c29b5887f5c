//! Small string helpers: comparison, character appending, decimal rendering.

use vstd::prelude::*;
use vstd::string::StrSliceExecFns;

verus! {

/// Compares two string slices by their character sequences.
pub fn str_eq(a: &str, b: &str) -> (r: bool)
    ensures
        r == (a@ == b@),
{
    let la = a.unicode_len();
    let lb = b.unicode_len();
    if la != lb {
        return false;
    }
    let mut i: usize = 0;
    while i < la
        invariant
            la == a@.len(),
            lb == b@.len(),
            la == lb,
            i <= la,
            forall|j: int| 0 <= j < i ==> a@[j] == b@[j],
        decreases la - i,
    {
        if a.get_char(i) != b.get_char(i) {
            return false;
        }
        i += 1;
    }
    proof {
        assert(a@ =~= b@);
    }
    true
}

/// Relies on String::push: appends exactly the given character to the string.
#[verifier::external_body]
pub fn push_char(s: &mut String, c: char)
    ensures
        final(s)@ == old(s)@ + seq![c],
{
    s.push(c)
}

/// The character for a single decimal digit.
pub open spec fn spec_digit_char(d: int) -> char {
    ((48 + d) as u8) as char
}

/// The decimal rendering of a number, most significant digit first.
pub open spec fn spec_decimal(n: nat) -> Seq<char>
    decreases n,
{
    if n < 10 {
        seq![spec_digit_char(n as int)]
    } else {
        spec_decimal(n / 10) + seq![spec_digit_char((n % 10) as int)]
    }
}

/// Renders a number in decimal notation.
pub fn u64_to_string(n: u64) -> (r: String)
    ensures
        r@ == spec_decimal(n as nat),
{
    let mut rev: Vec<char> = Vec::new();
    let mut m: u64 = n;
    proof {
        assert(rev@.reverse() =~= Seq::<char>::empty());
        assert(spec_decimal(n as nat) =~= spec_decimal(m as nat) + rev@.reverse());
    }
    loop
        invariant_except_break
            spec_decimal(n as nat) == spec_decimal(m as nat) + rev@.reverse(),
        ensures
            spec_decimal(n as nat) == rev@.reverse(),
        decreases m,
    {
        let d: u64 = m % 10;
        let c: char = (48u8 + d as u8) as char;
        let ghost rev_old = rev@;
        rev.push(c);
        proof {
            assert(c == spec_digit_char((m as nat % 10) as int));
            assert(rev@.reverse() =~= seq![c] + rev_old.reverse());
            if m < 10 {
                assert(spec_decimal(m as nat) == seq![c]);
                assert(spec_decimal(n as nat) =~= rev@.reverse());
            } else {
                assert(spec_decimal(m as nat) == spec_decimal((m / 10) as nat) + seq![c]);
                assert(spec_decimal(n as nat) =~= spec_decimal((m / 10) as nat) + rev@.reverse());
            }
        }
        if m < 10 {
            break;
        }
        m = m / 10;
    }
    let mut s = String::new();
    let total = rev.len();
    let mut i: usize = total;
    while i > 0
        invariant
            total == rev@.len(),
            i <= total,
            s@ == rev@.reverse().take(total - i),
        decreases i,
    {
        i -= 1;
        let c = rev[i];
        push_char(&mut s, c);
        proof {
            assert(rev@.reverse()[total - i - 1] == rev@[i as int]);
            assert(s@ =~= rev@.reverse().take(total - i));
        }
    }
    proof {
        assert(s@ =~= rev@.reverse());
    }
    s
}

} // verus!
