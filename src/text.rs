use vstd::prelude::*;
use vstd::utf8::{decode_utf8, encode_utf8, encode_utf8_decode_utf8};

verus! {

/// The character of the decimal digit `d < 10`.
pub open spec fn digit_char(d: nat) -> char {
    if d == 0 { '0' }
    else if d == 1 { '1' }
    else if d == 2 { '2' }
    else if d == 3 { '3' }
    else if d == 4 { '4' }
    else if d == 5 { '5' }
    else if d == 6 { '6' }
    else if d == 7 { '7' }
    else if d == 8 { '8' }
    else { '9' }
}

/// The decimal digits of `n`, without sign or leading zeros.
pub open spec fn decimal_chars(n: nat) -> Seq<char>
    decreases n,
{
    if n < 10 {
        seq![digit_char(n)]
    } else {
        decimal_chars(n / 10).push(digit_char(n % 10))
    }
}

/// Relies on `u32`'s `to_string`: its decimal digits.
#[verifier::external_body]
pub fn u32_text(n: u32) -> (r: String)
    ensures
        r@ == decimal_chars(n as nat),
{
    n.to_string()
}

/// Relies on `u64`'s `to_string`: its decimal digits.
#[verifier::external_body]
pub fn u64_text(n: u64) -> (r: String)
    ensures
        r@ == decimal_chars(n as nat),
{
    n.to_string()
}

/// Whether two strings hold the same characters.
pub fn str_eq(a: &str, b: &str) -> (r: bool)
    ensures
        r == (a@ == b@),
{
    let x = a.as_bytes();
    let y = b.as_bytes();
    proof {
        encode_utf8_decode_utf8(a@);
        encode_utf8_decode_utf8(b@);
    }
    proof {
        assert(x@ == encode_utf8(a@));
        assert(y@ == encode_utf8(b@));
    }
    if x.len() != y.len() {
        proof {
            assert(x@.len() != y@.len());
            assert(x@ != y@);
        }
        return false;
    }
    let mut i: usize = 0;
    while i < x.len()
        invariant
            i <= x@.len() == y@.len(),
            x@ == encode_utf8(a@),
            y@ == encode_utf8(b@),
            decode_utf8(x@) == a@,
            decode_utf8(y@) == b@,
            forall|j: int| 0 <= j < i ==> x@[j] == y@[j],
        decreases x@.len() - i,
    {
        if x[i] != y[i] {
            proof {
                assert(x@[i as int] != y@[i as int]);
                assert(x@ != y@);
            }
            return false;
        }
        i = i + 1;
    }
    proof {
        assert(x@ =~= y@);
    }
    true
}

/// Whether `c` is an ASCII decimal digit.
pub open spec fn is_ascii_digit(c: char) -> bool {
    '0' <= c <= '9'
}

/// Whether `s` is non-empty and all ASCII decimal digits.
pub fn all_ascii_digits(s: &str) -> (r: bool)
    ensures
        r == (s@.len() > 0 && forall|i: int| 0 <= i < s@.len() ==> #[trigger] is_ascii_digit(s@[i])),
{
    if !s.is_ascii() {
        proof {
            if s@.len() > 0 && forall|i: int| 0 <= i < s@.len() ==> #[trigger] is_ascii_digit(s@[i]) {
                assert forall|i: int| 0 <= i < s@.len() implies '\0' <= #[trigger] s@[i] <= '\u{7f}' by {
                    assert(is_ascii_digit(s@[i]));
                }
                assert(vstd::utf8::is_ascii_chars(s@));
            }
        }
        return false;
    }
    let b = s.as_bytes();
    proof {
        vstd::string::is_ascii_spec_bytes(s);
    }
    if b.len() == 0 {
        return false;
    }
    let mut i: usize = 0;
    while i < b.len()
        invariant
            i <= b@.len() == s@.len(),
            forall|j: int| 0 <= j < b@.len() ==> #[trigger] b@[j] == s@[j] as u8,
            vstd::utf8::is_ascii_chars(s@),
            forall|j: int| 0 <= j < i ==> #[trigger] is_ascii_digit(s@[j]),
        decreases b@.len() - i,
    {
        let ghost c = s@[i as int];
        proof {
            vstd::utf8::is_ascii_chars_nat_bound(s@);
            assert((c as nat) < 128);
            assert(b@[i as int] == c as u8);
            assert(b@[i as int] as u32 == c as u32);
        }
        if !(b[i] >= 0x30 && b[i] <= 0x39) {
            proof {
                assert('0' as u32 == 48 && '9' as u32 == 57);
                assert(!is_ascii_digit(c));
            }
            return false;
        }
        i = i + 1;
    }
    true
}

} // verus!
