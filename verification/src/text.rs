use vstd::prelude::*;
use vstd::string::StringSliceAdditionalSpecFns;

verus! {

/// The characters whose code points are the given bytes, one each.
pub open spec fn chars_of_bytes(s: Seq<u8>) -> Seq<char> {
    s.map_values(|b: u8| b as char)
}

/// The decimal digits of a natural number, most significant first.
pub open spec fn dec_digits(n: nat) -> Seq<u8>
    decreases n,
{
    if n < 10 {
        seq![(0x30 + n) as u8]
    } else {
        dec_digits(n / 10).push((0x30 + n % 10) as u8)
    }
}

/// The decimal form of an integer: a minus sign for a negative one,
/// then the digits of its magnitude.
pub open spec fn int_digits(i: int) -> Seq<u8> {
    if i >= 0 {
        dec_digits(i as nat)
    } else {
        seq![0x2du8] + dec_digits((-i) as nat)
    }
}

pub open spec fn dec_chars(n: nat) -> Seq<char> {
    chars_of_bytes(dec_digits(n))
}

pub open spec fn int_chars(i: int) -> Seq<char> {
    chars_of_bytes(int_digits(i))
}

pub broadcast proof fn lemma_dec_digits_shape(n: nat)
    ensures
        (#[trigger] dec_digits(n)).len() >= 1,
        forall|i: int|
            0 <= i < dec_digits(n).len() ==> 0x30 <= #[trigger] dec_digits(n)[i] <= 0x39,
    decreases n,
{
    if n >= 10 {
        lemma_dec_digits_shape(n / 10);
        assert(dec_digits(n) == dec_digits(n / 10).push((0x30 + n % 10) as u8));
    }
}

/// Relies on String::push: appends exactly one character.
#[verifier::external_body]
pub fn push_char(s: &mut String, c: char)
    ensures
        final(s)@ == old(s)@.push(c),
{
    s.push(c);
}

/// Builds the string whose characters are the given bytes, one each.
pub fn bytes_to_string(bytes: &Vec<u8>) -> (s: String)
    ensures
        s@ == chars_of_bytes(bytes@),
{
    let mut s = String::new();
    let mut i: usize = 0;
    while i < bytes.len()
        invariant
            i <= bytes@.len(),
            s@ == chars_of_bytes(bytes@.subrange(0, i as int)),
        decreases bytes@.len() - i,
    {
        let b = bytes[i];
        push_char(&mut s, b as char);
        proof {
            assert(s@ =~= chars_of_bytes(bytes@.subrange(0, i as int + 1)));
        }
        i = i + 1;
    }
    proof {
        assert(bytes@.subrange(0, bytes@.len() as int) =~= bytes@);
    }
    s
}

/// The decimal digits of `n`, as bytes.
pub fn u64_dec_bytes(n: u64) -> (v: Vec<u8>)
    ensures
        v@ == dec_digits(n as nat),
{
    let mut out: Vec<u8> = Vec::new();
    let mut m: u64 = n;
    loop
        invariant_except_break
            dec_digits(n as nat) =~= dec_digits(m as nat) + out@,
        ensures
            dec_digits(n as nat) =~= out@,
        decreases m,
    {
        let ghost out0 = out@;
        let d: u8 = (m % 10) as u8;
        out.insert(0, 0x30 + d);
        proof {
            assert(out@ =~= seq![(0x30 + (m as nat) % 10) as u8] + out0);
        }
        if m < 10 {
            proof {
                assert(dec_digits(m as nat) == seq![(0x30 + m as nat) as u8]);
                assert(dec_digits(n as nat) =~= out@);
            }
            break;
        }
        proof {
            assert(dec_digits(m as nat) == dec_digits((m as nat) / 10).push(
                (0x30 + (m as nat) % 10) as u8,
            ));
        }
        m = m / 10;
    }
    out
}

/// The decimal form of `i`, as bytes, with a minus sign if negative.
pub fn i64_dec_bytes(i: i64) -> (v: Vec<u8>)
    ensures
        v@ == int_digits(i as int),
{
    if i >= 0 {
        u64_dec_bytes(i as u64)
    } else {
        let mut v: Vec<u8> = Vec::new();
        v.push(0x2d);
        let magnitude: u64 = (-(i as i128)) as u64;
        let mut digits = u64_dec_bytes(magnitude);
        v.append(&mut digits);
        proof {
            assert(v@ =~= int_digits(i as int));
        }
        v
    }
}

/// The decimal form of `n` as a string.
pub fn u64_to_string(n: u64) -> (s: String)
    ensures
        s@ == dec_chars(n as nat),
{
    let bytes = u64_dec_bytes(n);
    bytes_to_string(&bytes)
}

/// The decimal form of `i` as a string, with a minus sign if negative.
pub fn i64_to_string(i: i64) -> (s: String)
    ensures
        s@ == int_chars(i as int),
{
    if i >= 0 {
        u64_to_string(i as u64)
    } else {
        let mut s = String::new();
        push_char(&mut s, '-');
        let magnitude: u64 = (-(i as i128)) as u64;
        let digits = u64_to_string(magnitude);
        let r = s.concat(digits.as_str());
        proof {
            assert(r@ =~= int_chars(i as int));
        }
        r
    }
}

/// What `String::from_utf8_lossy` returns for the given bytes: it is a
/// function of the bytes alone.
pub uninterp spec fn lossy_chars(bytes: Seq<u8>) -> Seq<char>;

/// Relies on String::from_utf8_lossy: the result depends on the bytes
/// alone, and a pure-ASCII input decodes to its own characters.
#[verifier::external_body]
pub fn utf8_lossy(bytes: &Vec<u8>) -> (s: String)
    ensures
        s@ == lossy_chars(bytes@),
        (forall|i: int| 0 <= i < bytes@.len() ==> bytes@[i] < 0x80) ==> s@ == chars_of_bytes(
            bytes@,
        ),
{
    String::from_utf8_lossy(bytes.as_slice()).into_owned()
}

/// The lowercase hexadecimal digit for a value below sixteen.
pub open spec fn hex_digit(n: u8) -> char {
    if n < 10 {
        ((0x30 + n) as u8) as char
    } else {
        ((0x57 + n) as u8) as char
    }
}

/// Two lowercase hexadecimal digits per byte, in byte order.
pub open spec fn hex_chars(bytes: Seq<u8>) -> Seq<char>
    decreases bytes.len(),
{
    if bytes.len() == 0 {
        Seq::empty()
    } else {
        hex_chars(bytes.drop_last()).push(hex_digit(bytes.last() / 16)).push(
            hex_digit(bytes.last() % 16),
        )
    }
}

/// Relies on hex::encode: two lowercase hexadecimal digits per byte,
/// in byte order.
#[verifier::external_body]
pub fn hex_encode(bytes: &Vec<u8>) -> (s: String)
    ensures
        s@ == hex_chars(bytes@),
{
    hex::encode(bytes.as_slice())
}

/// The low 32 bits of a signed value: how a 32-bit count is stored
/// when it is read from a signed field.
pub fn wrap_u32(x: i64) -> (r: u32)
    ensures
        r as int == (x as int) % 0x100000000,
{
    let m = x % 0x100000000i64;
    let m2 = if m < 0 {
        m + 0x100000000i64
    } else {
        m
    };
    m2 as u32
}

/// Whether two byte slices hold the same bytes.
pub fn bytes_eq(a: &[u8], b: &[u8]) -> (r: bool)
    ensures
        r == (a@ == b@),
{
    if a.len() != b.len() {
        return false;
    }
    let mut i: usize = 0;
    while i < a.len()
        invariant
            a@.len() == b@.len(),
            i <= a@.len(),
            forall|j: int| 0 <= j < i ==> a@[j] == b@[j],
        decreases a@.len() - i,
    {
        if a[i] != b[i] {
            return false;
        }
        i = i + 1;
    }
    proof {
        assert(a@ =~= b@);
    }
    true
}

/// Relies on str's equality operator: two string slices are equal
/// exactly when their characters are.
#[verifier::external_body]
pub fn str_eq(a: &str, b: &str) -> (r: bool)
    ensures
        r == (a@ == b@),
{
    a == b
}

/// Whether the bytes equal the UTF-8 bytes of the given string.
pub fn str_bytes_eq(a: &[u8], s: &str) -> (r: bool)
    ensures
        r == (a@ == s.spec_bytes()),
{
    bytes_eq(a, s.as_bytes())
}

/// Whether `a` comes strictly before `b` in byte order.
pub fn lex_less(a: &[u8], b: &[u8]) -> (r: bool)
    ensures
        r == crate::types::lex_lt(a@, b@),
{
    let mut i: usize = 0;
    proof {
        assert(a@.subrange(0, a@.len() as int) =~= a@);
        assert(b@.subrange(0, b@.len() as int) =~= b@);
    }
    loop
        invariant
            i <= a@.len(),
            i <= b@.len(),
            crate::types::lex_lt(a@, b@) == crate::types::lex_lt(
                a@.subrange(i as int, a@.len() as int),
                b@.subrange(i as int, b@.len() as int),
            ),
        decreases a@.len() - i,
    {
        let ghost ar = a@.subrange(i as int, a@.len() as int);
        let ghost br = b@.subrange(i as int, b@.len() as int);
        if i >= b.len() {
            proof {
                assert(br.len() == 0);
            }
            return false;
        }
        if i >= a.len() {
            proof {
                assert(ar.len() == 0 && br.len() > 0);
            }
            return true;
        }
        let x = a[i];
        let y = b[i];
        proof {
            assert(ar[0] == x && br[0] == y);
        }
        if x < y {
            return true;
        }
        if x > y {
            return false;
        }
        proof {
            assert(ar.drop_first() =~= a@.subrange(i as int + 1, a@.len() as int));
            assert(br.drop_first() =~= b@.subrange(i as int + 1, b@.len() as int));
        }
        i = i + 1;
    }
}

} // verus!
