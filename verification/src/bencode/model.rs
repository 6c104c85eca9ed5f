use vstd::prelude::*;

use crate::bencode::errors::{ByteStringDecodeError, DictDecodeError, ListDecodeError};
use crate::text::dec_digits;
use crate::types::{lex_lt, BValue};

verus! {

// ---------------------------------------------------------------------------
// The canonical encoding.
// ---------------------------------------------------------------------------
/// The decimal digits of an integer, with a leading minus sign when negative.
pub open spec fn int_digits(i: int) -> Seq<u8> {
    crate::text::int_digits(i)
}

/// The encoding of a byte string: its length in decimal, a colon, the bytes.
pub open spec fn enc_bytes(b: Seq<u8>) -> Seq<u8> {
    dec_digits(b.len()) + seq![0x3au8] + b
}

/// The canonical encoding of a bencoded value.
pub open spec fn enc(v: BValue) -> Seq<u8>
    decreases v,
{
    match v {
        BValue::Int(i) => seq![0x69u8] + int_digits(i) + seq![0x65u8],
        BValue::Bytes(b) => enc_bytes(b),
        BValue::List(l) => seq![0x6cu8] + enc_seq(l) + seq![0x65u8],
        BValue::Dict(d) => seq![0x64u8] + enc_entries(d) + seq![0x65u8],
    }
}

/// The concatenated encodings of a sequence of values.
pub open spec fn enc_seq(l: Seq<BValue>) -> Seq<u8>
    decreases l,
{
    if l.len() == 0 {
        Seq::empty()
    } else {
        proof {
            assert(decreases_to!(l => l[0]));
        }
        enc(l.first()) + enc_seq(l.drop_first())
    }
}

/// The concatenated encodings of dictionary entries, in stored order.
pub open spec fn enc_entries(d: Seq<(Seq<u8>, BValue)>) -> Seq<u8>
    decreases d,
{
    if d.len() == 0 {
        Seq::empty()
    } else {
        proof {
            assert(decreases_to!(d => d[0]));
            assert(decreases_to!(d[0] => d[0].1));
        }
        enc_bytes(d.first().0) + enc(d.first().1) + enc_entries(d.drop_first())
    }
}

pub proof fn lemma_enc_seq_push(l: Seq<BValue>, x: BValue)
    ensures
        enc_seq(l.push(x)) == enc_seq(l) + enc(x),
    decreases l.len(),
{
    if l.len() == 0 {
        assert(enc_seq(l.push(x)) == enc(l.push(x).first()) + enc_seq(l.push(x).drop_first()));
        assert(l.push(x).drop_first() =~= Seq::<BValue>::empty());
        assert(enc_seq(Seq::<BValue>::empty()) == Seq::<u8>::empty());
        assert(enc_seq(l.push(x)) =~= enc(x));
        assert(enc_seq(l) + enc(x) =~= enc(x));
    } else {
        lemma_enc_seq_push(l.drop_first(), x);
        assert(l.push(x).drop_first() =~= l.drop_first().push(x));
        assert(enc_seq(l.push(x)) == enc(l.first()) + enc_seq(l.drop_first().push(x)));
        assert(enc_seq(l.push(x)) =~= enc_seq(l) + enc(x));
    }
}

pub proof fn lemma_enc_entries_push(d: Seq<(Seq<u8>, BValue)>, k: Seq<u8>, v: BValue)
    ensures
        enc_entries(d.push((k, v))) == enc_entries(d) + enc_bytes(k) + enc(v),
    decreases d.len(),
{
    if d.len() == 0 {
        assert(enc_entries(d.push((k, v))) == enc_bytes(d.push((k, v)).first().0) + enc(
            d.push((k, v)).first().1,
        ) + enc_entries(d.push((k, v)).drop_first()));
        assert(d.push((k, v)).drop_first() =~= Seq::<(Seq<u8>, BValue)>::empty());
        assert(enc_entries(Seq::<(Seq<u8>, BValue)>::empty()) == Seq::<u8>::empty());
        assert(enc_entries(d.push((k, v))) =~= enc_bytes(k) + enc(v));
        assert(enc_entries(d) + enc_bytes(k) + enc(v) =~= enc_bytes(k) + enc(v));
    } else {
        lemma_enc_entries_push(d.drop_first(), k, v);
        assert(d.push((k, v)).drop_first() =~= d.drop_first().push((k, v)));
        assert(enc_entries(d.push((k, v))) == enc_bytes(d.first().0) + enc(d.first().1)
            + enc_entries(d.drop_first().push((k, v))));
        assert(enc_entries(d.push((k, v))) =~= enc_entries(d) + enc_bytes(k) + enc(v));
    }
}

// ---------------------------------------------------------------------------
// Decimal digits as values.
// ---------------------------------------------------------------------------
pub open spec fn is_digit(b: u8) -> bool {
    0x30 <= b <= 0x39
}

pub open spec fn all_digits(s: Seq<u8>) -> bool {
    forall|i: int| 0 <= i < s.len() ==> is_digit(#[trigger] s[i])
}

/// The value of a string of decimal digits, most significant first.
pub open spec fn dec_value(s: Seq<u8>) -> int
    decreases s.len(),
{
    if s.len() == 0 {
        0
    } else {
        dec_value(s.drop_last()) * 10 + (s.last() - 0x30)
    }
}

pub proof fn lemma_dec_value_nonneg(s: Seq<u8>)
    requires
        all_digits(s),
    ensures
        dec_value(s) >= 0,
    decreases s.len(),
{
    if s.len() > 0 {
        assert(all_digits(s.drop_last()));
        lemma_dec_value_nonneg(s.drop_last());
    }
}

/// A longer digit string never has a smaller value.
pub proof fn lemma_dec_value_prefix(s: Seq<u8>, i: int)
    requires
        all_digits(s),
        0 <= i <= s.len(),
    ensures
        dec_value(s.subrange(0, i)) <= dec_value(s),
    decreases s.len(),
{
    if i < s.len() {
        assert(all_digits(s.drop_last()));
        assert(s.subrange(0, i) =~= s.drop_last().subrange(0, i));
        lemma_dec_value_prefix(s.drop_last(), i);
        lemma_dec_value_nonneg(s.drop_last());
    } else {
        assert(s.subrange(0, i) =~= s);
    }
}

/// The decimal digits of a number read back give the number.
pub proof fn lemma_dec_value_of_digits(n: nat)
    ensures
        dec_value(dec_digits(n)) == n,
    decreases n,
{
    if n < 10 {
        assert(dec_digits(n) == seq![(0x30 + n) as u8]);
        assert(dec_digits(n).drop_last() =~= Seq::<u8>::empty());
        assert(dec_value(dec_digits(n)) == dec_value(dec_digits(n).drop_last()) * 10 + (
        dec_digits(n).last() - 0x30));
        assert(dec_value(Seq::<u8>::empty()) == 0);
    } else {
        lemma_dec_value_of_digits(n / 10);
        assert(dec_digits(n) == dec_digits(n / 10).push((0x30 + n % 10) as u8));
        assert(dec_digits(n).drop_last() =~= dec_digits(n / 10));
        assert(dec_value(dec_digits(n)) == dec_value(dec_digits(n).drop_last()) * 10 + (
        dec_digits(n).last() - 0x30));
        assert(n == 10 * (n / 10) + n % 10) by {
            vstd::arithmetic::div_mod::lemma_fundamental_div_mod(n as int, 10);
        }
    }
}

/// The decimal digits of a number start with a zero only for zero
/// itself.
pub proof fn lemma_dec_digits_leading(n: nat)
    ensures
        dec_digits(n)[0] == 0x30 ==> n < 10,
        n < 10 ==> dec_digits(n).len() == 1,
    decreases n,
{
    if n >= 10 {
        lemma_dec_digits_leading(n / 10);
        assert(dec_digits(n) == dec_digits(n / 10).push((0x30 + n % 10) as u8));
        crate::text::lemma_dec_digits_shape(n / 10);
        assert(dec_digits(n)[0] == dec_digits(n / 10)[0]);
    }
}

// ---------------------------------------------------------------------------
// The parser, one spec function per bencoded kind.  Each mirrors exactly
// what the executable decoder of that kind returns, value and error alike.
// ---------------------------------------------------------------------------
/// Scanning the length prefix of a byte string: the position of the
/// first colon, or the first byte that is neither a digit nor a colon.
pub enum LenScan {
    Colon(int),
    Bad(u8, int),
    NoColon,
}

pub open spec fn scan_len(s: Seq<u8>, pos: int) -> LenScan
    decreases s.len() - pos,
{
    if pos < 0 || pos >= s.len() {
        LenScan::NoColon
    } else if s[pos] == 0x3a {
        LenScan::Colon(pos)
    } else if is_digit(s[pos]) {
        scan_len(s, pos + 1)
    } else {
        LenScan::Bad(s[pos], pos)
    }
}

/// What decoding a byte string at the start of `s` yields: the content
/// bytes and the total number of bytes consumed, or the exact error.
pub open spec fn parse_bytes(s: Seq<u8>) -> Result<(Seq<u8>, int), ByteStringDecodeError> {
    if s.len() == 0 {
        Err(ByteStringDecodeError::EmptyInput)
    } else {
        match scan_len(s, 0) {
            LenScan::Bad(b, p) => Err(
                ByteStringDecodeError::UnexpectedByte {
                    unexpected_byte: b,
                    unexpected_byte_ascii: b as char,
                    position: p as usize,
                },
            ),
            LenScan::NoColon => Err(ByteStringDecodeError::ColonNotFound),
            LenScan::Colon(p) => {
                if p == 0 || dec_value(s.subrange(0, p)) > usize::MAX {
                    Err(ByteStringDecodeError::InvalidLength)
                } else {
                    let n = dec_value(s.subrange(0, p));
                    if p + 1 + n > s.len() {
                        Err(
                            ByteStringDecodeError::ContentTooShort {
                                expected: n as usize,
                                found: (s.len() - p - 1) as usize,
                            },
                        )
                    } else {
                        Ok((s.subrange(p + 1, p + 1 + n), p + 1 + n))
                    }
                }
            },
        }
    }
}

/// Failure of parsing a bencoded integer, in mathematical form; the
/// executable decoder maps each case to one `Int64DecodeError` value.
pub enum IntParseError {
    Empty,
    StartNotFound(u8),
    EndNotFound,
    NumberNotFound,
    NegativeZero,
    LeadingZero,
    ParseFailure(Seq<u8>),
}

/// The position of the first occurrence of `b` at or after `pos`.
pub open spec fn find_from(s: Seq<u8>, pos: int, b: u8) -> Option<int>
    decreases s.len() - pos,
{
    if pos < 0 || pos >= s.len() {
        None
    } else if s[pos] == b {
        Some(pos)
    } else {
        find_from(s, pos + 1, b)
    }
}

/// What decoding an integer at the start of `s` yields: the value and
/// the number of bytes consumed, or the exact error.  The digits between
/// `i` and `e` must be an optional minus sign and then decimal digits,
/// with no leading zero on a non-zero magnitude and no minus-zero, and
/// the value must fit in 64 signed bits.
pub open spec fn parse_int(s: Seq<u8>) -> Result<(int, int), IntParseError> {
    if s.len() == 0 {
        Err(IntParseError::Empty)
    } else if s[0] != 0x69 {
        Err(IntParseError::StartNotFound(s[0]))
    } else {
        match find_from(s, 1, 0x65) {
            None => Err(IntParseError::EndNotFound),
            Some(e) => {
                let buf = s.subrange(1, e);
                if buf.len() == 0 {
                    Err(IntParseError::NumberNotFound)
                } else if buf == seq![0x2du8, 0x30u8] {
                    Err(IntParseError::NegativeZero)
                } else {
                    let mag = if buf[0] == 0x2d {
                        buf.drop_first()
                    } else {
                        buf
                    };
                    if mag.len() == 0 || !all_digits(mag) {
                        Err(IntParseError::ParseFailure(buf))
                    } else if mag[0] == 0x30 && mag.len() > 1 {
                        Err(IntParseError::LeadingZero)
                    } else {
                        let value = if buf[0] == 0x2d {
                            -dec_value(mag)
                        } else {
                            dec_value(mag)
                        };
                        if value < i64::MIN || value > i64::MAX {
                            Err(IntParseError::ParseFailure(buf))
                        } else {
                            Ok((value, e + 1))
                        }
                    }
                }
            },
        }
    }
}

/// Failure of parsing a bencoded value of any kind, in mathematical
/// form; the executable decoder maps each case to one `DecodeError`.
pub enum ParseError {
    Empty,
    Bytes(ByteStringDecodeError),
    Int(IntParseError),
    List(ListDecodeError),
    Dict(DictDecodeError),
    UnknownKind(u8),
}

/// What decoding a value at the start of `s` yields, by the first byte:
/// a digit starts a byte string, `i` an integer, `l` a list, `d` a
/// dictionary; anything else is rejected.
pub open spec fn parse_value(s: Seq<u8>) -> Result<(BValue, int), ParseError>
    decreases s.len(), 2int,
{
    if s.len() == 0 {
        Err(ParseError::Empty)
    } else if is_digit(s[0]) {
        match parse_bytes(s) {
            Ok((b, n)) => Ok((BValue::Bytes(b), n)),
            Err(e) => Err(ParseError::Bytes(e)),
        }
    } else if s[0] == 0x69 {
        match parse_int(s) {
            Ok((i, n)) => Ok((BValue::Int(i), n)),
            Err(e) => Err(ParseError::Int(e)),
        }
    } else if s[0] == 0x6c {
        match parse_list(s) {
            Ok((l, n)) => Ok((BValue::List(l), n)),
            Err(e) => Err(ParseError::List(e)),
        }
    } else if s[0] == 0x64 {
        match parse_dict(s) {
            Ok((d, n)) => Ok((BValue::Dict(d), n)),
            Err(e) => Err(ParseError::Dict(e)),
        }
    } else {
        Err(ParseError::UnknownKind(s[0]))
    }
}

/// What decoding a list at the start of `s` yields.
pub open spec fn parse_list(s: Seq<u8>) -> Result<(Seq<BValue>, int), ListDecodeError>
    decreases s.len(), 1int,
{
    if s.len() == 0 {
        Err(ListDecodeError::EmptyInput)
    } else if s[0] != 0x6c {
        Err(ListDecodeError::StartNotFound { found: s[0], found_as_ascii: s[0] as char })
    } else {
        parse_items(s, 1, Seq::empty())
    }
}

/// What decoding a dictionary at the start of `s` yields.  Entries keep
/// the order in which they appear in the input.
pub open spec fn parse_dict(s: Seq<u8>) -> Result<(Seq<(Seq<u8>, BValue)>, int), DictDecodeError>
    decreases s.len(), 1int,
{
    if s.len() == 0 {
        Err(DictDecodeError::EmptyInput)
    } else if s[0] != 0x64 {
        Err(DictDecodeError::StartNotFound { found: s[0], found_as_ascii: s[0] as char })
    } else {
        parse_entries(s, 1, Seq::empty())
    }
}

/// List elements from `pos` up to the closing `e`, appended to `acc`;
/// the second result is the position one past the closing `e`.
pub open spec fn parse_items(s: Seq<u8>, pos: int, acc: Seq<BValue>) -> Result<
    (Seq<BValue>, int),
    ListDecodeError,
>
    decreases s.len() - pos, 3int,
{
    if pos < 0 || pos >= s.len() {
        Err(ListDecodeError::EndNotFound)
    } else if s[pos] == 0x65 {
        Ok((acc, pos + 1))
    } else {
        match parse_value(s.subrange(pos, s.len() as int)) {
            Err(_) => Err(ListDecodeError::ElementDecodeError { position: pos as usize }),
            Ok((v, n)) => {
                if 1 <= n <= s.len() - pos {
                    parse_items(s, pos + n, acc.push(v))
                } else {
                    Err(ListDecodeError::EndNotFound)
                }
            },
        }
    }
}

/// Dictionary entries from `pos` up to the closing `e`, appended to
/// `acc` in input order; the second result is the position one past the
/// closing `e`.
pub open spec fn parse_entries(
    s: Seq<u8>,
    pos: int,
    acc: Seq<(Seq<u8>, BValue)>,
) -> Result<(Seq<(Seq<u8>, BValue)>, int), DictDecodeError>
    decreases s.len() - pos, 3int,
{
    if pos < 0 || pos >= s.len() {
        Err(DictDecodeError::EndNotFound)
    } else if s[pos] == 0x65 {
        Ok((acc, pos + 1))
    } else if !is_digit(s[pos]) {
        Err(
            DictDecodeError::KeyDecodeError(
                ByteStringDecodeError::UnexpectedByte {
                    unexpected_byte: s[pos],
                    unexpected_byte_ascii: s[pos] as char,
                    position: pos as usize,
                },
            ),
        )
    } else {
        match parse_bytes(s.subrange(pos, s.len() as int)) {
            Err(e) => Err(DictDecodeError::KeyDecodeError(e)),
            Ok((key, kn)) => {
                if !(1 <= kn <= s.len() - pos) {
                    Err(DictDecodeError::EndNotFound)
                } else {
                    match parse_value(s.subrange(pos + kn, s.len() as int)) {
                        Err(_) => Err(
                            DictDecodeError::ValueDecodeError { position: (pos + kn) as usize },
                        ),
                        Ok((v, vn)) => {
                            if 1 <= vn <= s.len() - pos - kn {
                                parse_entries(s, pos + kn + vn, acc.push((key, v)))
                            } else {
                                Err(DictDecodeError::EndNotFound)
                            }
                        },
                    }
                }
            },
        }
    }
}

// ---------------------------------------------------------------------------
// Basic facts about the parser.
// ---------------------------------------------------------------------------
pub proof fn lemma_scan_len_shape(s: Seq<u8>, pos: int, p: int)
    requires
        0 <= pos,
        scan_len(s, pos) == LenScan::Colon(p),
    ensures
        pos <= p < s.len(),
        s[p] == 0x3a,
        forall|j: int| pos <= j < p ==> is_digit(#[trigger] s[j]),
    decreases s.len() - pos,
{
    if pos < s.len() && s[pos] != 0x3a && is_digit(s[pos]) {
        lemma_scan_len_shape(s, pos + 1, p);
    }
}

pub proof fn lemma_find_from_shape(s: Seq<u8>, pos: int, b: u8, p: int)
    requires
        0 <= pos,
        find_from(s, pos, b) == Some(p),
    ensures
        pos <= p < s.len(),
        s[p] == b,
        forall|j: int| pos <= j < p ==> s[j] != b,
    decreases s.len() - pos,
{
    if pos < s.len() && s[pos] != b {
        lemma_find_from_shape(s, pos + 1, b, p);
    }
}

/// A successful parse consumes between one byte and the whole input.
pub proof fn lemma_parse_bytes_bounds(s: Seq<u8>)
    ensures
        parse_bytes(s) matches Ok((b, n)) ==> 2 <= n <= s.len() && b.len() < n,
{
    if parse_bytes(s) is Ok {
        let p = scan_len(s, 0)->Colon_0;
        lemma_scan_len_shape(s, 0, p);
        let digits = s.subrange(0, p);
        assert(all_digits(digits));
        lemma_dec_value_nonneg(digits);
    }
}

pub proof fn lemma_parse_int_bounds(s: Seq<u8>)
    ensures
        parse_int(s) matches Ok((v, n)) ==> 2 <= n <= s.len(),
{
    if parse_int(s) is Ok {
        let e = find_from(s, 1, 0x65)->0;
        lemma_find_from_shape(s, 1, 0x65, e);
    }
}

pub proof fn lemma_parse_value_bounds(s: Seq<u8>)
    ensures
        parse_value(s) matches Ok((v, n)) ==> 1 <= n <= s.len(),
    decreases s.len(), 2int,
{
    if s.len() > 0 {
        if is_digit(s[0]) {
            lemma_parse_bytes_bounds(s);
        } else if s[0] == 0x69 {
            lemma_parse_int_bounds(s);
        } else if s[0] == 0x6c {
            lemma_parse_list_bounds(s);
        } else if s[0] == 0x64 {
            lemma_parse_dict_bounds(s);
        }
    }
}

pub proof fn lemma_parse_list_bounds(s: Seq<u8>)
    ensures
        parse_list(s) matches Ok((l, n)) ==> 2 <= n <= s.len(),
    decreases s.len(), 1int,
{
    if s.len() > 0 && s[0] == 0x6c {
        lemma_parse_items_bounds(s, 1, Seq::empty());
    }
}

pub proof fn lemma_parse_dict_bounds(s: Seq<u8>)
    ensures
        parse_dict(s) matches Ok((d, n)) ==> 2 <= n <= s.len(),
    decreases s.len(), 1int,
{
    if s.len() > 0 && s[0] == 0x64 {
        lemma_parse_entries_bounds(s, 1, Seq::empty());
    }
}

pub proof fn lemma_parse_items_bounds(s: Seq<u8>, pos: int, acc: Seq<BValue>)
    ensures
        parse_items(s, pos, acc) matches Ok((l, end)) ==> pos + 1 <= end <= s.len(),
    decreases s.len() - pos, 3int,
{
    if 0 <= pos < s.len() && s[pos] != 0x65 {
        match parse_value(s.subrange(pos, s.len() as int)) {
            Err(_) => {},
            Ok((v, n)) => {
                if 1 <= n <= s.len() - pos {
                    lemma_parse_items_bounds(s, pos + n, acc.push(v));
                }
            },
        }
    }
}

pub proof fn lemma_parse_entries_bounds(s: Seq<u8>, pos: int, acc: Seq<(Seq<u8>, BValue)>)
    ensures
        parse_entries(s, pos, acc) matches Ok((d, end)) ==> pos + 1 <= end <= s.len(),
    decreases s.len() - pos, 3int,
{
    if 0 <= pos < s.len() && s[pos] != 0x65 && is_digit(s[pos]) {
        match parse_bytes(s.subrange(pos, s.len() as int)) {
            Err(_) => {},
            Ok((key, kn)) => {
                if 1 <= kn <= s.len() - pos {
                    match parse_value(s.subrange(pos + kn, s.len() as int)) {
                        Err(_) => {},
                        Ok((v, vn)) => {
                            if 1 <= vn <= s.len() - pos - kn {
                                lemma_parse_entries_bounds(s, pos + kn + vn, acc.push((key, v)));
                            }
                        },
                    }
                }
            },
        }
    }
}

// ---------------------------------------------------------------------------
// How the executable error values realize the mathematical ones.
// ---------------------------------------------------------------------------
/// Which `Int64DecodeError` value the decoder returns for each
/// mathematical parse failure.
pub open spec fn int_err_matches(e: crate::bencode::errors::Int64DecodeError, m: IntParseError) -> bool {
    match m {
        IntParseError::Empty => e == crate::bencode::errors::Int64DecodeError::EmptyInput,
        IntParseError::StartNotFound(b) => e
            == (crate::bencode::errors::Int64DecodeError::StartNotFound {
            found: b,
            found_as_ascii: b as char,
        }),
        IntParseError::EndNotFound => e == crate::bencode::errors::Int64DecodeError::EndNotFound,
        IntParseError::NumberNotFound => e
            == crate::bencode::errors::Int64DecodeError::NumberNotFound,
        IntParseError::NegativeZero => e matches crate::bencode::errors::Int64DecodeError::InvalidNumberError(s)
            && s@ == "-0 is not valid for bencoded integers."@,
        IntParseError::LeadingZero => e matches crate::bencode::errors::Int64DecodeError::InvalidNumberError(s)
            && s@ == "Bencoded integers other than 0 can not have leading zeroes."@,
        IntParseError::ParseFailure(buf) => e matches crate::bencode::errors::Int64DecodeError::NumberParseIntError(v)
            && v@ == buf,
    }
}

/// Which `DecodeError` value the decoder returns for each mathematical
/// parse failure.
pub open spec fn decode_err_matches(e: crate::bencode::errors::DecodeError, m: ParseError) -> bool {
    match m {
        ParseError::Empty => e == crate::bencode::errors::DecodeError::EmptyInput,
        ParseError::Bytes(be) => e == crate::bencode::errors::DecodeError::ByteStringDecodeError(
            be,
        ),
        ParseError::Int(ie) => e matches crate::bencode::errors::DecodeError::Int64DecodeError(x)
            && int_err_matches(x, ie),
        ParseError::List(le) => e == crate::bencode::errors::DecodeError::ListDecodeError(le),
        ParseError::Dict(de) => e == crate::bencode::errors::DecodeError::DictDecodeError(de),
        ParseError::UnknownKind(b) => e matches crate::bencode::errors::DecodeError::Other(s)
            && s@ == crate::bencode::errors::msg_unknown_value_start(b),
    }
}

/// The whole-input parse: what `decode` yields on `s`.
pub open spec fn parse_top(s: Seq<u8>) -> Result<(BValue, int), ParseError> {
    parse_value(s)
}

} // verus!
