use vstd::prelude::*;

use crate::bencode::errors::{
    ByteStringDecodeError, DecodeError, DictDecodeError, Int64DecodeError, ListDecodeError,
};
use crate::bencode::model::{
    all_digits, dec_value, decode_err_matches, find_from, int_err_matches, is_digit,
    lemma_dec_value_prefix, lemma_parse_bytes_bounds, lemma_parse_value_bounds, parse_bytes,
    parse_dict, parse_entries, parse_int, parse_items, parse_list, parse_value, IntParseError,
    LenScan, ParseError,
};
use crate::types::{entry_models, models, BValue, ByteString, DataType};

verus! {

/// Decodes a byte string: decimal length, colon, that many bytes.
/// Returns the content and the number of bytes consumed.
pub fn decode_byte_string(bencoded: &[u8]) -> (r: Result<
    (ByteString, usize),
    ByteStringDecodeError,
>)
    ensures
        match r {
            Ok(p) => parse_bytes(bencoded@) == Ok::<_, ByteStringDecodeError>(
                (p.0@, p.1 as int),
            ),
            Err(e) => parse_bytes(bencoded@) == Err::<(Seq<u8>, int), _>(e),
        },
{
    let ghost s = bencoded@;
    if bencoded.len() == 0 {
        return Err(ByteStringDecodeError::EmptyInput);
    }
    let mut pos: usize = 0;
    loop
        invariant_except_break
            pos <= s.len(),
            s.len() >= 1,
            s == bencoded@,
            crate::bencode::model::scan_len(s, 0) == crate::bencode::model::scan_len(
                s,
                pos as int,
            ),
            forall|j: int| 0 <= j < pos ==> is_digit(#[trigger] s[j]),
        ensures
            s == bencoded@,
            pos < s.len(),
            s[pos as int] == 0x3a,
            crate::bencode::model::scan_len(s, 0) == LenScan::Colon(pos as int),
            forall|j: int| 0 <= j < pos ==> is_digit(#[trigger] s[j]),
        decreases s.len() - pos,
    {
        if pos >= bencoded.len() {
            proof {
                assert(crate::bencode::model::scan_len(s, pos as int) == LenScan::NoColon);
            }
            return Err(ByteStringDecodeError::ColonNotFound);
        }
        let b = bencoded[pos];
        if b == 0x3a {
            break;
        }
        if !(0x30 <= b && b <= 0x39) {
            proof {
                assert(crate::bencode::model::scan_len(s, pos as int) == LenScan::Bad(
                    b,
                    pos as int,
                ));
            }
            return Err(
                ByteStringDecodeError::UnexpectedByte {
                    unexpected_byte: b,
                    unexpected_byte_ascii: b as char,
                    position: pos,
                },
            );
        }
        pos = pos + 1;
    }
    if pos == 0 {
        return Err(ByteStringDecodeError::InvalidLength);
    }
    let ghost digits = s.subrange(0, pos as int);
    proof {
        assert(all_digits(digits));
    }
    let mut val: usize = 0;
    let mut j: usize = 0;
    proof {
        assert(s.subrange(0, 0) =~= Seq::<u8>::empty());
    }
    while j < pos
        invariant
            j <= pos,
            1 <= pos < s.len(),
            s == bencoded@,
            crate::bencode::model::scan_len(s, 0) == LenScan::Colon(pos as int),
            digits == s.subrange(0, pos as int),
            all_digits(digits),
            forall|j2: int| 0 <= j2 < pos ==> is_digit(#[trigger] s[j2]),
            val == dec_value(s.subrange(0, j as int)),
        decreases pos - j,
    {
        let d = bencoded[j] - 0x30;
        proof {
            assert(s.subrange(0, j as int + 1).drop_last() =~= s.subrange(0, j as int));
            assert(dec_value(s.subrange(0, j as int + 1)) == dec_value(s.subrange(0, j as int))
                * 10 + d);
            lemma_dec_value_prefix(digits, j as int + 1);
            assert(digits.subrange(0, j as int + 1) =~= s.subrange(0, j as int + 1));
        }
        let scaled = match val.checked_mul(10) {
            Some(x) => x,
            None => {
                proof {
                    assert(dec_value(s.subrange(0, j as int + 1)) > usize::MAX);
                }
                return Err(ByteStringDecodeError::InvalidLength);
            },
        };
        val = match scaled.checked_add(d as usize) {
            Some(x) => x,
            None => {
                proof {
                    assert(dec_value(s.subrange(0, j as int + 1)) > usize::MAX);
                }
                return Err(ByteStringDecodeError::InvalidLength);
            },
        };
        j = j + 1;
    }
    proof {
        assert(s.subrange(0, pos as int) == digits);
        assert(val == dec_value(digits));
    }
    let remaining = bencoded.len() - (pos + 1);
    if val > remaining {
        return Err(ByteStringDecodeError::ContentTooShort { expected: val, found: remaining });
    }
    let n = pos + 1 + val;
    let data: &[u8] = &bencoded[pos + 1..n];
    let content = ByteString::new(&vstd::slice::slice_to_vec(data));
    Ok((content, n))
}

/// Decodes an integer: `i`, an optional minus sign and decimal digits,
/// `e`.  Rejects minus-zero, leading zeros on a non-zero magnitude, and
/// values outside 64 signed bits.
pub fn decode_i64(bencoded: &[u8]) -> (r: Result<(i64, usize), Int64DecodeError>)
    ensures
        match r {
            Ok(p) => parse_int(bencoded@) == Ok::<_, IntParseError>((p.0 as int, p.1 as int)),
            Err(e) => parse_int(bencoded@) matches Err(m) && int_err_matches(e, m),
        },
{
    let ghost s = bencoded@;
    if bencoded.len() == 0 {
        return Err(Int64DecodeError::EmptyInput);
    }
    let b0 = bencoded[0];
    if b0 != 0x69 {
        return Err(Int64DecodeError::StartNotFound { found: b0, found_as_ascii: b0 as char });
    }
    let mut epos: usize = 1;
    loop
        invariant_except_break
            1 <= epos <= s.len(),
            s == bencoded@,
            s[0] == 0x69,
            find_from(s, 1, 0x65) == find_from(s, epos as int, 0x65),
        ensures
            s == bencoded@,
            1 <= epos < s.len(),
            s[epos as int] == 0x65,
            find_from(s, 1, 0x65) == Some(epos as int),
        decreases s.len() - epos,
    {
        if epos >= bencoded.len() {
            proof {
                assert(find_from(s, epos as int, 0x65) is None);
            }
            return Err(Int64DecodeError::EndNotFound);
        }
        if bencoded[epos] == 0x65 {
            break;
        }
        epos = epos + 1;
    }
    let ghost buf = s.subrange(1, epos as int);
    let blen = epos - 1;
    if blen == 0 {
        return Err(Int64DecodeError::NumberNotFound);
    }
    if blen == 2 && bencoded[1] == 0x2d && bencoded[2] == 0x30 {
        proof {
            assert(buf =~= seq![0x2du8, 0x30u8]);
        }
        return Err(
            Int64DecodeError::InvalidNumberError("-0 is not valid for bencoded integers.".to_owned()),
        );
    }
    let negative = bencoded[1] == 0x2d;
    let mstart: usize = if negative { 2 } else { 1 };
    let ghost mag = if buf[0] == 0x2d { buf.drop_first() } else { buf };
    proof {
        assert(mag =~= s.subrange(mstart as int, epos as int));
    }
    if mstart >= epos {
        let raw = vstd::slice::slice_to_vec(&bencoded[1..epos]);
        proof {
            assert(raw@ == buf);
        }
        return Err(Int64DecodeError::NumberParseIntError(raw));
    }
    // every magnitude byte must be a decimal digit
    let mut k: usize = mstart;
    while k < epos
        invariant
            mstart <= k <= epos,
            1 <= mstart <= 2,
            mstart < epos < s.len(),
            s == bencoded@,
            s[0] == 0x69,
            s[epos as int] == 0x65,
            find_from(s, 1, 0x65) == Some(epos as int),
            buf == s.subrange(1, epos as int),
            buf.len() > 0,
            buf != seq![0x2du8, 0x30u8],
            (buf[0] == 0x2d) == (mstart == 2),
            mag == s.subrange(mstart as int, epos as int),
            mag == (if buf[0] == 0x2d { buf.drop_first() } else { buf }),
            forall|j: int| mstart <= j < k ==> is_digit(#[trigger] s[j]),
        decreases epos - k,
    {
        let b = bencoded[k];
        if !(0x30 <= b && b <= 0x39) {
            let raw = vstd::slice::slice_to_vec(&bencoded[1..epos]);
            proof {
                assert(raw@ == buf);
                assert(!is_digit(mag[k - mstart as int]));
                assert(!all_digits(mag));
            }
            return Err(Int64DecodeError::NumberParseIntError(raw));
        }
        k = k + 1;
    }
    proof {
        assert forall|j: int| 0 <= j < mag.len() implies is_digit(#[trigger] mag[j]) by {
            assert(mag[j] == s[mstart as int + j]);
        }
        assert(all_digits(mag));
    }
    if bencoded[mstart] == 0x30 && epos - mstart > 1 {
        return Err(
            Int64DecodeError::InvalidNumberError(
                "Bencoded integers other than 0 can not have leading zeroes.".to_owned(),
            ),
        );
    }
    // accumulate the magnitude, watching for 64-bit overflow
    let mut val: u64 = 0;
    let mut k2: usize = mstart;
    proof {
        assert(s.subrange(mstart as int, mstart as int) =~= Seq::<u8>::empty());
    }
    while k2 < epos
        invariant
            mstart <= k2 <= epos,
            1 <= mstart <= 2,
            mstart < epos < s.len(),
            s == bencoded@,
            s[0] == 0x69,
            s[epos as int] == 0x65,
            find_from(s, 1, 0x65) == Some(epos as int),
            buf == s.subrange(1, epos as int),
            buf.len() > 0,
            buf != seq![0x2du8, 0x30u8],
            (buf[0] == 0x2d) == (mstart == 2),
            mag == s.subrange(mstart as int, epos as int),
            mag == (if buf[0] == 0x2d { buf.drop_first() } else { buf }),
            all_digits(mag),
            !(mag[0] == 0x30 && mag.len() > 1),
            forall|j: int| mstart <= j < epos ==> is_digit(#[trigger] s[j]),
            val == dec_value(s.subrange(mstart as int, k2 as int)),
        decreases epos - k2,
    {
        let d = bencoded[k2] - 0x30;
        proof {
            assert(s.subrange(mstart as int, k2 as int + 1).drop_last() =~= s.subrange(
                mstart as int,
                k2 as int,
            ));
            assert(dec_value(s.subrange(mstart as int, k2 as int + 1)) == dec_value(
                s.subrange(mstart as int, k2 as int),
            ) * 10 + d);
            lemma_dec_value_prefix(mag, k2 as int + 1 - mstart);
            assert(mag.subrange(0, k2 as int + 1 - mstart) =~= s.subrange(
                mstart as int,
                k2 as int + 1,
            ));
        }
        let scaled = match val.checked_mul(10) {
            Some(x) => x,
            None => {
                let raw = vstd::slice::slice_to_vec(&bencoded[1..epos]);
                proof {
                    assert(raw@ == buf);
                    assert(dec_value(mag) > u64::MAX);
                }
                return Err(Int64DecodeError::NumberParseIntError(raw));
            },
        };
        val = match scaled.checked_add(d as u64) {
            Some(x) => x,
            None => {
                let raw = vstd::slice::slice_to_vec(&bencoded[1..epos]);
                proof {
                    assert(raw@ == buf);
                    assert(dec_value(mag) > u64::MAX);
                }
                return Err(Int64DecodeError::NumberParseIntError(raw));
            },
        };
        k2 = k2 + 1;
    }
    proof {
        assert(s.subrange(mstart as int, epos as int) == mag);
        assert(val == dec_value(mag));
    }
    let n = epos + 1;
    if negative {
        if val > 0x8000_0000_0000_0000u64 {
            let raw = vstd::slice::slice_to_vec(&bencoded[1..epos]);
            proof {
                assert(raw@ == buf);
            }
            return Err(Int64DecodeError::NumberParseIntError(raw));
        }
        let value: i64 = if val == 0x8000_0000_0000_0000u64 {
            i64::MIN
        } else {
            -(val as i64)
        };
        Ok((value, n))
    } else {
        if val > 0x7fff_ffff_ffff_ffffu64 {
            let raw = vstd::slice::slice_to_vec(&bencoded[1..epos]);
            proof {
                assert(raw@ == buf);
            }
            return Err(Int64DecodeError::NumberParseIntError(raw));
        }
        Ok((val as i64, n))
    }
}

/// Decodes a list: `l`, the encoded elements, `e`.  Returns the
/// elements in order and the number of bytes consumed.
pub fn decode_list(bencoded: &[u8]) -> (r: Result<(Vec<DataType>, usize), ListDecodeError>)
    ensures
        match r {
            Ok(p) => parse_list(bencoded@) == Ok::<_, ListDecodeError>(
                (models(p.0@), p.1 as int),
            ),
            Err(e) => parse_list(bencoded@) == Err::<(Seq<BValue>, int), _>(e),
        },
    decreases bencoded@.len(), 0int,
{
    let ghost s = bencoded@;
    if bencoded.len() == 0 {
        return Err(ListDecodeError::EmptyInput);
    }
    let b0 = bencoded[0];
    if b0 != 0x6c {
        return Err(ListDecodeError::StartNotFound { found: b0, found_as_ascii: b0 as char });
    }
    let mut pos: usize = 1;
    let mut elems: Vec<DataType> = Vec::new();
    proof {
        assert(models(elems@) =~= Seq::<BValue>::empty());
    }
    loop
        invariant
            1 <= pos <= s.len(),
            s == bencoded@,
            s[0] == 0x6c,
            parse_items(s, 1, Seq::empty()) == parse_items(s, pos as int, models(elems@)),
        decreases s.len() - pos,
    {
        if pos >= bencoded.len() {
            return Err(ListDecodeError::EndNotFound);
        }
        if bencoded[pos] == 0x65 {
            return Ok((elems, pos + 1));
        }
        let sub: &[u8] = &bencoded[pos..bencoded.len()];
        proof {
            assert(sub@ == s.subrange(pos as int, s.len() as int));
        }
        match decode(sub) {
            Err(_) => {
                return Err(ListDecodeError::ElementDecodeError { position: pos });
            },
            Ok((v, n)) => {
                proof {
                    lemma_parse_value_bounds(sub@);
                    let ghost acc = models(elems@);
                    assert(parse_items(s, pos as int, acc) == parse_items(
                        s,
                        pos as int + n as int,
                        acc.push(v@),
                    ));
                }
                let ghost elems0 = elems@;
                elems.push(v);
                proof {
                    assert(elems@.drop_last() =~= elems0);
                    assert(models(elems@) == models(elems0).push(v@));
                }
                pos = pos + n;
            },
        }
    }
}

/// Decodes a dictionary: `d`, alternating keys and values, `e`.
/// Entries keep the order in which they appear in the input.
pub fn decode_dict(bencoded: &[u8]) -> (r: Result<
    (Vec<(Vec<u8>, DataType)>, usize),
    DictDecodeError,
>)
    ensures
        match r {
            Ok(p) => parse_dict(bencoded@) == Ok::<_, DictDecodeError>(
                (entry_models(p.0@), p.1 as int),
            ),
            Err(e) => parse_dict(bencoded@) == Err::<(Seq<(Seq<u8>, BValue)>, int), _>(e),
        },
    decreases bencoded@.len(), 0int,
{
    let ghost s = bencoded@;
    if bencoded.len() == 0 {
        return Err(DictDecodeError::EmptyInput);
    }
    let b0 = bencoded[0];
    if b0 != 0x64 {
        return Err(DictDecodeError::StartNotFound { found: b0, found_as_ascii: b0 as char });
    }
    let mut pos: usize = 1;
    let mut entries: Vec<(Vec<u8>, DataType)> = Vec::new();
    proof {
        assert(entry_models(entries@) =~= Seq::<(Seq<u8>, BValue)>::empty());
    }
    loop
        invariant
            1 <= pos <= s.len(),
            s == bencoded@,
            s[0] == 0x64,
            parse_entries(s, 1, Seq::empty()) == parse_entries(
                s,
                pos as int,
                entry_models(entries@),
            ),
        decreases s.len() - pos,
    {
        if pos >= bencoded.len() {
            return Err(DictDecodeError::EndNotFound);
        }
        let b = bencoded[pos];
        if b == 0x65 {
            return Ok((entries, pos + 1));
        }
        if !(0x30 <= b && b <= 0x39) {
            return Err(
                DictDecodeError::KeyDecodeError(
                    ByteStringDecodeError::UnexpectedByte {
                        unexpected_byte: b,
                        unexpected_byte_ascii: b as char,
                        position: pos,
                    },
                ),
            );
        }
        let sub: &[u8] = &bencoded[pos..bencoded.len()];
        proof {
            assert(sub@ == s.subrange(pos as int, s.len() as int));
        }
        let (key, kn) = match decode_byte_string(sub) {
            Err(e) => {
                return Err(DictDecodeError::KeyDecodeError(e));
            },
            Ok(p) => p,
        };
        proof {
            lemma_parse_bytes_bounds(sub@);
        }
        let vsub: &[u8] = &bencoded[pos + kn..bencoded.len()];
        proof {
            assert(vsub@ == s.subrange(pos as int + kn as int, s.len() as int));
        }
        match decode(vsub) {
            Err(_) => {
                return Err(DictDecodeError::ValueDecodeError { position: pos + kn });
            },
            Ok((v, vn)) => {
                proof {
                    lemma_parse_value_bounds(vsub@);
                    let ghost acc = entry_models(entries@);
                    assert(parse_entries(s, pos as int, acc) == parse_entries(
                        s,
                        pos as int + kn as int + vn as int,
                        acc.push((key@, v@)),
                    ));
                }
                let key_bytes = vstd::slice::slice_to_vec(key.get_data().as_slice());
                let ghost entries0 = entries@;
                entries.push((key_bytes, v));
                proof {
                    assert(entries@.drop_last() =~= entries0);
                    assert(entry_models(entries@) == entry_models(entries0).push((key@, v@)));
                }
                pos = pos + kn + vn;
            },
        }
    }
}

/// Decodes a bencoded value of any kind, dispatching on the first byte.
/// Returns the value and the number of bytes consumed.
pub fn decode(bencoded: &[u8]) -> (r: Result<(DataType, usize), DecodeError>)
    ensures
        match r {
            Ok(p) => parse_value(bencoded@) == Ok::<_, ParseError>((p.0@, p.1 as int)),
            Err(e) => parse_value(bencoded@) matches Err(m) && decode_err_matches(e, m),
        },
    decreases bencoded@.len(), 1int,
{
    if bencoded.len() == 0 {
        return Err(DecodeError::EmptyInput);
    }
    let b0 = bencoded[0];
    if 0x30 <= b0 && b0 <= 0x39 {
        match decode_byte_string(bencoded) {
            Ok((content, n)) => Ok((DataType::ByteString(content), n)),
            Err(e) => Err(DecodeError::ByteStringDecodeError(e)),
        }
    } else if b0 == 0x69 {
        match decode_i64(bencoded) {
            Ok((value, n)) => Ok((DataType::Integer(value), n)),
            Err(e) => Err(DecodeError::Int64DecodeError(e)),
        }
    } else if b0 == 0x6c {
        match decode_list(bencoded) {
            Ok((list, n)) => Ok((DataType::List(list), n)),
            Err(e) => Err(DecodeError::ListDecodeError(e)),
        }
    } else if b0 == 0x64 {
        match decode_dict(bencoded) {
            Ok((dict, n)) => Ok((DataType::Dict(dict), n)),
            Err(e) => Err(DecodeError::DictDecodeError(e)),
        }
    } else {
        Err(DecodeError::unknown_value_start(b0))
    }
}

} // verus!
