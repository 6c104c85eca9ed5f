use vstd::prelude::*;

use crate::bencode::errors::ByteStringDecodeError;
use crate::bencode::model::{
    dec_value, enc, enc_bytes, enc_entries, enc_seq, find_from, int_digits, is_digit,
    lemma_dec_digits_leading, lemma_dec_value_of_digits, parse_bytes, parse_entries, parse_int,
    parse_items, parse_value, scan_len, IntParseError, LenScan, ParseError,
};
use crate::text::{dec_digits, lemma_dec_digits_shape};
use crate::types::BValue;

verus! {

proof fn lemma_find_from_at(s: Seq<u8>, pos: int, b: u8, k: int)
    requires
        0 <= pos <= k < s.len(),
        s[k] == b,
        forall|j: int| pos <= j < k ==> s[j] != b,
    ensures
        find_from(s, pos, b) == Some(k),
    decreases k - pos,
{
    if pos < k {
        lemma_find_from_at(s, pos + 1, b, k);
    }
}

proof fn lemma_scan_len_at(s: Seq<u8>, pos: int, p: int)
    requires
        0 <= pos <= p < s.len(),
        s[p] == 0x3a,
        forall|j: int| pos <= j < p ==> is_digit(#[trigger] s[j]),
    ensures
        scan_len(s, pos) == LenScan::Colon(p),
    decreases p - pos,
{
    if pos < p {
        lemma_scan_len_at(s, pos + 1, p);
    }
}

/// Every encoding is at least two bytes long, opens with the byte that
/// names its kind, and never opens with the terminator `e`.
pub proof fn lemma_enc_shape(v: BValue)
    ensures
        enc(v).len() >= 2,
        enc(v)[0] != 0x65,
        match v {
            BValue::Int(_) => enc(v)[0] == 0x69,
            BValue::Bytes(_) => is_digit(enc(v)[0]),
            BValue::List(_) => enc(v)[0] == 0x6c,
            BValue::Dict(_) => enc(v)[0] == 0x64,
        },
{
    match v {
        BValue::Int(i) => {
            lemma_dec_digits_shape(if i >= 0 {
                i as nat
            } else {
                (-i) as nat
            });
        },
        BValue::Bytes(b) => {
            lemma_dec_digits_shape(b.len());
            assert(enc(v)[0] == dec_digits(b.len())[0]);
        },
        BValue::List(_) => {},
        BValue::Dict(_) => {},
    }
}

proof fn lemma_parse_bytes_of_enc(b: Seq<u8>, rest: Seq<u8>)
    requires
        b.len() <= usize::MAX,
    ensures
        parse_bytes(enc_bytes(b) + rest) == Ok::<(Seq<u8>, int), ByteStringDecodeError>(
            (b, enc_bytes(b).len() as int),
        ),
{
    let digits = dec_digits(b.len());
    let s = enc_bytes(b) + rest;
    let p = digits.len() as int;
    lemma_dec_digits_shape(b.len());
    assert forall|j: int| 0 <= j < p implies is_digit(#[trigger] s[j]) by {
        assert(s[j] == digits[j]);
    }
    assert(s[p] == 0x3a);
    lemma_scan_len_at(s, 0, p);
    assert(s.subrange(0, p) =~= digits);
    lemma_dec_value_of_digits(b.len());
    assert(dec_value(s.subrange(0, p)) == b.len());
    assert(s.subrange(p + 1, p + 1 + b.len()) =~= b);
}

proof fn lemma_parse_int_of_enc(i: int, rest: Seq<u8>)
    requires
        i64::MIN <= i <= i64::MAX,
    ensures
        parse_int(seq![0x69u8] + int_digits(i) + seq![0x65u8] + rest) == Ok::<
            (int, int),
            IntParseError,
        >((i, int_digits(i).len() + 2int)),
{
    let digits = int_digits(i);
    let s = seq![0x69u8] + digits + seq![0x65u8] + rest;
    let magnitude: nat = if i >= 0 {
        i as nat
    } else {
        (-i) as nat
    };
    lemma_dec_digits_shape(magnitude);
    lemma_dec_value_of_digits(magnitude);
    lemma_dec_digits_leading(magnitude);
    let e = 1 + digits.len() as int;
    assert(s[0] == 0x69);
    assert(s[e] == 0x65);
    assert forall|j: int| 1 <= j < e implies s[j] != 0x65 by {
        assert(s[j] == digits[j - 1]);
        if i >= 0 {
            assert(digits[j - 1] == dec_digits(magnitude)[j - 1]);
        } else {
            if j - 1 > 0 {
                assert(digits[j - 1] == dec_digits(magnitude)[j - 2]);
            }
        }
    }
    lemma_find_from_at(s, 1, 0x65, e);
    let buf = s.subrange(1, e);
    assert(buf =~= digits);
    if i >= 0 {
        assert(buf[0] != 0x2d);
        assert(buf != seq![0x2du8, 0x30u8]);
        let mag = buf;
        assert(mag =~= dec_digits(magnitude));
        assert(!(mag[0] == 0x30 && mag.len() > 1)) by {
            if mag[0] == 0x30 {
                assert(magnitude < 10);
            }
        }
        assert(dec_value(mag) == i);
    } else {
        assert(buf[0] == 0x2d);
        let mag = buf.drop_first();
        assert(mag =~= dec_digits(magnitude));
        assert(buf != seq![0x2du8, 0x30u8]) by {
            if buf == seq![0x2du8, 0x30u8] {
                assert(mag =~= seq![0x30u8]);
                assert(dec_value(seq![0x30u8]) == 0) by {
                    assert(seq![0x30u8].drop_last() =~= Seq::<u8>::empty());
                }
                assert(magnitude == 0);
            }
        }
        assert(mag.len() > 0);
        assert(!(mag[0] == 0x30 && mag.len() > 1)) by {
            if mag[0] == 0x30 {
                assert(magnitude < 10);
                if magnitude == 0 {
                    assert(i == 0);
                }
            }
        }
        assert(-dec_value(mag) == i);
    }
}

/// Decoding the canonical encoding of any machine-bounded value,
/// followed by anything at all, yields exactly that value and consumes
/// exactly its encoding.
pub proof fn lemma_parse_of_enc(v: BValue, rest: Seq<u8>)
    requires
        v.bounded(),
    ensures
        parse_value(enc(v) + rest) == Ok::<(BValue, int), ParseError>(
            (v, enc(v).len() as int),
        ),
    decreases v, 0int,
{
    let s = enc(v) + rest;
    lemma_enc_shape(v);
    match v {
        BValue::Int(i) => {
            assert(s =~= seq![0x69u8] + int_digits(i) + seq![0x65u8] + rest);
            lemma_parse_int_of_enc(i, rest);
        },
        BValue::Bytes(b) => {
            assert(s =~= enc_bytes(b) + rest);
            lemma_parse_bytes_of_enc(b, rest);
        },
        BValue::List(l) => {
            assert(decreases_to!(v => l));
            assert(s.subrange(1, s.len() as int) =~= enc_seq(l) + seq![0x65u8] + rest);
            lemma_parse_items_of_enc(l, s, 1, Seq::empty(), rest);
            assert(Seq::<BValue>::empty() + l =~= l);
        },
        BValue::Dict(d) => {
            assert(decreases_to!(v => d));
            assert(s.subrange(1, s.len() as int) =~= enc_entries(d) + seq![0x65u8] + rest);
            lemma_parse_entries_of_enc(d, s, 1, Seq::empty(), rest);
            assert(Seq::<(Seq<u8>, BValue)>::empty() + d =~= d);
        },
    }
}

proof fn lemma_parse_items_of_enc(
    l: Seq<BValue>,
    s: Seq<u8>,
    pos: int,
    acc: Seq<BValue>,
    tail: Seq<u8>,
)
    requires
        forall|i: int| 0 <= i < l.len() ==> (#[trigger] l[i]).bounded(),
        0 <= pos <= s.len(),
        s.subrange(pos, s.len() as int) == enc_seq(l) + seq![0x65u8] + tail,
    ensures
        parse_items(s, pos, acc) == Ok::<(Seq<BValue>, int), crate::bencode::errors::ListDecodeError>(
            (acc + l, pos + enc_seq(l).len() + 1),
        ),
    decreases l, 1int,
{
    let sub = s.subrange(pos, s.len() as int);
    if l.len() == 0 {
        assert(enc_seq(l) == Seq::<u8>::empty());
        assert(sub[0] == 0x65);
        assert(s[pos] == 0x65);
        assert(acc + l =~= acc);
    } else {
        assert(decreases_to!(l => l[0]));
        let v0 = l[0];
        let e0 = enc(v0);
        let l1 = l.drop_first();
        assert(enc_seq(l) == e0 + enc_seq(l1));
        lemma_enc_shape(v0);
        assert(sub[0] == e0[0]);
        assert(s[pos] == e0[0]);
        assert(s[pos] != 0x65);
        let r1 = enc_seq(l1) + seq![0x65u8] + tail;
        assert(sub =~= e0 + r1);
        lemma_parse_of_enc(v0, r1);
        assert(parse_value(sub) == Ok::<(BValue, int), ParseError>((v0, e0.len() as int)));
        let n = e0.len() as int;
        assert(1 <= n <= s.len() - pos);
        assert forall|j: int|
            0 <= j < s.len() - pos - n implies s.subrange(pos + n, s.len() as int)[j] == r1[j] by {
            assert(s.subrange(pos + n, s.len() as int)[j] == s[pos + n + j]);
            assert(sub[n + j] == s[pos + n + j]);
            assert(sub[n + j] == (e0 + r1)[n + j]);
        }
        assert(s.subrange(pos + n, s.len() as int) =~= enc_seq(l1) + seq![0x65u8] + tail);
        lemma_parse_items_of_enc(l1, s, pos + n, acc.push(v0), tail);
        assert(acc.push(v0) + l1 =~= acc + l);
    }
}

proof fn lemma_parse_entries_of_enc(
    d: Seq<(Seq<u8>, BValue)>,
    s: Seq<u8>,
    pos: int,
    acc: Seq<(Seq<u8>, BValue)>,
    tail: Seq<u8>,
)
    requires
        forall|i: int|
            0 <= i < d.len() ==> (#[trigger] d[i]).0.len() <= usize::MAX && d[i].1.bounded(),
        0 <= pos <= s.len(),
        s.subrange(pos, s.len() as int) == enc_entries(d) + seq![0x65u8] + tail,
    ensures
        parse_entries(s, pos, acc) == Ok::<(Seq<(Seq<u8>, BValue)>, int), crate::bencode::errors::DictDecodeError>(
            (acc + d, pos + enc_entries(d).len() + 1),
        ),
    decreases d, 1int,
{
    let sub = s.subrange(pos, s.len() as int);
    if d.len() == 0 {
        assert(enc_entries(d) == Seq::<u8>::empty());
        assert(sub[0] == 0x65);
        assert(s[pos] == 0x65);
        assert(acc + d =~= acc);
    } else {
        assert(decreases_to!(d => d[0]));
        assert(decreases_to!(d[0] => d[0].1));
        let key = d[0].0;
        let v0 = d[0].1;
        let ek = enc_bytes(key);
        let e0 = enc(v0);
        let d1 = d.drop_first();
        assert(enc_entries(d) == ek + e0 + enc_entries(d1));
        lemma_dec_digits_shape(key.len());
        assert(ek[0] == dec_digits(key.len())[0]);
        assert(sub[0] == ek[0]);
        assert(s[pos] == ek[0]);
        assert(is_digit(s[pos]));
        assert(s[pos] != 0x65);
        let r1 = e0 + enc_entries(d1) + seq![0x65u8] + tail;
        assert(sub =~= ek + r1);
        lemma_parse_bytes_of_enc(key, r1);
        assert(parse_bytes(sub) == Ok::<(Seq<u8>, int), ByteStringDecodeError>(
            (key, ek.len() as int),
        ));
        let kn = ek.len() as int;
        assert(1 <= kn <= s.len() - pos);
        let r2 = enc_entries(d1) + seq![0x65u8] + tail;
        assert(r1 =~= e0 + r2);
        assert forall|j: int|
            0 <= j < s.len() - pos - kn implies s.subrange(pos + kn, s.len() as int)[j] == r1[j]
            by {
            assert(s.subrange(pos + kn, s.len() as int)[j] == s[pos + kn + j]);
            assert(sub[kn + j] == s[pos + kn + j]);
            assert(sub[kn + j] == (ek + r1)[kn + j]);
        }
        assert(s.subrange(pos + kn, s.len() as int) =~= e0 + r2);
        lemma_parse_of_enc(v0, r2);
        let vn = e0.len() as int;
        assert(1 <= vn <= s.len() - pos - kn);
        assert forall|j: int|
            0 <= j < s.len() - pos - kn - vn implies s.subrange(
            pos + kn + vn,
            s.len() as int,
        )[j] == r2[j] by {
            assert(s.subrange(pos + kn + vn, s.len() as int)[j] == s[pos + kn + vn + j]);
            assert(sub[kn + vn + j] == s[pos + kn + vn + j]);
            assert(sub[kn + vn + j] == (ek + r1)[kn + vn + j]);
            assert(r1[vn + j] == (e0 + r2)[vn + j]);
        }
        assert(s.subrange(pos + kn + vn, s.len() as int) =~= enc_entries(d1) + seq![0x65u8]
            + tail);
        lemma_parse_entries_of_enc(d1, s, pos + kn + vn, acc.push((key, v0)), tail);
        assert(acc.push((key, v0)) + d1 =~= acc + d);
    }
}

/// Codec round trip: decoding the canonical encoding of a
/// machine-bounded value yields the value back and consumes the whole
/// encoding.
pub proof fn lemma_decode_of_encode(v: BValue)
    requires
        v.bounded(),
    ensures
        parse_value(enc(v)) == Ok::<(BValue, int), ParseError>((v, enc(v).len() as int)),
{
    lemma_parse_of_enc(v, Seq::empty());
    assert(enc(v) + Seq::<u8>::empty() =~= enc(v));
}

/// Canonical re-encoding: decoding a canonically encoded input and
/// encoding the result reproduces the input bytes, so the identity that
/// is hashed from a re-encoded value is stable.
pub proof fn lemma_reencode_canonical(b: Seq<u8>, v: BValue)
    requires
        v.bounded(),
        b == enc(v),
    ensures
        parse_value(b) matches Ok(p) && enc(p.0) == b && p.1 == b.len(),
{
    lemma_decode_of_encode(v);
}

/// The canonical encoding is injective on machine-bounded values: any
/// two values that encode alike are the same value.
pub proof fn lemma_encode_injective(v1: BValue, v2: BValue)
    requires
        v1.bounded(),
        v2.bounded(),
        enc(v1) == enc(v2),
    ensures
        v1 == v2,
{
    lemma_decode_of_encode(v1);
    lemma_decode_of_encode(v2);
}

} // verus!
