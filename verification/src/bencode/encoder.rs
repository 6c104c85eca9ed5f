use vstd::prelude::*;

use vstd::string::StringSliceAdditionalSpecFns;

use crate::bencode::model::{
    enc, enc_bytes, enc_entries, enc_seq, lemma_enc_entries_push, lemma_enc_seq_push,
};
use crate::text::i64_dec_bytes;
use crate::text::u64_dec_bytes;
use crate::types::{entry_models, models, BValue, ByteString, DataType};

verus! {

/// The encoding of an integer: `i`, its decimal digits, `e`.
pub fn bencode_i64(value: i64) -> (r: Vec<u8>)
    ensures
        r@ == enc(BValue::Int(value as int)),
{
    let mut r: Vec<u8> = Vec::new();
    r.push(0x69);
    let mut digits = i64_dec_bytes(value);
    r.append(&mut digits);
    r.push(0x65);
    proof {
        assert(r@ =~= enc(BValue::Int(value as int)));
    }
    r
}

/// The encoding of raw bytes: their count in decimal, a colon, the bytes.
fn bencode_raw(data: &Vec<u8>) -> (r: Vec<u8>)
    ensures
        r@ == enc_bytes(data@),
{
    let mut r = u64_dec_bytes(data.len() as u64);
    r.push(0x3a);
    let mut copy = vstd::slice::slice_to_vec(data.as_slice());
    r.append(&mut copy);
    proof {
        assert(r@ =~= enc_bytes(data@));
    }
    r
}

/// The encoding of a byte string value.
pub fn bencode_byte_string(value: &ByteString) -> (r: Vec<u8>)
    ensures
        r@ == enc(BValue::Bytes(value@)),
{
    bencode_raw(value.get_data())
}

/// The encoding of a text string, as the byte string of its UTF-8 bytes.
pub fn bencode_string(value: &str) -> (r: Vec<u8>)
    ensures
        r@ == enc_bytes(value.spec_bytes()),
{
    let bytes = value.as_bytes_vec();
    bencode_raw(&bytes)
}

/// The encoding of a list: `l`, each element's encoding in order, `e`.
pub fn bencode_list(list: &Vec<DataType>) -> (r: Vec<u8>)
    ensures
        r@ == enc(BValue::List(models(list@))),
    decreases list@, 0int,
{
    let mut r: Vec<u8> = Vec::new();
    r.push(0x6c);
    let mut i: usize = 0;
    proof {
        assert(models(list@.subrange(0, 0)) =~= Seq::<BValue>::empty());
    }
    while i < list.len()
        invariant
            i <= list@.len(),
            r@ == seq![0x6cu8] + enc_seq(models(list@.subrange(0, i as int))),
        decreases list@.len() - i,
    {
        proof {
            assert(decreases_to!(list@ => list@[i as int]));
        }
        let mut e = bencode(&list[i]);
        r.append(&mut e);
        proof {
            let pre = list@.subrange(0, i as int);
            let post = list@.subrange(0, i as int + 1);
            assert(post.drop_last() =~= pre);
            assert(models(post) == models(pre).push(list@[i as int]@));
            lemma_enc_seq_push(models(pre), list@[i as int]@);
        }
        i = i + 1;
    }
    r.push(0x65);
    proof {
        assert(list@.subrange(0, list@.len() as int) =~= list@);
        assert(r@ =~= enc(BValue::List(models(list@))));
    }
    r
}

/// The encoding of a dictionary: `d`, each entry's key and value
/// encodings in stored order, `e`.  On a well-formed value the stored
/// order is ascending key order, so the result is canonical.
pub fn bencode_dict(dict: &Vec<(Vec<u8>, DataType)>) -> (r: Vec<u8>)
    ensures
        r@ == enc(BValue::Dict(entry_models(dict@))),
    decreases dict@, 0int,
{
    let mut r: Vec<u8> = Vec::new();
    r.push(0x64);
    let mut i: usize = 0;
    proof {
        assert(entry_models(dict@.subrange(0, 0)) =~= Seq::<(Seq<u8>, BValue)>::empty());
    }
    while i < dict.len()
        invariant
            i <= dict@.len(),
            r@ == seq![0x64u8] + enc_entries(entry_models(dict@.subrange(0, i as int))),
        decreases dict@.len() - i,
    {
        let entry = &dict[i];
        let mut k = bencode_raw(&entry.0);
        r.append(&mut k);
        proof {
            assert(decreases_to!(dict@ => dict@[i as int]));
            assert(decreases_to!(dict@[i as int] => dict@[i as int].1));
        }
        let mut v = bencode(&entry.1);
        r.append(&mut v);
        proof {
            let pre = dict@.subrange(0, i as int);
            let post = dict@.subrange(0, i as int + 1);
            assert(post.drop_last() =~= pre);
            assert(entry_models(post) == entry_models(pre).push(
                (dict@[i as int].0@, dict@[i as int].1@),
            ));
            lemma_enc_entries_push(entry_models(pre), dict@[i as int].0@, dict@[i as int].1@);
            assert(r@ =~= seq![0x64u8] + enc_entries(entry_models(post)));
        }
        i = i + 1;
    }
    r.push(0x65);
    proof {
        assert(dict@.subrange(0, dict@.len() as int) =~= dict@);
        assert(r@ =~= enc(BValue::Dict(entry_models(dict@))));
    }
    r
}

/// The encoding of any bencoded value.
pub fn bencode(value: &DataType) -> (r: Vec<u8>)
    ensures
        r@ == enc(value@),
    decreases value, 1int,
{
    match value {
        DataType::Integer(num) => bencode_i64(*num),
        DataType::ByteString(byte_str) => bencode_byte_string(byte_str),
        DataType::List(list) => {
            proof {
                assert(decreases_to!(value => *list));
                assert(decreases_to!(*list => list@));
            }
            bencode_list(list)
        },
        DataType::Dict(dict) => {
            proof {
                assert(decreases_to!(value => *dict));
                assert(decreases_to!(*dict => dict@));
            }
            bencode_dict(dict)
        },
    }
}

} // verus!
