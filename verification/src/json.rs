use vstd::prelude::*;

use crate::bencode::decoder::decode;
use crate::bencode::errors::DecodeError;
use crate::bencode::model::{decode_err_matches, parse_value};
use crate::text::{hex_digit, int_chars, i64_to_string, lossy_chars, push_char, utf8_lossy};
use crate::types::{BValue, DataType};

verus! {

/// How one character appears inside a JSON string: quotes and
/// backslashes escaped, control characters by their short forms or as
/// four hexadecimal digits.
pub open spec fn json_escaped(c: char) -> Seq<char> {
    if c == '"' {
        seq!['\\', '"']
    } else if c == '\\' {
        seq!['\\', '\\']
    } else if c == '\u{8}' {
        seq!['\\', 'b']
    } else if c == '\t' {
        seq!['\\', 't']
    } else if c == '\n' {
        seq!['\\', 'n']
    } else if c == '\u{c}' {
        seq!['\\', 'f']
    } else if c == '\r' {
        seq!['\\', 'r']
    } else if (c as u32) < 0x20 {
        seq!['\\', 'u', '0', '0'] + seq![
            hex_digit((c as u32 / 16) as u8),
            hex_digit((c as u32 % 16) as u8),
        ]
    } else {
        seq![c]
    }
}

/// The body of a JSON string: each character escaped, in order.
pub open spec fn json_string_body(s: Seq<char>) -> Seq<char>
    decreases s.len(),
{
    if s.len() == 0 {
        Seq::empty()
    } else {
        json_string_body(s.drop_last()) + json_escaped(s.last())
    }
}

/// The JSON rendering of a bencoded value: integers in decimal, byte
/// strings as JSON strings of their lossy UTF-8 text, lists as arrays,
/// dictionaries as objects in stored key order.
pub open spec fn json_of(v: BValue) -> Seq<char>
    decreases v, 0int,
{
    match v {
        BValue::Int(i) => int_chars(i),
        BValue::Bytes(b) => seq!['"'] + json_string_body(lossy_chars(b)) + seq!['"'],
        BValue::List(l) => seq!['['] + json_items(l) + seq![']'],
        BValue::Dict(d) => seq!['{'] + json_entries(d) + seq!['}'],
    }
}

/// The comma-separated renderings of list elements.
pub open spec fn json_items(l: Seq<BValue>) -> Seq<char>
    decreases l, 1int,
{
    if l.len() == 0 {
        Seq::empty()
    } else if l.len() == 1 {
        json_of(l[0])
    } else {
        proof {
            assert(decreases_to!(l => l[l.len() - 1]));
        }
        json_items(l.drop_last()) + seq![','] + json_of(l.last())
    }
}

/// The comma-separated renderings of dictionary entries, each a JSON
/// string key, a colon, and the rendered value.
pub open spec fn json_entry(key: Seq<u8>, v: BValue) -> Seq<char>
    decreases v, 1int,
{
    seq!['"'] + json_string_body(lossy_chars(key)) + seq!['"', ':'] + json_of(v)
}

pub open spec fn json_entries(d: Seq<(Seq<u8>, BValue)>) -> Seq<char>
    decreases d, 1int,
{
    if d.len() == 0 {
        Seq::empty()
    } else if d.len() == 1 {
        proof {
            assert(decreases_to!(d => d[0]));
            assert(decreases_to!(d[0] => d[0].1));
        }
        json_entry(d[0].0, d[0].1)
    } else {
        proof {
            assert(decreases_to!(d => d[d.len() - 1]));
            assert(decreases_to!(d[d.len() - 1] => d[d.len() - 1].1));
        }
        json_entries(d.drop_last()) + seq![','] + json_entry(d.last().0, d.last().1)
    }
}

/// Appends the escaped body of a JSON string.
fn append_json_string_body(out: &mut String, text: &str)
    ensures
        final(out)@ == old(out)@ + json_string_body(text@),
{
    let n = text.unicode_len();
    let ghost base = out@;
    let mut i: usize = 0;
    proof {
        assert(base + json_string_body(text@.subrange(0, 0)) =~= base);
    }
    while i < n
        invariant
            i <= n,
            n == text@.len(),
            out@ == base + json_string_body(text@.subrange(0, i as int)),
        decreases n - i,
    {
        let c = text.get_char(i);
        if c == '"' {
            push_char(out, '\\');
            push_char(out, '"');
        } else if c == '\\' {
            push_char(out, '\\');
            push_char(out, '\\');
        } else if c == '\u{8}' {
            push_char(out, '\\');
            push_char(out, 'b');
        } else if c == '\t' {
            push_char(out, '\\');
            push_char(out, 't');
        } else if c == '\n' {
            push_char(out, '\\');
            push_char(out, 'n');
        } else if c == '\u{c}' {
            push_char(out, '\\');
            push_char(out, 'f');
        } else if c == '\r' {
            push_char(out, '\\');
            push_char(out, 'r');
        } else if (c as u32) < 0x20 {
            push_char(out, '\\');
            push_char(out, 'u');
            push_char(out, '0');
            push_char(out, '0');
            let hi = (c as u32) / 16;
            let lo = (c as u32) % 16;
            push_char(
                out,
                if hi < 10 {
                    (0x30 + hi as u8) as char
                } else {
                    (0x57 + hi as u8) as char
                },
            );
            push_char(
                out,
                if lo < 10 {
                    (0x30 + lo as u8) as char
                } else {
                    (0x57 + lo as u8) as char
                },
            );
        } else {
            push_char(out, c);
        }
        proof {
            assert(text@.subrange(0, i as int + 1).drop_last() =~= text@.subrange(0, i as int));
            assert(text@.subrange(0, i as int + 1).last() == text@[i as int]);
            assert(out@ =~= base + json_string_body(text@.subrange(0, i as int + 1)));
        }
        i = i + 1;
    }
    proof {
        assert(text@.subrange(0, text@.len() as int) =~= text@);
    }
}

/// Appends a byte string as a JSON string of its lossy UTF-8 text.
fn append_json_byte_string(out: &mut String, bytes: &Vec<u8>)
    ensures
        final(out)@ == old(out)@ + seq!['"'] + json_string_body(lossy_chars(bytes@)) + seq!['"'],
{
    push_char(out, '"');
    let text = utf8_lossy(bytes);
    append_json_string_body(out, text.as_str());
    push_char(out, '"');
}

/// Renders a list as a JSON array.
fn to_json_list(list: &Vec<DataType>) -> (r: String)
    ensures
        r@ == seq!['['] + json_items(crate::types::models(list@)) + seq![']'],
    decreases list@, 0int,
{
    let mut out = String::new();
    push_char(&mut out, '[');
    let ghost ms = crate::types::models(list@);
    proof {
        crate::types::lemma_models_index(list@);
        assert(out@ =~= seq!['['] + json_items(ms.subrange(0, 0)));
    }
    let mut i: usize = 0;
    while i < list.len()
        invariant
            i <= list@.len(),
            ms == crate::types::models(list@),
            ms.len() == list@.len(),
            forall|j: int| 0 <= j < ms.len() ==> #[trigger] ms[j] == list@[j]@,
            out@ == seq!['['] + json_items(ms.subrange(0, i as int)),
        decreases list@.len() - i,
    {
        if i > 0 {
            push_char(&mut out, ',');
        }
        proof {
            assert(decreases_to!(list@ => list@[i as int]));
        }
        let rendered = to_json(&list[i]);
        out.append(rendered.as_str());
        proof {
            let pre = ms.subrange(0, i as int);
            let post = ms.subrange(0, i as int + 1);
            assert(post.drop_last() =~= pre);
            assert(post.last() == ms[i as int]);
            if i == 0 {
                assert(json_items(post) == json_of(post[0]));
            } else {
                assert(json_items(post) == json_items(pre) + seq![','] + json_of(post.last()));
            }
            assert(out@ =~= seq!['['] + json_items(post));
        }
        i = i + 1;
    }
    push_char(&mut out, ']');
    proof {
        assert(ms.subrange(0, ms.len() as int) =~= ms);
    }
    out
}

/// Renders a dictionary as a JSON object, keys in stored order.
fn to_json_dict(dict: &Vec<(Vec<u8>, DataType)>) -> (r: String)
    ensures
        r@ == seq!['{'] + json_entries(crate::types::entry_models(dict@)) + seq!['}'],
    decreases dict@, 0int,
{
    let mut out = String::new();
    push_char(&mut out, '{');
    let ghost ms = crate::types::entry_models(dict@);
    proof {
        crate::types::lemma_entry_models_index(dict@);
        assert(out@ =~= seq!['{'] + json_entries(ms.subrange(0, 0)));
    }
    let mut i: usize = 0;
    while i < dict.len()
        invariant
            i <= dict@.len(),
            ms == crate::types::entry_models(dict@),
            ms.len() == dict@.len(),
            forall|j: int|
                0 <= j < ms.len() ==> #[trigger] ms[j] == (dict@[j].0@, dict@[j].1@),
            out@ == seq!['{'] + json_entries(ms.subrange(0, i as int)),
        decreases dict@.len() - i,
    {
        if i > 0 {
            push_char(&mut out, ',');
        }
        let entry = &dict[i];
        append_json_byte_string(&mut out, &entry.0);
        push_char(&mut out, ':');
        proof {
            assert(decreases_to!(dict@ => dict@[i as int]));
            assert(decreases_to!(dict@[i as int] => dict@[i as int].1));
        }
        let rendered = to_json(&entry.1);
        out.append(rendered.as_str());
        proof {
            let pre = ms.subrange(0, i as int);
            let post = ms.subrange(0, i as int + 1);
            assert(post.drop_last() =~= pre);
            assert(post.last() == ms[i as int]);
            if i == 0 {
                assert(json_entries(post) == json_entry(post[0].0, post[0].1));
            } else {
                assert(json_entries(post) == json_entries(pre) + seq![','] + json_entry(
                    post.last().0,
                    post.last().1,
                ));
            }
            assert(out@ =~= seq!['{'] + json_entries(post));
        }
        i = i + 1;
    }
    push_char(&mut out, '}');
    proof {
        assert(ms.subrange(0, ms.len() as int) =~= ms);
    }
    out
}

/// Renders a bencoded value as a line of JSON.
pub fn to_json(value: &DataType) -> (r: String)
    ensures
        r@ == json_of(value@),
    decreases value, 1int,
{
    match value {
        DataType::Integer(num) => i64_to_string(*num),
        DataType::ByteString(byte_str) => {
            let mut out = String::new();
            append_json_byte_string(&mut out, byte_str.get_data());
            proof {
                assert(out@ =~= json_of(value@));
            }
            out
        },
        DataType::List(list) => {
            proof {
                assert(decreases_to!(value => *list));
                assert(decreases_to!(*list => list@));
            }
            to_json_list(list)
        },
        DataType::Dict(dict) => {
            proof {
                assert(decreases_to!(value => *dict));
                assert(decreases_to!(*dict => dict@));
            }
            to_json_dict(dict)
        },
    }
}

/// The decode subcommand's work: decodes a bencoded value and renders
/// it as a line of JSON.
pub fn decode_to_json(input: &[u8]) -> (r: Result<String, DecodeError>)
    ensures
        match parse_value(input@) {
            Ok(p) => r matches Ok(s) && s@ == json_of(p.0),
            Err(m) => r matches Err(e) && decode_err_matches(e, m),
        },
{
    match decode(input) {
        Ok((value, _)) => Ok(to_json(&value)),
        Err(e) => Err(e),
    }
}

} // verus!
