use vstd::prelude::*;

use vstd::string::StringSliceAdditionalSpecFns;

use crate::text::{lossy_chars, str_bytes_eq, utf8_lossy};

verus! {

/// An immutable sequence of bytes: the payload of a bencoded string.
/// The bytes are arbitrary; they need not be valid UTF-8.
#[derive(Debug, Clone, PartialEq)]
pub struct ByteString {
    data: Vec<u8>,
}

impl View for ByteString {
    type V = Seq<u8>;

    closed spec fn view(&self) -> Seq<u8> {
        self.data@
    }
}

impl ByteString {
    pub fn new(data: &Vec<u8>) -> (r: ByteString)
        ensures
            r@ == data@,
    {
        ByteString { data: vstd::slice::slice_to_vec(data.as_slice()) }
    }

    pub fn get_data(&self) -> (r: &Vec<u8>)
        ensures
            r@ == self@,
    {
        &self.data
    }
}

/// The mathematical shape of a bencoded value: the model that all
/// contracts of the codec speak about.
pub enum BValue {
    Int(int),
    Bytes(Seq<u8>),
    List(Seq<BValue>),
    Dict(Seq<(Seq<u8>, BValue)>),
}

/// Strict lexicographic order on byte sequences.
pub open spec fn lex_lt(a: Seq<u8>, b: Seq<u8>) -> bool
    decreases a.len(),
{
    if b.len() == 0 {
        false
    } else if a.len() == 0 {
        true
    } else if a[0] < b[0] {
        true
    } else if a[0] > b[0] {
        false
    } else {
        lex_lt(a.drop_first(), b.drop_first())
    }
}

impl BValue {
    /// Well-formedness: integers fit in 64 signed bits, and every
    /// dictionary has strictly increasing keys in byte order, so that
    /// its encoding is canonical.
    pub open spec fn wf(self) -> bool
        decreases self,
    {
        match self {
            BValue::Int(i) => i64::MIN <= i <= i64::MAX,
            BValue::Bytes(_) => true,
            BValue::List(l) => forall|i: int| 0 <= i < l.len() ==> (#[trigger] l[i]).wf(),
            BValue::Dict(d) => {
                &&& forall|i: int| 0 <= i < d.len() ==> (#[trigger] d[i]).1.wf()
                &&& forall|i: int, j: int|
                    0 <= i < j < d.len() ==> lex_lt(#[trigger] d[i].0, #[trigger] d[j].0)
            },
        }
    }
}

impl BValue {
    /// Whether the value fits the machine: integers in 64 signed bits
    /// and byte strings and keys no longer than a `usize` counts, as
    /// every value held in a `DataType` does.
    pub open spec fn bounded(self) -> bool
        decreases self,
    {
        match self {
            BValue::Int(i) => i64::MIN <= i <= i64::MAX,
            BValue::Bytes(b) => b.len() <= usize::MAX,
            BValue::List(l) => forall|i: int| 0 <= i < l.len() ==> (#[trigger] l[i]).bounded(),
            BValue::Dict(d) => forall|i: int|
                0 <= i < d.len() ==> (#[trigger] d[i]).0.len() <= usize::MAX && d[i].1.bounded(),
        }
    }
}

/// A bencoded value: one of the four kinds of the format.
/// Dictionary entries keep their order; in a well-formed value
/// (see `BValue::wf`) every dictionary has strictly increasing keys.
#[derive(Debug, PartialEq)]
pub enum DataType {
    Integer(i64),
    ByteString(ByteString),
    List(Vec<DataType>),
    Dict(Vec<(Vec<u8>, DataType)>),
}

impl View for DataType {
    type V = BValue;

    open spec fn view(&self) -> BValue
        decreases self,
    {
        match self {
            DataType::Integer(i) => BValue::Int(*i as int),
            DataType::ByteString(b) => BValue::Bytes(b@),
            DataType::List(l) => {
                proof {
                    assert(decreases_to!(self => *l));
                    assert(decreases_to!(*l => l@));
                }
                BValue::List(models(l@))
            },
            DataType::Dict(d) => {
                proof {
                    assert(decreases_to!(self => *d));
                    assert(decreases_to!(*d => d@));
                }
                BValue::Dict(entry_models(d@))
            },
        }
    }
}

/// The models of a sequence of values, element by element.
pub open spec fn models(s: Seq<DataType>) -> Seq<BValue>
    decreases s,
{
    if s.len() == 0 {
        Seq::empty()
    } else {
        models(s.drop_last()).push(s.last()@)
    }
}

/// The models of a sequence of dictionary entries, entry by entry.
pub open spec fn entry_models(s: Seq<(Vec<u8>, DataType)>) -> Seq<(Seq<u8>, BValue)>
    decreases s,
{
    if s.len() == 0 {
        Seq::empty()
    } else {
        entry_models(s.drop_last()).push((s.last().0@, s.last().1@))
    }
}

pub proof fn lemma_models_index(s: Seq<DataType>)
    ensures
        models(s).len() == s.len(),
        forall|i: int| 0 <= i < s.len() ==> #[trigger] models(s)[i] == s[i]@,
    decreases s.len(),
{
    if s.len() > 0 {
        lemma_models_index(s.drop_last());
        assert(models(s) == models(s.drop_last()).push(s.last()@));
        assert forall|i: int| 0 <= i < s.len() implies models(s)[i] == #[trigger] s[i]@ by {
            if i < s.len() - 1 {
                assert(s.drop_last()[i] == s[i]);
            } else {
                assert(s[i] == s.last());
            }
        }
    }
}

pub proof fn lemma_entry_models_index(s: Seq<(Vec<u8>, DataType)>)
    ensures
        entry_models(s).len() == s.len(),
        forall|i: int|
            0 <= i < s.len() ==> #[trigger] entry_models(s)[i] == (s[i].0@, s[i].1@),
    decreases s.len(),
{
    if s.len() > 0 {
        lemma_entry_models_index(s.drop_last());
        assert(entry_models(s) == entry_models(s.drop_last()).push((s.last().0@, s.last().1@)));
        assert forall|i: int|
            0 <= i < s.len() implies entry_models(s)[i] == (#[trigger] s[i].0@, s[i].1@) by {
            if i < s.len() - 1 {
                assert(s.drop_last()[i] == s[i]);
            } else {
                assert(s[i] == s.last());
            }
        }
    }
}

impl DataType {
    pub fn as_i64(&self) -> (r: Option<i64>)
        ensures
            match r {
                Some(v) => self@ == BValue::Int(v as int),
                None => !(self@ matches BValue::Int(_)),
            },
    {
        match self {
            DataType::Integer(value) => Some(*value),
            _ => None,
        }
    }

    /// The text of a byte-string value, read as UTF-8 with lossy
    /// replacement of invalid sequences.
    pub fn as_str(&self) -> (r: Option<String>)
        ensures
            match r {
                Some(s) => self@ matches BValue::Bytes(b) && s@ == lossy_chars(b),
                None => !(self@ matches BValue::Bytes(_)),
            },
    {
        match self {
            DataType::ByteString(x) => Some(utf8_lossy(x.get_data())),
            _ => None,
        }
    }

    pub fn as_dict(&self) -> (r: Option<&Vec<(Vec<u8>, DataType)>>)
        ensures
            match r {
                Some(d) => self@ == BValue::Dict(entry_models(d@)),
                None => !(self@ matches BValue::Dict(_)),
            },
    {
        match self {
            DataType::Dict(dict) => Some(dict),
            _ => None,
        }
    }

    pub fn as_byte_string(&self) -> (r: Option<&ByteString>)
        ensures
            match r {
                Some(b) => self@ == BValue::Bytes(b@),
                None => !(self@ matches BValue::Bytes(_)),
            },
    {
        match self {
            DataType::ByteString(byte_str) => Some(byte_str),
            _ => None,
        }
    }
}

/// The value at a key among dictionary entries; when a key repeats, the
/// latest entry wins.
pub open spec fn dict_find(entries: Seq<(Seq<u8>, BValue)>, key: Seq<u8>) -> Option<BValue>
    decreases entries.len(),
{
    if entries.len() == 0 {
        None
    } else if entries.last().0 == key {
        Some(entries.last().1)
    } else {
        dict_find(entries.drop_last(), key)
    }
}

/// Looks a key up among dictionary entries; when a key repeats, the
/// latest entry wins.
pub fn dict_get<'a>(entries: &'a Vec<(Vec<u8>, DataType)>, key: &str) -> (r: Option<
    &'a DataType,
>)
    ensures
        match r {
            Some(v) => dict_find(entry_models(entries@), key.spec_bytes()) == Some(v@),
            None => dict_find(entry_models(entries@), key.spec_bytes()) is None,
        },
{
    proof {
        lemma_entry_models_index(entries@);
    }
    let ghost em = entry_models(entries@);
    let ghost kb = key.spec_bytes();
    let mut i: usize = entries.len();
    proof {
        assert(em.subrange(0, em.len() as int) =~= em);
    }
    while i > 0
        invariant
            i <= entries@.len(),
            em == entry_models(entries@),
            em.len() == entries@.len(),
            kb == key.spec_bytes(),
            forall|j: int|
                0 <= j < em.len() ==> #[trigger] em[j] == (entries@[j].0@, entries@[j].1@),
            dict_find(em, kb) == dict_find(em.subrange(0, i as int), kb),
        decreases i,
    {
        i = i - 1;
        let entry = &entries[i];
        proof {
            assert(em.subrange(0, i as int + 1).last() == em[i as int]);
            assert(em.subrange(0, i as int + 1).drop_last() =~= em.subrange(0, i as int));
        }
        if str_bytes_eq(entry.0.as_slice(), key) {
            return Some(&entry.1);
        }
    }
    proof {
        assert(em.subrange(0, 0) =~= Seq::<(Seq<u8>, BValue)>::empty());
    }
    None
}

} // verus!
