use vstd::prelude::*;

use crate::error::Error;

verus! {

/// The kind of a peer wire message, named by its tag byte.
#[derive(Debug, Clone, Copy, PartialEq, Eq, Structural)]
pub enum MessageTag {
    Choke,
    Unchoke,
    Interested,
    NotInterested,
    Have,
    Bitfield,
    Request,
    Piece,
    Cancel,
    Port,
    Extended,
}

/// The wire tag byte of each message kind.
pub open spec fn tag_byte(t: MessageTag) -> u8 {
    match t {
        MessageTag::Choke => 0,
        MessageTag::Unchoke => 1,
        MessageTag::Interested => 2,
        MessageTag::NotInterested => 3,
        MessageTag::Have => 4,
        MessageTag::Bitfield => 5,
        MessageTag::Request => 6,
        MessageTag::Piece => 7,
        MessageTag::Cancel => 8,
        MessageTag::Port => 9,
        MessageTag::Extended => 20,
    }
}

/// The least declared length a frame of each kind can carry: one for
/// the tag byte, plus the fixed part of its payload.
pub open spec fn tag_min_len(t: MessageTag) -> int {
    match t {
        MessageTag::Choke => 1,
        MessageTag::Unchoke => 1,
        MessageTag::Interested => 1,
        MessageTag::NotInterested => 1,
        MessageTag::Have => 5,
        MessageTag::Bitfield => 1,
        MessageTag::Request => 13,
        MessageTag::Piece => 9,
        MessageTag::Cancel => 13,
        MessageTag::Port => 3,
        MessageTag::Extended => 2,
    }
}

impl MessageTag {
    /// The message kind for a tag byte; bytes that name no kind are
    /// rejected.
    pub fn from_byte(value: u8) -> (r: Result<MessageTag, Error>)
        ensures
            match r {
                Ok(t) => tag_byte(t) == value,
                Err(e) => e == Error::UnrecognizedMessageTag(value) && value != 0 && value != 1
                    && value != 2 && value != 3 && value != 4 && value != 5 && value != 6
                    && value != 7 && value != 8 && value != 9 && value != 20,
            },
    {
        match value {
            0 => Ok(MessageTag::Choke),
            1 => Ok(MessageTag::Unchoke),
            2 => Ok(MessageTag::Interested),
            3 => Ok(MessageTag::NotInterested),
            4 => Ok(MessageTag::Have),
            5 => Ok(MessageTag::Bitfield),
            6 => Ok(MessageTag::Request),
            7 => Ok(MessageTag::Piece),
            8 => Ok(MessageTag::Cancel),
            9 => Ok(MessageTag::Port),
            20 => Ok(MessageTag::Extended),
            other => Err(Error::UnrecognizedMessageTag(other)),
        }
    }

    /// The tag byte of this message kind.
    pub fn as_byte(&self) -> (r: u8)
        ensures
            r == tag_byte(*self),
    {
        match self {
            MessageTag::Choke => 0,
            MessageTag::Unchoke => 1,
            MessageTag::Interested => 2,
            MessageTag::NotInterested => 3,
            MessageTag::Have => 4,
            MessageTag::Bitfield => 5,
            MessageTag::Request => 6,
            MessageTag::Piece => 7,
            MessageTag::Cancel => 8,
            MessageTag::Port => 9,
            MessageTag::Extended => 20,
        }
    }
}

/// The four big-endian bytes of a 32-bit value.
pub open spec fn u32_be(n: u32) -> Seq<u8> {
    seq![
        (n / 0x1000000) as u8,
        ((n / 0x10000) % 0x100) as u8,
        ((n / 0x100) % 0x100) as u8,
        (n % 0x100) as u8,
    ]
}

/// The value of four big-endian bytes.
pub open spec fn be_u32_value(s: Seq<u8>) -> int {
    s[0] * 0x1000000 + s[1] * 0x10000 + s[2] * 0x100 + s[3]
}

pub fn u32_to_be(n: u32) -> (r: Vec<u8>)
    ensures
        r@ == u32_be(n),
{
    let mut r: Vec<u8> = Vec::new();
    r.push((n / 0x1000000) as u8);
    r.push(((n / 0x10000) % 0x100) as u8);
    r.push(((n / 0x100) % 0x100) as u8);
    r.push((n % 0x100) as u8);
    proof {
        assert(r@ =~= u32_be(n));
    }
    r
}

pub fn u32_from_be(b0: u8, b1: u8, b2: u8, b3: u8) -> (r: u32)
    ensures
        r == be_u32_value(seq![b0, b1, b2, b3]),
{
    (b0 as u32) * 0x1000000 + (b1 as u32) * 0x10000 + (b2 as u32) * 0x100 + (b3 as u32)
}

/// The four big-endian bytes of a value are read back as that value.
pub broadcast proof fn lemma_u32_be_value(n: u32)
    ensures
        be_u32_value(#[trigger] u32_be(n)) == n,
{
}

/// What a message is: its kind and its payload bytes.
pub struct MessageModel {
    pub tag: MessageTag,
    pub payload: Seq<u8>,
}

/// A peer wire message: a kind and a payload.
#[derive(Debug)]
pub struct Message {
    tag: MessageTag,
    payload: Vec<u8>,
}

impl View for Message {
    type V = MessageModel;

    closed spec fn view(&self) -> MessageModel {
        MessageModel { tag: self.tag, payload: self.payload@ }
    }
}

/// The frame of a message: four big-endian length bytes counting the
/// tag and the payload, the tag byte, then the payload.
pub open spec fn frame(m: MessageModel) -> Seq<u8> {
    u32_be((1 + m.payload.len()) as u32) + seq![tag_byte(m.tag)] + m.payload
}

impl Message {
    fn new(tag: MessageTag, payload: Vec<u8>) -> (r: Message)
        ensures
            r@ == (MessageModel { tag, payload: payload@ }),
    {
        Message { tag, payload }
    }

    fn new_empty(tag: MessageTag) -> (r: Message)
        ensures
            r@ == (MessageModel { tag, payload: Seq::empty() }),
    {
        Self::new(tag, Vec::new())
    }

    pub fn choke() -> (r: Message)
        ensures
            r@ == (MessageModel { tag: MessageTag::Choke, payload: Seq::empty() }),
    {
        Self::new_empty(MessageTag::Choke)
    }

    pub fn unchoke() -> (r: Message)
        ensures
            r@ == (MessageModel { tag: MessageTag::Unchoke, payload: Seq::empty() }),
    {
        Self::new_empty(MessageTag::Unchoke)
    }

    pub fn interested() -> (r: Message)
        ensures
            r@ == (MessageModel { tag: MessageTag::Interested, payload: Seq::empty() }),
    {
        Self::new_empty(MessageTag::Interested)
    }

    pub fn not_interested() -> (r: Message)
        ensures
            r@ == (MessageModel { tag: MessageTag::NotInterested, payload: Seq::empty() }),
    {
        Self::new_empty(MessageTag::NotInterested)
    }

    pub fn have(piece_index: u32) -> (r: Message)
        ensures
            r@ == (MessageModel { tag: MessageTag::Have, payload: u32_be(piece_index) }),
    {
        Self::new(MessageTag::Have, u32_to_be(piece_index))
    }

    pub fn bitfield(bitfield: &[u8]) -> (r: Message)
        ensures
            r@ == (MessageModel { tag: MessageTag::Bitfield, payload: bitfield@ }),
    {
        Self::new(MessageTag::Bitfield, vstd::slice::slice_to_vec(bitfield))
    }

    pub fn request(index: u32, begin: u32, length: u32) -> (r: Message)
        ensures
            r@ == (MessageModel {
                tag: MessageTag::Request,
                payload: u32_be(index) + u32_be(begin) + u32_be(length),
            }),
    {
        let mut payload = u32_to_be(index);
        let mut rest = u32_to_be(begin);
        payload.append(&mut rest);
        let mut rest2 = u32_to_be(length);
        payload.append(&mut rest2);
        Self::new(MessageTag::Request, payload)
    }

    pub fn piece(index: u32, begin: u32, block: &[u8]) -> (r: Message)
        ensures
            r@ == (MessageModel {
                tag: MessageTag::Piece,
                payload: u32_be(index) + u32_be(begin) + block@,
            }),
    {
        let mut payload = u32_to_be(index);
        let mut rest = u32_to_be(begin);
        payload.append(&mut rest);
        let mut data = vstd::slice::slice_to_vec(block);
        payload.append(&mut data);
        Self::new(MessageTag::Piece, payload)
    }

    pub fn cancel(index: u32, begin: u32, length: u32) -> (r: Message)
        ensures
            r@ == (MessageModel {
                tag: MessageTag::Cancel,
                payload: u32_be(index) + u32_be(begin) + u32_be(length),
            }),
    {
        let mut payload = u32_to_be(index);
        let mut rest = u32_to_be(begin);
        payload.append(&mut rest);
        let mut rest2 = u32_to_be(length);
        payload.append(&mut rest2);
        Self::new(MessageTag::Cancel, payload)
    }

    pub fn extended(extended_message_id: u8, data: &[u8]) -> (r: Message)
        ensures
            r@ == (MessageModel {
                tag: MessageTag::Extended,
                payload: seq![extended_message_id] + data@,
            }),
    {
        let mut payload: Vec<u8> = Vec::new();
        payload.push(extended_message_id);
        let mut rest = vstd::slice::slice_to_vec(data);
        payload.append(&mut rest);
        proof {
            assert(payload@ =~= seq![extended_message_id] + data@);
        }
        Self::new(MessageTag::Extended, payload)
    }

    pub fn get_tag(&self) -> (r: &MessageTag)
        ensures
            *r == self@.tag,
    {
        &self.tag
    }

    pub fn get_payload(&self) -> (r: &Vec<u8>)
        ensures
            r@ == self@.payload,
    {
        &self.payload
    }

    /// The wire bytes of this message.
    pub fn to_bytes(&self) -> (r: Vec<u8>)
        requires
            self@.payload.len() + 1 <= u32::MAX,
        ensures
            r@ == frame(self@),
    {
        let length: u32 = (1 + self.payload.len()) as u32;
        let mut r = u32_to_be(length);
        r.push(self.tag.as_byte());
        let mut data = vstd::slice::slice_to_vec(self.payload.as_slice());
        r.append(&mut data);
        proof {
            assert(r@ =~= frame(self@));
        }
        r
    }

    /// Reads the length-checked payload of a framed message: the
    /// declared length must be at least `min_len` and the frame must
    /// lie whole within the bytes.
    fn parse_body(slice: &[u8], tag: MessageTag, min_len: u32) -> (r: Result<Message, Error>)
        requires
            slice@.len() >= 5,
            1 <= min_len,
        ensures
            match r {
                Ok(m) => parse_payload(slice@, tag, min_len as int) == Ok::<MessageModel, Error>(
                    m@,
                ),
                Err(e) => parse_payload(slice@, tag, min_len as int) == Err::<
                    MessageModel,
                    Error,
                >(e),
            },
    {
        let message_len = u32_from_be(slice[0], slice[1], slice[2], slice[3]);
        proof {
            assert(seq![slice@[0], slice@[1], slice@[2], slice@[3]] =~= slice@.subrange(0, 4));
        }
        if message_len < min_len {
            return Err(
                Error::InvalidMessageLength { minimum_length: min_len, actual_length: message_len },
            );
        }
        if (slice.len() as u64) < message_len as u64 + 4 {
            return Err(
                Error::NotEnoughData {
                    minimum_length: message_len.wrapping_add(4),
                    actual_length: slice.len() as u32,
                },
            );
        }
        let end = message_len as usize + 4;
        let payload = vstd::slice::slice_to_vec(&slice[5..end]);
        Ok(Message::new(tag, payload))
    }

    /// Reads one framed message from the given bytes: the four length
    /// bytes, the tag byte, and the declared number of payload bytes,
    /// which must all be present.  Every tagged kind is accepted; only
    /// an unknown tag byte is rejected.
    pub fn parse(slice: &[u8]) -> (r: Result<Message, Error>)
        ensures
            match r {
                Ok(m) => parse_message(slice@) == Ok::<MessageModel, Error>(m@),
                Err(e) => parse_message(slice@) == Err::<MessageModel, Error>(e),
            },
    {
        let arr_len: usize = slice.len();
        if arr_len < 5 {
            return Err(
                Error::NotEnoughData { minimum_length: 5, actual_length: arr_len as u32 },
            );
        }
        let tag = match MessageTag::from_byte(slice[4]) {
            Ok(t) => t,
            Err(e) => {
                return Err(e);
            },
        };
        let min_len: u32 = match tag {
            MessageTag::Choke => 1,
            MessageTag::Unchoke => 1,
            MessageTag::Interested => 1,
            MessageTag::NotInterested => 1,
            MessageTag::Have => 5,
            MessageTag::Bitfield => 1,
            MessageTag::Request => 13,
            MessageTag::Piece => 9,
            MessageTag::Cancel => 13,
            MessageTag::Port => 3,
            MessageTag::Extended => 2,
        };
        proof {
            assert(min_len == tag_min_len(tag));
        }
        Self::parse_body(slice, tag, min_len)
    }
}

/// What reading one framed message from `s` yields: the four length
/// bytes, the tag byte, and the payload laid out as each kind
/// prescribes.
pub open spec fn parse_message(s: Seq<u8>) -> Result<MessageModel, Error> {
    if s.len() < 5 {
        Err(Error::NotEnoughData { minimum_length: 5, actual_length: s.len() as u32 })
    } else {
        let tb = s[4];
        if tb == 0 {
            parse_payload(s, MessageTag::Choke, tag_min_len(MessageTag::Choke))
        } else if tb == 1 {
            parse_payload(s, MessageTag::Unchoke, tag_min_len(MessageTag::Unchoke))
        } else if tb == 2 {
            parse_payload(s, MessageTag::Interested, tag_min_len(MessageTag::Interested))
        } else if tb == 3 {
            parse_payload(s, MessageTag::NotInterested, tag_min_len(MessageTag::NotInterested))
        } else if tb == 4 {
            parse_payload(s, MessageTag::Have, tag_min_len(MessageTag::Have))
        } else if tb == 5 {
            parse_payload(s, MessageTag::Bitfield, tag_min_len(MessageTag::Bitfield))
        } else if tb == 6 {
            parse_payload(s, MessageTag::Request, tag_min_len(MessageTag::Request))
        } else if tb == 7 {
            parse_payload(s, MessageTag::Piece, tag_min_len(MessageTag::Piece))
        } else if tb == 8 {
            parse_payload(s, MessageTag::Cancel, tag_min_len(MessageTag::Cancel))
        } else if tb == 9 {
            parse_payload(s, MessageTag::Port, tag_min_len(MessageTag::Port))
        } else if tb == 20 {
            parse_payload(s, MessageTag::Extended, tag_min_len(MessageTag::Extended))
        } else {
            Err(Error::UnrecognizedMessageTag(tb))
        }
    }
}

/// The payload of a framed message whose declared length must be at
/// least `min_len`, and which must lie whole within `s`.
pub open spec fn parse_payload(s: Seq<u8>, tag: MessageTag, min_len: int) -> Result<
    MessageModel,
    Error,
> {
    let message_len = be_u32_value(s.subrange(0, 4));
    if message_len < min_len {
        Err(
            Error::InvalidMessageLength {
                minimum_length: min_len as u32,
                actual_length: message_len as u32,
            },
        )
    } else if s.len() < message_len + 4 {
        Err(
            Error::NotEnoughData {
                minimum_length: (((message_len + 4) % 0x100000000) as u32),
                actual_length: s.len() as u32,
            },
        )
    } else {
        Ok(MessageModel { tag, payload: s.subrange(5, 4 + message_len) })
    }
}

/// The frame of a Piece message: the length bytes count the tag, the
/// two positions and the block; then the tag, index, begin and block.
pub proof fn lemma_piece_frame(index: u32, begin: u32, block: Seq<u8>)
    requires
        block.len() + 9 <= u32::MAX,
    ensures
        frame(
            MessageModel { tag: MessageTag::Piece, payload: u32_be(index) + u32_be(begin) + block },
        ) == u32_be((9 + block.len()) as u32) + seq![7u8] + u32_be(index) + u32_be(begin) + block,
{
    let m = MessageModel {
        tag: MessageTag::Piece,
        payload: u32_be(index) + u32_be(begin) + block,
    };
    assert(m.payload.len() == 8 + block.len());
    assert(frame(m) =~= u32_be((9 + block.len()) as u32) + seq![7u8] + u32_be(index) + u32_be(
        begin,
    ) + block);
}

} // verus!
