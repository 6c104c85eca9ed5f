use vstd::prelude::*;

use crate::text::{dec_chars, lossy_chars, push_char, u64_to_string, utf8_lossy};

verus! {

/// Failure of decoding a bencoded byte string.
#[derive(Debug, PartialEq)]
pub enum ByteStringDecodeError {
    EmptyInput,
    UnexpectedByte { unexpected_byte: u8, unexpected_byte_ascii: char, position: usize },
    InvalidLength,
    ColonNotFound,
    ContentTooShort { expected: usize, found: usize },
}

/// Failure of decoding a bencoded integer.
#[derive(Debug, PartialEq)]
pub enum Int64DecodeError {
    EmptyInput,
    StartNotFound { found: u8, found_as_ascii: char },
    EndNotFound,
    NumberNotFound,
    InvalidNumberError(String),
    NumberParseIntError(Vec<u8>),
}

/// Failure of decoding a bencoded list.
#[derive(Debug, PartialEq)]
pub enum ListDecodeError {
    EmptyInput,
    StartNotFound { found: u8, found_as_ascii: char },
    EndNotFound,
    ElementDecodeError { position: usize },
}

/// Failure of decoding a bencoded dictionary.
#[derive(Debug, PartialEq)]
pub enum DictDecodeError {
    EmptyInput,
    StartNotFound { found: u8, found_as_ascii: char },
    EndNotFound,
    KeyDecodeError(ByteStringDecodeError),
    ValueDecodeError { position: usize },
}

/// Failure of decoding a bencoded value of any kind.
#[derive(Debug, PartialEq)]
pub enum DecodeError {
    EmptyInput,
    ByteStringDecodeError(ByteStringDecodeError),
    Int64DecodeError(Int64DecodeError),
    ListDecodeError(ListDecodeError),
    DictDecodeError(DictDecodeError),
    Other(String),
}

pub open spec fn msg_empty_input() -> Seq<char> {
    "The input is empty."@
}

pub open spec fn msg_unexpected_byte(b: u8, pos: int) -> Seq<char> {
    "Unexpected byte value '"@ + dec_chars(b as nat) + "' (ASCII: '"@ + seq![b as char]
        + "') at position "@ + dec_chars(pos as nat)
        + ": bencoded strings must begin with a number (consisting of numeric characters from 0 to 9) indicating the length of the bencoded string and preceeding a colon character (':')."@
}

pub open spec fn msg_content_too_short(expected: int, found: int) -> Seq<char> {
    "Not enough bytes to read after the colon (':') to read a byte string of length "@
        + dec_chars(expected as nat) + ": "@ + dec_chars(found as nat)
}

pub open spec fn msg_start_not_found(prefix: Seq<char>, b: u8) -> Seq<char> {
    prefix + dec_chars(b as nat) + "' (ASCII: '"@ + seq![b as char] + "')."@
}

pub open spec fn msg_parse_int_failure(buf: Seq<u8>) -> Seq<char> {
    "Could not parse '"@ + lossy_chars(buf) + "' to i64."@
}

/// The message for a byte that starts no bencoded kind, carrying the
/// byte and its position in the input given to `decode`.
pub open spec fn msg_unknown_value_start(b: u8) -> Seq<char> {
    "Unexpected byte value '"@ + dec_chars(b as nat) + "' (ASCII: '"@ + seq![b as char]
        + "') at position 0: bencoded values must start with a digit ('0'-'9'), 'i', 'l' or 'd'."@
}

impl ByteStringDecodeError {
    /// The human-readable description of this error.
    pub open spec fn message(&self) -> Seq<char> {
        match self {
            ByteStringDecodeError::EmptyInput => msg_empty_input(),
            ByteStringDecodeError::UnexpectedByte {
                unexpected_byte,
                unexpected_byte_ascii,
                position,
            } => msg_unexpected_byte(*unexpected_byte, *position as int),
            ByteStringDecodeError::InvalidLength => "Invalid length."@,
            ByteStringDecodeError::ColonNotFound => "Colon (':') not found."@,
            ByteStringDecodeError::ContentTooShort { expected, found } => msg_content_too_short(
                *expected as int,
                *found as int,
            ),
        }
    }

    pub fn get_message(&self) -> (r: String)
        ensures
            r@ == self.message(),
    {
        match self {
            ByteStringDecodeError::EmptyInput => "The input is empty.".to_owned(),
            ByteStringDecodeError::UnexpectedByte {
                unexpected_byte,
                unexpected_byte_ascii: _,
                position,
            } => {
                let mut s = "Unexpected byte value '".to_owned();
                s.append(u64_to_string(*unexpected_byte as u64).as_str());
                s.append("' (ASCII: '");
                push_char(&mut s, *unexpected_byte as char);
                s.append("') at position ");
                s.append(u64_to_string(*position as u64).as_str());
                s.append(
                    ": bencoded strings must begin with a number (consisting of numeric characters from 0 to 9) indicating the length of the bencoded string and preceeding a colon character (':').",
                );
                s
            },
            ByteStringDecodeError::InvalidLength => "Invalid length.".to_owned(),
            ByteStringDecodeError::ColonNotFound => "Colon (':') not found.".to_owned(),
            ByteStringDecodeError::ContentTooShort { expected, found } => {
                let mut s =
                    "Not enough bytes to read after the colon (':') to read a byte string of length "
                    .to_owned();
                s.append(u64_to_string(*expected as u64).as_str());
                s.append(": ");
                s.append(u64_to_string(*found as u64).as_str());
                s
            },
        }
    }
}

impl Int64DecodeError {
    /// The human-readable description of this error.
    pub open spec fn message(&self) -> Seq<char> {
        match self {
            Int64DecodeError::EmptyInput => msg_empty_input(),
            Int64DecodeError::StartNotFound { found, found_as_ascii } => msg_start_not_found(
                "Bencoded integers must start with 'i' but got '"@,
                *found,
            ),
            Int64DecodeError::EndNotFound => "End of number ('e') not found."@,
            Int64DecodeError::NumberNotFound => "Number not found."@,
            Int64DecodeError::InvalidNumberError(s) => s@,
            Int64DecodeError::NumberParseIntError(buf) => msg_parse_int_failure(buf@),
        }
    }

    pub fn get_message(&self) -> (r: String)
        ensures
            r@ == self.message(),
    {
        match self {
            Int64DecodeError::EmptyInput => "The input is empty.".to_owned(),
            Int64DecodeError::StartNotFound { found, found_as_ascii: _ } => {
                let mut s = "Bencoded integers must start with 'i' but got '".to_owned();
                s.append(u64_to_string(*found as u64).as_str());
                s.append("' (ASCII: '");
                push_char(&mut s, *found as char);
                s.append("').");
                proof {
                    assert(s@ =~= msg_start_not_found(
                        "Bencoded integers must start with 'i' but got '"@,
                        *found,
                    ));
                }
                s
            },
            Int64DecodeError::EndNotFound => "End of number ('e') not found.".to_owned(),
            Int64DecodeError::NumberNotFound => "Number not found.".to_owned(),
            Int64DecodeError::InvalidNumberError(s) => s.clone(),
            Int64DecodeError::NumberParseIntError(buf) => {
                let mut s = "Could not parse '".to_owned();
                s.append(utf8_lossy(buf).as_str());
                s.append("' to i64.");
                s
            },
        }
    }
}

impl ListDecodeError {
    /// The human-readable description of this error.
    pub open spec fn message(&self) -> Seq<char> {
        match self {
            ListDecodeError::EmptyInput => msg_empty_input(),
            ListDecodeError::StartNotFound { found, found_as_ascii } => msg_start_not_found(
                "Bencoded lists must start with 'l' but got '"@,
                *found,
            ),
            ListDecodeError::EndNotFound => "End of list ('e') not found."@,
            ListDecodeError::ElementDecodeError { position } => "Could not decode the element at "@
                + dec_chars(*position as nat) + "."@,
        }
    }

    pub fn get_message(&self) -> (r: String)
        ensures
            r@ == self.message(),
    {
        match self {
            ListDecodeError::EmptyInput => "The input is empty.".to_owned(),
            ListDecodeError::StartNotFound { found, found_as_ascii: _ } => {
                let mut s = "Bencoded lists must start with 'l' but got '".to_owned();
                s.append(u64_to_string(*found as u64).as_str());
                s.append("' (ASCII: '");
                push_char(&mut s, *found as char);
                s.append("').");
                proof {
                    assert(s@ =~= msg_start_not_found(
                        "Bencoded lists must start with 'l' but got '"@,
                        *found,
                    ));
                }
                s
            },
            ListDecodeError::EndNotFound => "End of list ('e') not found.".to_owned(),
            ListDecodeError::ElementDecodeError { position } => {
                let mut s = "Could not decode the element at ".to_owned();
                s.append(u64_to_string(*position as u64).as_str());
                s.append(".");
                s
            },
        }
    }
}

impl DictDecodeError {
    /// The human-readable description of this error.
    pub open spec fn message(&self) -> Seq<char> {
        match self {
            DictDecodeError::EmptyInput => msg_empty_input(),
            DictDecodeError::StartNotFound { found, found_as_ascii } => msg_start_not_found(
                "Bencoded dicts must start with 'd' but got '"@,
                *found,
            ),
            DictDecodeError::EndNotFound => "The end of dict ('e') not found."@,
            DictDecodeError::KeyDecodeError(_) => "Could not decode bencoded key."@,
            DictDecodeError::ValueDecodeError { position } => "Could not decode value at "@
                + dec_chars(*position as nat),
        }
    }

    pub fn get_message(&self) -> (r: String)
        ensures
            r@ == self.message(),
    {
        match self {
            DictDecodeError::EmptyInput => "The input is empty.".to_owned(),
            DictDecodeError::StartNotFound { found, found_as_ascii: _ } => {
                let mut s = "Bencoded dicts must start with 'd' but got '".to_owned();
                s.append(u64_to_string(*found as u64).as_str());
                s.append("' (ASCII: '");
                push_char(&mut s, *found as char);
                s.append("').");
                proof {
                    assert(s@ =~= msg_start_not_found(
                        "Bencoded dicts must start with 'd' but got '"@,
                        *found,
                    ));
                }
                s
            },
            DictDecodeError::EndNotFound => "The end of dict ('e') not found.".to_owned(),
            DictDecodeError::KeyDecodeError(_) => "Could not decode bencoded key.".to_owned(),
            DictDecodeError::ValueDecodeError { position } => {
                let mut s = "Could not decode value at ".to_owned();
                s.append(u64_to_string(*position as u64).as_str());
                s
            },
        }
    }
}

impl DecodeError {
    /// The error for a first byte that starts no bencoded kind.
    pub fn unknown_value_start(b: u8) -> (r: DecodeError)
        ensures
            r matches DecodeError::Other(s) && s@ == msg_unknown_value_start(b),
    {
        let mut s = "Unexpected byte value '".to_owned();
        s.append(u64_to_string(b as u64).as_str());
        s.append("' (ASCII: '");
        push_char(&mut s, b as char);
        s.append(
            "') at position 0: bencoded values must start with a digit ('0'-'9'), 'i', 'l' or 'd'.",
        );
        proof {
            assert(s@ =~= msg_unknown_value_start(b));
        }
        DecodeError::Other(s)
    }

    /// The human-readable description of this error.
    pub open spec fn message(&self) -> Seq<char> {
        match self {
            DecodeError::EmptyInput => msg_empty_input(),
            DecodeError::ByteStringDecodeError(e) => e.message(),
            DecodeError::Int64DecodeError(e) => e.message(),
            DecodeError::ListDecodeError(e) => e.message(),
            DecodeError::DictDecodeError(e) => e.message(),
            DecodeError::Other(s) => s@,
        }
    }

    pub fn get_message(&self) -> (r: String)
        ensures
            r@ == self.message(),
    {
        match self {
            DecodeError::EmptyInput => "The input is empty.".to_owned(),
            DecodeError::ByteStringDecodeError(e) => e.get_message(),
            DecodeError::Int64DecodeError(e) => e.get_message(),
            DecodeError::ListDecodeError(e) => e.get_message(),
            DecodeError::DictDecodeError(e) => e.get_message(),
            DecodeError::Other(s) => s.clone(),
        }
    }
}

} // verus!
