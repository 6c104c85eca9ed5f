use vstd::prelude::*;

use crate::text::{hex_chars, hex_encode, push_char};

verus! {

/// The nineteen bytes of the protocol name `BitTorrent protocol`.
pub open spec fn protocol_bytes() -> Seq<u8> {
    seq![
        0x42u8,
        0x69,
        0x74,
        0x54,
        0x6f,
        0x72,
        0x72,
        0x65,
        0x6e,
        0x74,
        0x20,
        0x70,
        0x72,
        0x6f,
        0x74,
        0x6f,
        0x63,
        0x6f,
        0x6c,
    ]
}

/// The eight reserved bytes: all clear, or with the extension-protocol
/// bit set in the sixth byte.
pub open spec fn reserved_bytes(extension: bool) -> Seq<u8> {
    if extension {
        seq![0u8, 0, 0, 0, 0, 0x10, 0, 0]
    } else {
        seq![0u8, 0, 0, 0, 0, 0, 0, 0]
    }
}

/// The sixty-eight bytes of a handshake: the protocol name length, the
/// protocol name, the reserved bytes, the info-hash, the peer id.
pub open spec fn handshake_bytes(info_hash: Seq<u8>, peer_id: Seq<u8>, extension: bool) -> Seq<
    u8,
> {
    seq![19u8] + protocol_bytes() + reserved_bytes(extension) + info_hash + peer_id
}

/// What a handshake message is.
pub struct HandshakeModel {
    pub info_hash: Seq<u8>,
    pub peer_id: Seq<u8>,
    pub extension_supported: bool,
}

/// One side's handshake: the torrent's info-hash, this client's peer
/// id, and whether the extension protocol is advertised.
#[derive(Debug)]
pub struct HandshakeMessage {
    info_hash: Vec<u8>,
    peer_id: Vec<u8>,
    extension_supported: bool,
}

impl View for HandshakeMessage {
    type V = HandshakeModel;

    closed spec fn view(&self) -> HandshakeModel {
        HandshakeModel {
            info_hash: self.info_hash@,
            peer_id: self.peer_id@,
            extension_supported: self.extension_supported,
        }
    }
}

impl HandshakeMessage {
    /// Both identifiers are twenty bytes long.
    pub open spec fn wf(&self) -> bool {
        self@.info_hash.len() == 20 && self@.peer_id.len() == 20
    }

    pub fn new(info_hash: &[u8], peer_id: &[u8]) -> (r: HandshakeMessage)
        requires
            info_hash@.len() == 20,
            peer_id@.len() == 20,
        ensures
            r@ == (HandshakeModel {
                info_hash: info_hash@,
                peer_id: peer_id@,
                extension_supported: false,
            }),
            r.wf(),
    {
        HandshakeMessage {
            info_hash: vstd::slice::slice_to_vec(info_hash),
            peer_id: vstd::slice::slice_to_vec(peer_id),
            extension_supported: false,
        }
    }

    pub fn new_magnet(info_hash: &[u8], peer_id: &[u8]) -> (r: HandshakeMessage)
        requires
            info_hash@.len() == 20,
            peer_id@.len() == 20,
        ensures
            r@ == (HandshakeModel {
                info_hash: info_hash@,
                peer_id: peer_id@,
                extension_supported: true,
            }),
            r.wf(),
    {
        HandshakeMessage {
            info_hash: vstd::slice::slice_to_vec(info_hash),
            peer_id: vstd::slice::slice_to_vec(peer_id),
            extension_supported: true,
        }
    }

    pub fn get_info_hash(&self) -> (r: &Vec<u8>)
        ensures
            r@ == self@.info_hash,
    {
        &self.info_hash
    }

    pub fn get_peer_id(&self) -> (r: &Vec<u8>)
        ensures
            r@ == self@.peer_id,
    {
        &self.peer_id
    }

    pub fn is_extension_supported(&self) -> (r: bool)
        ensures
            r == self@.extension_supported,
    {
        self.extension_supported
    }

    /// The sixty-eight wire bytes of this handshake.
    pub fn to_bytes(&self) -> (r: Vec<u8>)
        requires
            self.wf(),
        ensures
            r@ == handshake_bytes(self@.info_hash, self@.peer_id, self@.extension_supported),
            r@.len() == 68,
    {
        let mut r: Vec<u8> = Vec::new();
        r.push(19);
        r.push(0x42);
        r.push(0x69);
        r.push(0x74);
        r.push(0x54);
        r.push(0x6f);
        r.push(0x72);
        r.push(0x72);
        r.push(0x65);
        r.push(0x6e);
        r.push(0x74);
        r.push(0x20);
        r.push(0x70);
        r.push(0x72);
        r.push(0x6f);
        r.push(0x74);
        r.push(0x6f);
        r.push(0x63);
        r.push(0x6f);
        r.push(0x6c);
        r.push(0);
        r.push(0);
        r.push(0);
        r.push(0);
        r.push(0);
        if self.extension_supported {
            r.push(0x10);
        } else {
            r.push(0);
        }
        r.push(0);
        r.push(0);
        let mut hash = vstd::slice::slice_to_vec(self.info_hash.as_slice());
        r.append(&mut hash);
        let mut id = vstd::slice::slice_to_vec(self.peer_id.as_slice());
        r.append(&mut id);
        proof {
            assert(r@ =~= handshake_bytes(
                self@.info_hash,
                self@.peer_id,
                self@.extension_supported,
            ));
        }
        r
    }

    /// Reads a received handshake.  The info-hash and peer id are taken
    /// from their fixed offsets; the extension protocol counts as
    /// supported exactly when its bit is set in the sixth reserved
    /// byte, whatever the other reserved bits say.
    pub fn from_bytes(arr: &[u8]) -> (r: HandshakeMessage)
        requires
            arr@.len() == 68,
        ensures
            r@.info_hash == arr@.subrange(28, 48),
            r@.peer_id == arr@.subrange(48, 68),
            r@.extension_supported == (arr@[25] & 0x10 == 0x10),
            r.wf(),
    {
        let info_hash = vstd::slice::slice_to_vec(&arr[28..48]);
        let peer_id = vstd::slice::slice_to_vec(&arr[48..68]);
        let extension_supported = arr[25] & 0x10 == 0x10;
        HandshakeMessage { info_hash, peer_id, extension_supported }
    }

    /// Reads a received handshake, rejecting one whose length is not
    /// sixty-eight bytes, whose first byte is not the protocol name
    /// length, or whose protocol name is wrong.
    pub fn from_wire(arr: &[u8]) -> (r: Result<HandshakeMessage, crate::error::Error>)
        ensures
            match r {
                Ok(m) => arr@.len() == 68 && arr@.subrange(0, 20) == seq![19u8]
                    + protocol_bytes() && m@.info_hash == arr@.subrange(28, 48) && m@.peer_id
                    == arr@.subrange(48, 68) && m@.extension_supported == (arr@[25] & 0x10
                    == 0x10) && m.wf(),
                Err(e) => e == crate::error::Error::BadHandshake && (arr@.len() != 68
                    || arr@.subrange(0, 20) != seq![19u8] + protocol_bytes()),
            },
    {
        if arr.len() != 68 {
            return Err(crate::error::Error::BadHandshake);
        }
        let mut expected: Vec<u8> = Vec::new();
        expected.push(19);
        expected.push(0x42);
        expected.push(0x69);
        expected.push(0x74);
        expected.push(0x54);
        expected.push(0x6f);
        expected.push(0x72);
        expected.push(0x72);
        expected.push(0x65);
        expected.push(0x6e);
        expected.push(0x74);
        expected.push(0x20);
        expected.push(0x70);
        expected.push(0x72);
        expected.push(0x6f);
        expected.push(0x74);
        expected.push(0x6f);
        expected.push(0x63);
        expected.push(0x6f);
        expected.push(0x6c);
        proof {
            assert(expected@ =~= seq![19u8] + protocol_bytes());
        }
        if !crate::text::bytes_eq(&arr[0..20], expected.as_slice()) {
            return Err(crate::error::Error::BadHandshake);
        }
        Ok(Self::from_bytes(arr))
    }

    /// Whether the handshake carries the expected info-hash; a reply
    /// that does not is fatal for its session.
    pub fn matches_info_hash(&self, expected: &[u8]) -> (r: bool)
        ensures
            r == (self@.info_hash == expected@),
    {
        crate::text::bytes_eq(self.info_hash.as_slice(), expected)
    }

    /// The line the client prints for a received handshake.
    pub fn display_text(&self) -> (r: String)
        ensures
            r@ == "Peer ID: "@ + hex_chars(self@.peer_id) + seq!['\n'],
    {
        let mut s = "Peer ID: ".to_owned();
        s.append(hex_encode(&self.peer_id).as_str());
        push_char(&mut s, '\n');
        proof {
            assert(s@ =~= "Peer ID: "@ + hex_chars(self@.peer_id) + seq!['\n']);
        }
        s
    }
}

} // verus!
