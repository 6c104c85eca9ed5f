use vstd::prelude::*;

use vstd::string::StringSliceAdditionalSpecFns;

use crate::bencode::model::find_from;
use crate::error::Error;
use crate::text::{lossy_chars, str_bytes_eq, str_eq, utf8_lossy};

verus! {

pub open spec fn is_hex_byte(b: u8) -> bool {
    (0x30 <= b <= 0x39) || (0x61 <= b <= 0x66) || (0x41 <= b <= 0x46)
}

pub open spec fn hex_byte_value(b: u8) -> int {
    if 0x30 <= b <= 0x39 {
        b - 0x30
    } else if 0x61 <= b <= 0x66 {
        b - 0x57
    } else {
        b - 0x37
    }
}

/// Form decoding of query text: a plus becomes a space, a percent sign
/// followed by two hexadecimal digits becomes that byte, and anything
/// else stays itself.
pub open spec fn form_decoded(b: Seq<u8>) -> Seq<u8>
    decreases b.len(),
{
    if b.len() == 0 {
        Seq::empty()
    } else if b[0] == 0x2b {
        seq![0x20u8] + form_decoded(b.drop_first())
    } else if b[0] == 0x25 && b.len() >= 3 && is_hex_byte(b[1]) && is_hex_byte(b[2]) {
        seq![((hex_byte_value(b[1]) * 16 + hex_byte_value(b[2])) as u8)] + form_decoded(
            b.subrange(3, b.len() as int),
        )
    } else {
        seq![b[0]] + form_decoded(b.drop_first())
    }
}

/// The form-decoded value of the named parameter in a query string:
/// segments split on ampersands, each at its first equals sign, keys
/// and values form-decoded; when a name repeats, the latest wins.
pub open spec fn find_param(b: Seq<u8>, name: Seq<u8>) -> Option<Seq<u8>>
    decreases b.len(),
{
    let own = {
        let seg_end = match find_from(b, 0, 0x26) {
            Some(k) => k,
            None => b.len() as int,
        };
        let seg = b.subrange(0, seg_end);
        let pair = match find_from(seg, 0, 0x3d) {
            Some(e) => (seg.subrange(0, e), seg.subrange(e + 1, seg.len() as int)),
            None => (seg, Seq::<u8>::empty()),
        };
        if form_decoded(pair.0) == name {
            Some(form_decoded(pair.1))
        } else {
            None
        }
    };
    match find_from(b, 0, 0x26) {
        Some(k) => {
            if 0 <= k < b.len() {
                match find_param(b.subrange(k + 1, b.len() as int), name) {
                    Some(v) => Some(v),
                    None => own,
                }
            } else {
                own
            }
        },
        None => own,
    }
}

/// What a version-one magnet link holds when it is well formed: the
/// `magnet:?` scheme, then a query whose `xt` parameter carries an
/// `urn:btih:` name, with `dn` and `tr` parameters present.  The three
/// results are the info-hash text after the prefix, the display name,
/// and the tracker URL.
pub open spec fn spec_magnet(b: Seq<u8>) -> Option<(Seq<char>, Seq<char>, Seq<char>)> {
    if b.len() < 8 || b.subrange(0, 8) != "magnet:?".spec_bytes() {
        None
    } else {
        let q = b.subrange(8, b.len() as int);
        match find_param(q, "xt".spec_bytes()) {
            Some(xt) => match find_param(q, "dn".spec_bytes()) {
                Some(dn) => match find_param(q, "tr".spec_bytes()) {
                    Some(tr) => {
                        let xtc = lossy_chars(xt);
                        if xtc.len() >= 9 && xtc.subrange(0, 9) == "urn:btih:"@ {
                            Some(
                                (
                                    xtc.subrange(9, xtc.len() as int),
                                    lossy_chars(dn),
                                    lossy_chars(tr),
                                ),
                            )
                        } else {
                            None
                        }
                    },
                    None => None,
                },
                None => None,
            },
            None => None,
        }
    }
}

/// What a parsed magnet link is.
pub struct MagnetModel {
    pub info_hash: Seq<char>,
    pub file_name: Seq<char>,
    pub tracker_url: Seq<char>,
}

/// A version-one magnet link: the hex info-hash, the display name, and
/// the tracker URL.
#[derive(Debug)]
pub struct MagnetLinkV1 {
    info_hash: String,
    file_name: String,
    tracker_url: String,
}

impl View for MagnetLinkV1 {
    type V = MagnetModel;

    closed spec fn view(&self) -> MagnetModel {
        MagnetModel {
            info_hash: self.info_hash@,
            file_name: self.file_name@,
            tracker_url: self.tracker_url@,
        }
    }
}

/// The position of the first occurrence of a byte, if any.
fn find_byte(b: &[u8], sep: u8) -> (r: Option<usize>)
    ensures
        match r {
            Some(k) => find_from(b@, 0, sep) == Some(k as int) && k < b@.len(),
            None => find_from(b@, 0, sep) is None,
        },
{
    let mut i: usize = 0;
    loop
        invariant
            i <= b@.len(),
            find_from(b@, 0, sep) == find_from(b@, i as int, sep),
        decreases b@.len() - i,
    {
        if i >= b.len() {
            return None;
        }
        if b[i] == sep {
            return Some(i);
        }
        i = i + 1;
    }
}

/// Form-decodes query text.
fn form_decode(b: &[u8]) -> (r: Vec<u8>)
    ensures
        r@ == form_decoded(b@),
{
    let mut out: Vec<u8> = Vec::new();
    let mut i: usize = 0;
    proof {
        assert(b@.subrange(0, b@.len() as int) =~= b@);
    }
    loop
        invariant
            i <= b@.len(),
            form_decoded(b@) == out@ + form_decoded(b@.subrange(i as int, b@.len() as int)),
        decreases b@.len() - i,
    {
        let ghost remaining = b@.subrange(i as int, b@.len() as int);
        if i >= b.len() {
            proof {
                assert(form_decoded(remaining) =~= Seq::<u8>::empty());
                assert(form_decoded(b@) =~= out@);
            }
            return out;
        }
        let c = b[i];
        proof {
            assert(remaining[0] == c);
        }
        if c == 0x2b {
            out.push(0x20);
            proof {
                assert(remaining.drop_first() =~= b@.subrange(i as int + 1, b@.len() as int));
                assert(form_decoded(b@) =~= out@ + form_decoded(
                    b@.subrange(i as int + 1, b@.len() as int),
                ));
            }
            i = i + 1;
        } else if c == 0x25 && b.len() - i > 2 && is_hex(b[i + 1]) && is_hex(b[i + 2]) {
            proof {
                assert(remaining.len() >= 3);
                assert(remaining[1] == b@[i as int + 1]);
                assert(remaining[2] == b@[i as int + 2]);
            }
            let value: u8 = hex_value(b[i + 1]) * 16 + hex_value(b[i + 2]);
            out.push(value);
            proof {
                assert(remaining.subrange(3, remaining.len() as int) =~= b@.subrange(
                    i as int + 3,
                    b@.len() as int,
                ));
                assert(form_decoded(b@) =~= out@ + form_decoded(
                    b@.subrange(i as int + 3, b@.len() as int),
                ));
            }
            i = i + 3;
        } else {
            out.push(c);
            proof {
                assert(remaining.drop_first() =~= b@.subrange(i as int + 1, b@.len() as int));
                assert(form_decoded(b@) =~= out@ + form_decoded(
                    b@.subrange(i as int + 1, b@.len() as int),
                ));
            }
            i = i + 1;
        }
    }
}

fn is_hex(b: u8) -> (r: bool)
    ensures
        r == is_hex_byte(b),
{
    (0x30 <= b && b <= 0x39) || (0x61 <= b && b <= 0x66) || (0x41 <= b && b <= 0x46)
}

fn hex_value(b: u8) -> (r: u8)
    requires
        is_hex_byte(b),
    ensures
        r == hex_byte_value(b),
{
    if 0x30 <= b && b <= 0x39 {
        b - 0x30
    } else if 0x61 <= b && b <= 0x66 {
        b - 0x57
    } else {
        b - 0x37
    }
}

/// Looks the named parameter up in a query string; when a name repeats,
/// the latest wins.
fn find_param_bytes(b: &[u8], name: &str) -> (r: Option<Vec<u8>>)
    ensures
        match r {
            Some(v) => find_param(b@, name.spec_bytes()) == Some(v@),
            None => find_param(b@, name.spec_bytes()) is None,
        },
    decreases b@.len(),
{
    let blen = b.len();
    let seg_end: usize;
    let has_more: bool;
    match find_byte(b, 0x26) {
        Some(k) => {
            seg_end = k;
            has_more = true;
        },
        None => {
            seg_end = b.len();
            has_more = false;
        },
    }
    if has_more {
        let rest: &[u8] = &b[seg_end + 1..blen];
        proof {
            assert(rest@ == b@.subrange(seg_end as int + 1, b@.len() as int));
        }
        match find_param_bytes(rest, name) {
            Some(v) => {
                return Some(v);
            },
            None => {},
        }
    }
    let seg: &[u8] = &b[0..seg_end];
    proof {
        assert(seg@ == b@.subrange(0, seg_end as int));
    }
    let key_end: usize;
    let has_value: bool;
    match find_byte(seg, 0x3d) {
        Some(e) => {
            key_end = e;
            has_value = true;
        },
        None => {
            key_end = seg.len();
            has_value = false;
        },
    }
    let key_bytes: &[u8] = &seg[0..key_end];
    let value_bytes: &[u8] = if has_value {
        &seg[key_end + 1..seg.len()]
    } else {
        &seg[0..0]
    };
    proof {
        if has_value {
            assert(value_bytes@ == seg@.subrange(key_end as int + 1, seg@.len() as int));
        } else {
            assert(value_bytes@ =~= Seq::<u8>::empty());
        }
    }
    proof {
        let seg_s = b@.subrange(
            0,
            match find_from(b@, 0, 0x26) {
                Some(k) => k,
                None => b@.len() as int,
            },
        );
        assert(seg@ == seg_s);
        match find_from(seg@, 0, 0x3d) {
            Some(e) => {
                assert(key_bytes@ == seg@.subrange(0, e));
                assert(value_bytes@ == seg@.subrange(e + 1, seg@.len() as int));
            },
            None => {
                assert(key_bytes@ =~= seg@);
                assert(value_bytes@ =~= Seq::<u8>::empty());
            },
        }
    }
    let decoded_key = form_decode(key_bytes);
    if str_bytes_eq(decoded_key.as_slice(), name) {
        Some(form_decode(value_bytes))
    } else {
        None
    }
}

impl MagnetLinkV1 {
    /// Reads a version-one magnet link: the `magnet:?` scheme, an `xt`
    /// parameter naming the info-hash with the `urn:btih:` prefix, and
    /// `dn` and `tr` parameters for the name and the tracker.
    pub fn parse(input: &str) -> (r: Result<MagnetLinkV1, Error>)
        ensures
            match spec_magnet(input.spec_bytes()) {
                Some(m) => r matches Ok(link) && link@.info_hash == m.0 && link@.file_name == m.1
                    && link@.tracker_url == m.2,
                None => r == Err::<MagnetLinkV1, Error>(Error::InvalidMagnetLink),
            },
    {
        let bytes = input.as_bytes_vec();
        if bytes.len() < 8 {
            return Err(Error::InvalidMagnetLink);
        }
        if !str_bytes_eq(&bytes.as_slice()[0..8], "magnet:?") {
            proof {
                assert(bytes@.subrange(0, 8) != "magnet:?".spec_bytes());
            }
            return Err(Error::InvalidMagnetLink);
        }
        let query: &[u8] = &bytes.as_slice()[8..bytes.len()];
        proof {
            assert(query@ == input.spec_bytes().subrange(8, input.spec_bytes().len() as int));
        }
        let xt = match find_param_bytes(query, "xt") {
            Some(v) => v,
            None => {
                return Err(Error::InvalidMagnetLink);
            },
        };
        let dn = match find_param_bytes(query, "dn") {
            Some(v) => v,
            None => {
                return Err(Error::InvalidMagnetLink);
            },
        };
        let tr = match find_param_bytes(query, "tr") {
            Some(v) => v,
            None => {
                return Err(Error::InvalidMagnetLink);
            },
        };
        let xt_text = utf8_lossy(&xt);
        if xt_text.as_str().unicode_len() < 9 {
            return Err(Error::InvalidMagnetLink);
        }
        if !str_eq(xt_text.as_str().substring_char(0, 9), "urn:btih:") {
            return Err(Error::InvalidMagnetLink);
        }
        let hash = xt_text.as_str().substring_char(9, xt_text.as_str().unicode_len()).to_owned();
        proof {
            assert(hash@ =~= lossy_chars(xt@).subrange(9, lossy_chars(xt@).len() as int));
        }
        Ok(MagnetLinkV1 { info_hash: hash, file_name: utf8_lossy(&dn), tracker_url: utf8_lossy(&tr) })
    }

    pub fn get_info_hash(&self) -> (r: &str)
        ensures
            r@ == self@.info_hash,
    {
        self.info_hash.as_str()
    }

    pub fn get_file_name(&self) -> (r: &str)
        ensures
            r@ == self@.file_name,
    {
        self.file_name.as_str()
    }

    pub fn get_tracker_url(&self) -> (r: &str)
        ensures
            r@ == self@.tracker_url,
    {
        self.tracker_url.as_str()
    }
}

} // verus!
