use vstd::prelude::*;

verus! {

/// The subcommands the client offers, with their arguments as the
/// command line supplies them.
#[derive(Debug)]
pub enum CliCommand {
    Decode { input: String },
    Download { torrent_file: String, output: String },
    DownloadPiece { torrent_file: String, piece_index: usize, output: String },
    Handshake { torrent_file: String, address: String },
    Info { torrent_file: String },
    MagnetHandshake { magnet_url: String },
    MagnetParse { magnet_url: String },
    Peers { torrent_file: String },
}

/// The parsed command line: one subcommand.
#[derive(Debug)]
pub struct Cli {
    pub command: CliCommand,
}

/// The twenty ASCII bytes this client announces itself with.
pub open spec fn spec_peer_id() -> Seq<u8> {
    seq![
        0x31u8,
        0x32,
        0x33,
        0x34,
        0x35,
        0x36,
        0x37,
        0x38,
        0x39,
        0x30,
        0x31,
        0x32,
        0x33,
        0x34,
        0x35,
        0x36,
        0x37,
        0x38,
        0x39,
        0x30,
    ]
}

/// The client's peer id: twenty ASCII digits.
pub fn peer_id() -> (r: Vec<u8>)
    ensures
        r@ == spec_peer_id(),
        r@.len() == 20,
{
    let mut r: Vec<u8> = Vec::new();
    r.push(0x31);
    r.push(0x32);
    r.push(0x33);
    r.push(0x34);
    r.push(0x35);
    r.push(0x36);
    r.push(0x37);
    r.push(0x38);
    r.push(0x39);
    r.push(0x30);
    r.push(0x31);
    r.push(0x32);
    r.push(0x33);
    r.push(0x34);
    r.push(0x35);
    r.push(0x36);
    r.push(0x37);
    r.push(0x38);
    r.push(0x39);
    r.push(0x30);
    proof {
        assert(r@ =~= spec_peer_id());
    }
    r
}

} // verus!
