use bittorrent::error::Error;
use bittorrent::magnet::MagnetLinkV1;

#[test]
fn parses_a_full_magnet_link() {
    let link = MagnetLinkV1::parse(
        "magnet:?xt=urn:btih:ad42ce8109f54c99613ce38f9b4d87e70f24a165&dn=magnet1.gif&tr=http%3A%2F%2Fbittorrent-test-tracker.codecrafters.io%2Fannounce",
    )
    .unwrap();
    assert_eq!(link.get_info_hash(), "ad42ce8109f54c99613ce38f9b4d87e70f24a165");
    assert_eq!(link.get_file_name(), "magnet1.gif");
    assert_eq!(
        link.get_tracker_url(),
        "http://bittorrent-test-tracker.codecrafters.io/announce"
    );
}

#[test]
fn later_parameters_win_and_plus_decodes_to_space() {
    let link = MagnetLinkV1::parse(
        "magnet:?xt=urn:btih:00&dn=first&dn=second+name&tr=http%3A%2F%2Ft%2Fa",
    )
    .unwrap();
    assert_eq!(link.get_info_hash(), "00");
    assert_eq!(link.get_file_name(), "second name");
    assert_eq!(link.get_tracker_url(), "http://t/a");
}

#[test]
fn rejects_malformed_links() {
    assert!(matches!(
        MagnetLinkV1::parse("http://not-a-magnet"),
        Err(Error::InvalidMagnetLink)
    ));
    assert!(MagnetLinkV1::parse("magnet:?dn=x&tr=y").is_err());
    assert!(MagnetLinkV1::parse("magnet:?xt=wrong:prefix&dn=x&tr=y").is_err());
    assert!(MagnetLinkV1::parse("magnet:?xt=urn:btih:00&dn=x").is_err());
}
