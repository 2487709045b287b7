use mover::magnet::Torrent;

fn sample_torrent(hash: &str) -> Torrent {
    Torrent {
        hash: hash.to_string(),
        quality: "1080p".to_string(),
        url: "https://example.invalid/t".to_string(),
        type_: "web".to_string(),
        video_codec: "x264".to_string(),
        seeds: 10,
        peers: 3,
        size: "1.2 GB".to_string(),
        size_bytes: 1_288_490_188,
    }
}

const TRACKERS: [&str; 8] = [
    "udp://open.demonii.com:1337/announce",
    "udp://tracker.openbittorrent.com:80",
    "udp://tracker.coppersurfer.tk:6969",
    "udp://glotorrents.pw:6969/announce",
    "udp://tracker.opentrackr.org:1337/announce",
    "udp://torrent.gresille.org:80/announce",
    "udp://p4p.arenabg.com:1337",
    "udp://tracker.leechers-paradise.org:6969",
];

#[test]
fn trackers_are_the_fixed_eight() {
    let got = Torrent::get_trackers();
    assert_eq!(got.len(), 8);
    for (g, w) in got.iter().zip(TRACKERS.iter()) {
        assert_eq!(g, w);
    }
}

#[test]
fn magnet_link_starts_with_prefix_and_hash() {
    let t = sample_torrent("CAFEBABE0123456789");
    let link = t.get_magnet_link("Some Movie");
    assert!(link.starts_with("magnet:?xt=urn:btih:CAFEBABE0123456789&dn="));
}

#[test]
fn magnet_link_has_eight_decodable_tracker_params() {
    let t = sample_torrent("00ff00ff");
    let link = t.get_magnet_link("A Movie");
    let segments: Vec<&str> = link.split('&').collect();
    assert_eq!(segments.len(), 10);
    let tr: Vec<&str> = segments
        .iter()
        .filter(|s| s.starts_with("tr="))
        .copied()
        .collect();
    assert_eq!(tr.len(), 8);
    for (seg, want) in tr.iter().zip(TRACKERS.iter()) {
        let decoded = urlencoding::decode(&seg[3..]).expect("valid percent encoding");
        assert_eq!(&decoded, want);
    }
}

#[test]
fn display_tag_is_percent_encoded_name_plus_quality() {
    let t = sample_torrent("abcd");
    let link = t.get_magnet_link("My Movie");
    let segments: Vec<&str> = link.split('&').collect();
    let dn = segments[1];
    assert!(dn.starts_with("dn="));
    // the encoder must have escaped the space; nothing unescaped remains
    assert!(dn.contains("%20"));
    assert!(!dn.contains(' '));
    let decoded = urlencoding::decode(&dn[3..]).expect("valid percent encoding");
    assert_eq!(&decoded, "My Movie1080p");
}
