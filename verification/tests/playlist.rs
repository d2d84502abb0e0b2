use pku3b::playlist::{parse_media_playlist, Key, KeyMethod, MediaPlaylist, MediaSegment, PlaylistError};

#[test]
fn media_playlist_parses_sequence_keys_and_segments() {
    let src = "#EXTM3U\n#EXT-X-VERSION:3\n#EXT-X-MEDIA-SEQUENCE:100\n#EXT-X-KEY:METHOD=AES-128,URI=\"key.bin\",KEYFORMAT=\"identity\"\n#EXTINF:10,\nseg0.ts\n#EXTINF:10,\nseg1.ts\n#EXT-X-ENDLIST\n";
    let pl = parse_media_playlist(src).unwrap();
    assert_eq!(pl.media_sequence, 100);
    assert_eq!(pl.segments.len(), 2);
    assert_eq!(pl.segments[0].uri, "seg0.ts");
    let k = pl.segments[0].key.as_ref().unwrap();
    assert_eq!(k.method, KeyMethod::Aes128);
    assert_eq!(k.uri.as_deref(), Some("key.bin"));
    assert_eq!(k.keyformat.as_deref(), Some("identity"));
    assert!(k.iv.is_none());
    assert!(pl.segments[1].key.is_none());
    assert_eq!(pl.segments[1].uri, "seg1.ts");
}

#[test]
fn quoted_key_uri_may_contain_commas() {
    let src = "#EXTM3U\n#EXT-X-KEY:METHOD=AES-128,URI=\"key?a=1,b=2\",IV=0x0102030405060708090a0b0c0d0e0f10\nseg.ts\n";
    let pl = parse_media_playlist(src).unwrap();
    let k = pl.segments[0].key.as_ref().unwrap();
    assert_eq!(k.uri.as_deref(), Some("key?a=1,b=2"));
    assert_eq!(k.iv.as_deref(), Some("0x0102030405060708090a0b0c0d0e0f10"));
}

#[test]
fn master_playlist_is_rejected_outright() {
    let src = "#EXTM3U\n#EXT-X-STREAM-INF:BANDWIDTH=1280000,RESOLUTION=1280x720\nlow/index.m3u8\n#EXT-X-STREAM-INF:BANDWIDTH=2560000\nhigh/index.m3u8\n";
    assert_eq!(parse_media_playlist(src).unwrap_err(), PlaylistError::UnsupportedPlaylist);
}

#[test]
fn source_without_header_is_not_a_playlist() {
    assert_eq!(parse_media_playlist("hello\n").unwrap_err(), PlaylistError::NotAPlaylist);
    assert_eq!(parse_media_playlist("").unwrap_err(), PlaylistError::NotAPlaylist);
}

#[test]
fn bad_media_sequence_and_methodless_key_are_invalid_tags() {
    let src = "#EXTM3U\n#EXT-X-MEDIA-SEQUENCE:abc\nseg.ts\n";
    assert_eq!(parse_media_playlist(src).unwrap_err(), PlaylistError::InvalidTag);
    let src2 = "#EXTM3U\n#EXT-X-KEY:URI=\"key.bin\"\nseg.ts\n";
    assert_eq!(parse_media_playlist(src2).unwrap_err(), PlaylistError::InvalidTag);
}

#[test]
fn other_key_methods_are_carried_through() {
    let src = "#EXTM3U\n#EXT-X-KEY:METHOD=NONE\nseg.ts\n";
    let pl = parse_media_playlist(src).unwrap();
    assert_eq!(pl.segments[0].key.as_ref().unwrap().method, KeyMethod::NoEncryption);
    let src2 = "#EXTM3U\n#EXT-X-KEY:METHOD=SAMPLE-AES,URI=\"k\"\nseg.ts\n";
    let pl2 = parse_media_playlist(src2).unwrap();
    assert_eq!(pl2.segments[0].key.as_ref().unwrap().method, KeyMethod::SampleAes);
}

fn key(method: KeyMethod, uri: &str, keyformat: Option<&str>) -> Key {
    Key {
        method,
        uri: Some(uri.to_string()),
        iv: None,
        keyformat: keyformat.map(|s| s.to_string()),
    }
}

fn segment(uri: &str, key: Option<Key>) -> MediaSegment {
    MediaSegment { uri: uri.to_string(), key }
}

#[test]
fn key_declared_at_zero_stays_active_through_segments_without_keys() {
    let pl = MediaPlaylist {
        media_sequence: 0,
        segments: vec![
            segment("s0.ts", Some(key(KeyMethod::Aes128, "k0", Some("identity")))),
            segment("s1.ts", None),
            segment("s2.ts", None),
            segment("s3.ts", None),
            segment("s4.ts", None),
        ],
    };
    let mut active: Option<Key> = None;
    for i in 0..5 {
        active = pl.refresh_key(i, active.as_ref());
        let k = active.as_ref().expect("a key should be active");
        assert_eq!(k.uri.as_deref(), Some("k0"));
        assert_eq!(k.method, KeyMethod::Aes128);
    }
}

#[test]
fn redeclaring_the_same_keyformat_keeps_the_previous_key() {
    let pl = MediaPlaylist {
        media_sequence: 0,
        segments: vec![
            segment("s0.ts", Some(key(KeyMethod::Aes128, "k0", Some("identity")))),
            segment("s1.ts", Some(key(KeyMethod::Aes128, "k1", Some("identity")))),
        ],
    };
    let k0 = pl.refresh_key(0, None);
    let k1 = pl.refresh_key(1, k0.as_ref());
    assert_eq!(k1.unwrap().uri.as_deref(), Some("k0"));
}

#[test]
fn a_differently_formatted_key_becomes_active() {
    let pl = MediaPlaylist {
        media_sequence: 0,
        segments: vec![
            segment("s0.ts", Some(key(KeyMethod::Aes128, "k0", Some("identity")))),
            segment("s1.ts", Some(key(KeyMethod::Aes128, "k1", Some("other")))),
        ],
    };
    let k0 = pl.refresh_key(0, None);
    let k1 = pl.refresh_key(1, k0.as_ref());
    assert_eq!(k1.unwrap().uri.as_deref(), Some("k1"));
}

#[test]
fn an_absent_keyformat_counts_as_identity() {
    let pl = MediaPlaylist {
        media_sequence: 0,
        segments: vec![
            segment("s0.ts", Some(key(KeyMethod::Aes128, "k0", None))),
            segment("s1.ts", Some(key(KeyMethod::Aes128, "k1", Some("identity")))),
        ],
    };
    let k0 = pl.refresh_key(0, None);
    // same effective format, so the earlier key persists
    let k1 = pl.refresh_key(1, k0.as_ref());
    assert_eq!(k1.unwrap().uri.as_deref(), Some("k0"));
}
