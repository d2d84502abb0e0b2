use aes::cipher::block_padding::Pkcs7;
use aes::cipher::{BlockModeEncrypt, KeyIvInit};
use pku3b::course::CourseMeta;
use pku3b::crypto::{decrypt_segment_data, parse_iv, u128_to_be_bytes, MediaError};
use pku3b::media::{CourseVideo, CourseVideoHandle, CourseVideoMeta};
use pku3b::playlist::{Key, KeyMethod, MediaPlaylist, MediaSegment};

fn aes_key() -> Vec<u8> {
    vec![0x42u8; 16]
}

fn encrypt(key: &[u8], iv: &[u8], plaintext: &[u8]) -> Vec<u8> {
    cbc::Encryptor::<aes::Aes128>::new_from_slices(key, iv)
        .unwrap()
        .encrypt_padded_vec::<Pkcs7>(plaintext)
}

fn aes128_key_decl(iv: Option<&str>) -> Key {
    Key {
        method: KeyMethod::Aes128,
        uri: Some("key.bin".to_string()),
        iv: iv.map(|s| s.to_string()),
        keyformat: Some("identity".to_string()),
    }
}

#[test]
fn parse_iv_accepts_prefixed_hex_and_rejects_the_rest() {
    assert_eq!(parse_iv("0x10"), Some(16));
    assert_eq!(parse_iv("0X0a"), Some(10));
    assert_eq!(parse_iv("0xFF"), Some(255));
    assert_eq!(parse_iv("0xffffffffffffffffffffffffffffffff"), Some(u128::MAX));
    assert_eq!(parse_iv("0x100000000000000000000000000000000"), None);
    assert_eq!(parse_iv("10"), None);
    assert_eq!(parse_iv("0x"), None);
    assert_eq!(parse_iv("0xzz"), None);
    assert_eq!(parse_iv(""), None);
}

#[test]
fn iv_fallback_is_big_endian_media_sequence_plus_index() {
    // media_sequence 100, index 3: the IV is the 128-bit big-endian 103
    let mut expected = vec![0u8; 16];
    expected[15] = 103;
    assert_eq!(u128_to_be_bytes(100 + 3), expected);
    assert_eq!(u128_to_be_bytes(0), vec![0u8; 16]);
    assert_eq!(u128_to_be_bytes(0x0102), {
        let mut v = vec![0u8; 16];
        v[14] = 1;
        v[15] = 2;
        v
    });
}

#[test]
fn iv_fallback_decrypts_a_segment_encrypted_under_sequence_103() {
    // encrypt under the big-endian IV for sequence number 103, then let the
    // pipeline derive the same IV from media_sequence 100 and index 3
    let plaintext = b"the fallback iv must be used here".to_vec();
    let iv = u128_to_be_bytes(103);
    let ct = encrypt(&aes_key(), &iv, &plaintext);
    let video = CourseVideo {
        course: course_meta(),
        meta: video_meta(),
        pl_url: "https://media.example/path/index.m3u8".to_string(),
        pl_raw: vec![],
        pl: MediaPlaylist {
            media_sequence: 100,
            segments: (0..4)
                .map(|i| MediaSegment { uri: format!("s{}.ts", i), key: None })
                .collect(),
        },
    };
    let key = aes128_key_decl(None);
    let out = video.get_segment_data(3, Some(&key), &aes_key(), ct).unwrap();
    assert_eq!(out, plaintext);
}

#[test]
fn aes_round_trip_with_explicit_hex_iv() {
    let plaintext = b"hello world! this is my plaintext.".to_vec();
    let iv_bytes = vec![0x24u8; 16];
    let ct = encrypt(&aes_key(), &iv_bytes, &plaintext);
    let key = aes128_key_decl(Some("0x24242424242424242424242424242424"));
    let out = decrypt_segment_data(Some(&key), &aes_key(), ct, 0).unwrap();
    assert_eq!(out, plaintext);
}

#[test]
fn known_ciphertext_decrypts_byte_for_byte() {
    // the AES-128-CBC/PKCS7 example vector of the block-mode crate:
    // key 0x42*16, iv 0x24*16
    let ct_hex = "c7fe247ef97b21f07cbdd26cb5d346bfd27867cb00d9486723e159978fb9a5f914cfb228a710de4171e396e7b6cf859e";
    let mut ct = Vec::new();
    let bytes: Vec<u8> = ct_hex.as_bytes().to_vec();
    let mut i = 0;
    while i < bytes.len() {
        let hi = (bytes[i] as char).to_digit(16).unwrap() as u8;
        let lo = (bytes[i + 1] as char).to_digit(16).unwrap() as u8;
        ct.push(hi * 16 + lo);
        i += 2;
    }
    let key = aes128_key_decl(Some("0x24242424242424242424242424242424"));
    let out = decrypt_segment_data(Some(&key), &aes_key(), ct, 0).unwrap();
    assert_eq!(out, b"hello world! this is my plaintext.".to_vec());
}

#[test]
fn plaintext_segment_passes_through_unchanged() {
    let data = vec![1u8, 2, 3, 4];
    let out = decrypt_segment_data(None, &Vec::new(), data.clone(), 7).unwrap();
    assert_eq!(out, data);
}

#[test]
fn decrypt_error_variants() {
    let data = vec![0u8; 16];
    let mut key = aes128_key_decl(None);
    key.method = KeyMethod::SampleAes;
    assert_eq!(
        decrypt_segment_data(Some(&key), &aes_key(), data.clone(), 0).unwrap_err(),
        MediaError::UnsupportedKeyMethod
    );
    let mut key = aes128_key_decl(None);
    key.uri = None;
    assert_eq!(
        decrypt_segment_data(Some(&key), &aes_key(), data.clone(), 0).unwrap_err(),
        MediaError::MissingKeyUri
    );
    let key = aes128_key_decl(Some("not-hex"));
    assert_eq!(
        decrypt_segment_data(Some(&key), &aes_key(), data.clone(), 0).unwrap_err(),
        MediaError::BadIv
    );
    let key = aes128_key_decl(None);
    let short = vec![0u8; 15];
    assert_eq!(
        decrypt_segment_data(Some(&key), &short, data.clone(), 0).unwrap_err(),
        MediaError::KeyLength
    );
    // 17 bytes of ciphertext cannot be whole blocks
    let key = aes128_key_decl(None);
    assert_eq!(
        decrypt_segment_data(Some(&key), &aes_key(), vec![0u8; 17], 0).unwrap_err(),
        MediaError::Decrypt
    );
}

fn course_meta() -> CourseMeta {
    CourseMeta {
        id: "_101_1".to_string(),
        long_title: "2024100001: Operating Systems (24-25)".to_string(),
        is_current: true,
    }
}

fn video_meta() -> CourseVideoMeta {
    CourseVideoMeta {
        title: "Lecture 1".to_string(),
        time: "2024-09-01".to_string(),
        url: "https://live.example/player.html?course_id=_101_1&sub_id=abc123&app_id=4".to_string(),
    }
}

#[test]
fn video_handle_id_joins_course_and_sub_id() {
    let h = CourseVideoHandle { meta: video_meta(), course: course_meta() };
    assert_eq!(h.id(), "_101_1::abc123");
    let mut m = video_meta();
    m.url = "https://live.example/player.html".to_string();
    let h2 = CourseVideoHandle { meta: m, course: course_meta() };
    assert_eq!(h2.id(), "_101_1::");
}

#[test]
fn video_from_fetched_parses_and_resolves_segment_urls() {
    let src = "#EXTM3U\n#EXT-X-MEDIA-SEQUENCE:0\nseg0.ts\nsub/seg1.ts\n";
    let video = CourseVideo::from_fetched(
        course_meta(),
        video_meta(),
        "https://media.example/path/index.m3u8".to_string(),
        src.as_bytes().to_vec(),
        src,
    )
    .unwrap();
    assert_eq!(video.len_segments(), 2);
    assert_eq!(video.m3u8_raw(), src.as_bytes().to_vec());
    assert_eq!(video.segment_url(0).unwrap(), "https://media.example/path/seg0.ts");
    assert_eq!(video.segment_url(1).unwrap(), "https://media.example/path/sub/seg1.ts");
    assert_eq!(video.course_name(), "Operating Systems");
}

#[test]
fn master_source_is_a_fatal_error_for_the_video() {
    let src = "#EXTM3U\n#EXT-X-STREAM-INF:BANDWIDTH=1\nlow.m3u8\n";
    let err = CourseVideo::from_fetched(
        course_meta(),
        video_meta(),
        "https://media.example/index.m3u8".to_string(),
        src.as_bytes().to_vec(),
        src,
    )
    .unwrap_err();
    assert_eq!(err, pku3b::playlist::PlaylistError::UnsupportedPlaylist);
}
