use aes::Aes128;
use cbc::cipher::block_padding::Pkcs7;
use cbc::cipher::{BlockEncryptMut, KeyIvInit};
use luedd::attributes::parse_attributes;
use luedd::crypto::{decrypt_segment, DecryptError};
use luedd::dash::{parse, DashParseError, Representation};
use luedd::xml::is_shallow;
use luedd::disguise::{extract_ts_payload, find_hidden_ts_offset_default, PACKET_LEN, SYNC_BYTE};
use luedd::hls::{parse_master_playlist, parse_media_playlist, HlsParseError, HlsPlaylistContainer};
use luedd::iv::parse_iv_attr;
use luedd::quality::{choose_hls, dash_qualities, dash_variant_key, hls_qualities, hls_variant_key};
use luedd::streams::{key_url, plan_dash, plan_hls, read_master, read_media, segment_file, segment_payload, HlsPlan};
use luedd::net::RequestOptions;
use luedd::strmap::StrMap;
use luedd::template::expand_template;
use luedd::xs_duration::parse_xs_duration;

type Aes128CbcEnc = cbc::Encryptor<Aes128>;

fn make_ts_stream(num_packets: usize) -> Vec<u8> {
    let mut buf = Vec::with_capacity(num_packets * PACKET_LEN);
    for i in 0..num_packets {
        buf.push(SYNC_BYTE);
        for j in 1..PACKET_LEN {
            buf.push(((i * 7 + j) % 251) as u8);
        }
    }
    buf
}

#[test]
fn detects_plain_ts_at_offset_zero() {
    let ts = make_ts_stream(10);
    assert_eq!(find_hidden_ts_offset_default(&ts), Some(0));
}

#[test]
fn detects_ts_hidden_behind_fake_png_header() {
    let mut fake_png = vec![0x89, 0x50, 0x4E, 0x47, 0x0D, 0x0A, 0x1A, 0x0A];
    fake_png.extend_from_slice(&[0x00; 24]);
    let ts = make_ts_stream(10);
    let mut disguised = fake_png.clone();
    disguised.extend_from_slice(&ts);

    let offset = find_hidden_ts_offset_default(&disguised).expect("should find offset");
    assert_eq!(offset, fake_png.len());
    assert_eq!(&disguised[offset..], &ts[..]);
}

#[test]
fn detects_ts_hidden_behind_fake_woff2_header() {
    let fake_woff2 = vec![0x77, 0x4F, 0x46, 0x32, 0x00, 0x01, 0x00, 0x00];
    let ts = make_ts_stream(9);
    let mut disguised = fake_woff2.clone();
    disguised.extend_from_slice(&ts);

    let offset = find_hidden_ts_offset_default(&disguised).unwrap();
    assert_eq!(offset, fake_woff2.len());
}

#[test]
fn detects_ts_hidden_behind_filler_text() {
    let filler = b"TOKEN=abc123&session=xyz\n".to_vec();
    let ts = make_ts_stream(8);
    let mut disguised = filler.clone();
    disguised.extend_from_slice(&ts);

    let offset = find_hidden_ts_offset_default(&disguised).unwrap();
    assert_eq!(offset, filler.len());
}

#[test]
fn does_not_false_positive_on_random_noise_with_stray_sync_bytes() {
    let mut noise = Vec::new();
    for i in 0..4096u32 {
        let v = ((i.wrapping_mul(2654435761)) >> 16) as u8;
        noise.push(if i % 53 == 0 { SYNC_BYTE } else { v });
    }
    assert_eq!(find_hidden_ts_offset_default(&noise), None);
}

#[test]
fn returns_none_for_buffer_smaller_than_required_streak() {
    let short = vec![SYNC_BYTE; 100];
    assert_eq!(find_hidden_ts_offset_default(&short), None);
}

#[test]
fn extract_ts_payload_strips_disguise() {
    let fake_jpeg = vec![0xFF, 0xD8, 0xFF, 0xE0, 0x00, 0x10];
    let ts = make_ts_stream(8);
    let mut disguised = fake_jpeg.clone();
    disguised.extend_from_slice(&ts);

    assert_eq!(extract_ts_payload(&disguised), &ts[..]);
}

#[test]
fn extract_ts_payload_passthrough_when_no_disguise_detected() {
    let plain = vec![1, 2, 3, 4, 5];
    assert_eq!(extract_ts_payload(&plain), &plain[..]);
}

#[test]
fn parses_hours_minutes_seconds() {
    assert_eq!(parse_xs_duration("PT1H2M3S").unwrap(), (3600 + 120 + 3) * 1000);
}

#[test]
fn parses_fractional_seconds() {
    assert_eq!(parse_xs_duration("PT6.5S").unwrap(), 6500);
}

#[test]
fn parses_zero_duration() {
    assert_eq!(parse_xs_duration("PT0S").unwrap(), 0);
}

#[test]
fn parses_days() {
    assert_eq!(parse_xs_duration("P1D").unwrap(), 86_400_000);
}

#[test]
fn malformed_durations_are_refused() {
    assert!(parse_xs_duration("six seconds").is_err());
    assert!(parse_xs_duration("").is_err());
}

fn encrypt(plaintext: &[u8], key: [u8; 16], iv: [u8; 16]) -> Vec<u8> {
    let mut buf = plaintext.to_vec();
    buf.resize(plaintext.len() + 16, 0);
    let ct_len = Aes128CbcEnc::new(&key.into(), &iv.into())
        .encrypt_padded_mut::<Pkcs7>(&mut buf, plaintext.len())
        .unwrap()
        .len();
    buf.truncate(ct_len);
    buf
}

#[test]
fn round_trips_encrypt_then_decrypt() {
    let key = [0x42u8; 16];
    let iv = [0x24u8; 16];
    let plaintext = b"this is a fake TS segment payload, more than one block long!!".to_vec();
    let buf = encrypt(&plaintext, key, iv);
    let decrypted = decrypt_segment(&buf, &key, &iv).unwrap();
    assert_eq!(decrypted, plaintext);
}

#[test]
fn rejects_bad_key_length() {
    let err = decrypt_segment(&[0u8; 32], &[0u8; 10], &[0u8; 16]).unwrap_err();
    assert!(matches!(err, DecryptError::BadKeyLength(10)));
}

#[test]
fn rejects_bad_padding() {
    let err = decrypt_segment(&[0u8; 15], &[0u8; 16], &[0u8; 16]).unwrap_err();
    assert!(matches!(err, DecryptError::BadPadding));
}

const URL: &str = "https://cdn.example/videos/manifest.mpd";

#[test]
fn rejects_dynamic_manifest() {
    let xml = r#"<MPD type="dynamic"><Period></Period></MPD>"#;
    let err = parse(xml, URL).unwrap_err();
    assert!(matches!(err, DashParseError::DynamicManifestUnsupported));
}

#[test]
fn rejects_encrypted_manifest() {
    let xml = r#"<MPD><Period><AdaptationSet><ContentProtection/></AdaptationSet></Period></MPD>"#;
    let err = parse(xml, URL).unwrap_err();
    assert!(matches!(err, DashParseError::EncryptedManifestUnsupported));
}

#[test]
fn manifests_nest_only_so_deep() {
    let nested = |n: usize| format!("{}{}", "<a b='>'>".repeat(n), "</a>".repeat(n));
    assert!(is_shallow(&nested(256)));
    assert!(!is_shallow(&nested(257)));
    assert!(is_shallow(&"<a><!-- <b><b> --><b/></a>".repeat(300)));
    assert!(!is_shallow(&"<a><!-- </a> -->".repeat(300)));
    assert!(!is_shallow(&"<a><![CDATA[</a>]]>".repeat(300)));
    assert!(!is_shallow(&"<a><?x </a> ?>".repeat(300)));
    assert!(!is_shallow(&"<a b='</a>'>".repeat(300)));
    let fine = format!("<MPD>{}</MPD>", nested(255));
    assert!(matches!(parse(&fine, URL).unwrap_err(), DashParseError::NoPeriods));
    let live = format!("<MPD type='dynamic'>{}</MPD>", nested(255));
    assert!(matches!(parse(&live, URL).unwrap_err(), DashParseError::DynamicManifestUnsupported));
}

#[test]
fn rejects_what_is_no_manifest() {
    assert!(matches!(parse("<MPD", URL).unwrap_err(), DashParseError::Xml(_)));
    assert!(matches!(parse("<a></a>", URL).unwrap_err(), DashParseError::MissingMpdRoot(_)));
    assert!(matches!(parse("<MPD></MPD>", URL).unwrap_err(), DashParseError::NoPeriods));
}

const SIMPLE: &str = r#"
    <MPD mediaPresentationDuration="PT10S">
      <Period>
        <AdaptationSet mimeType="video/mp4" width="1920" height="1080">
          <Representation id="v1" bandwidth="5000000" codecs="avc1">
            <SegmentTemplate timescale="1" duration="2" startNumber="1"
                initialization="init-$RepresentationID$.m4s"
                media="chunk-$RepresentationID$-$Number%03d$.m4s"/>
          </Representation>
        </AdaptationSet>
        <AdaptationSet mimeType="audio/mp4">
          <Representation id="a1" bandwidth="128000" codecs="mp4a">
            <SegmentTemplate timescale="1" duration="2" startNumber="1"
                initialization="audio-init.m4s"
                media="audio-$Number%03d$.m4s"/>
          </Representation>
        </AdaptationSet>
      </Period>
    </MPD>"#;

#[test]
fn parses_simple_addressing_video_and_audio() {
    let periods = parse(SIMPLE, URL).unwrap();
    assert_eq!(periods.len(), 1);
    assert_eq!(periods[0].len(), 1);
    let (video, audio) = &periods[0][0];
    let video = video.as_ref().unwrap();
    let audio = audio.as_ref().unwrap();

    assert_eq!(video.width, 1920);
    assert_eq!(video.bandwidth, 5_000_000);
    assert_eq!(video.segments.len(), 6);
    assert_eq!(video.segments[0].as_str(), "https://cdn.example/videos/init-v1.m4s");
    assert_eq!(video.segments[1].as_str(), "https://cdn.example/videos/chunk-v1-001.m4s");
    assert_eq!(video.segments[5].as_str(), "https://cdn.example/videos/chunk-v1-005.m4s");

    assert_eq!(audio.mime_type, "audio/mp4");
    assert_eq!(audio.segments.len(), 6);
}

#[test]
fn parses_explicit_addressing_with_repeat() {
    let xml = r#"
    <MPD mediaPresentationDuration="PT8S">
      <Period>
        <AdaptationSet mimeType="video/mp4">
          <Representation id="v1" bandwidth="1000000">
            <SegmentTemplate startNumber="1" media="seg-$Number$.m4s">
              <SegmentTimeline>
                <S t="0" d="2" r="3"/>
              </SegmentTimeline>
            </SegmentTemplate>
          </Representation>
        </AdaptationSet>
      </Period>
    </MPD>"#;

    let periods = parse(xml, URL).unwrap();
    let video = periods[0][0].0.as_ref().unwrap();
    assert_eq!(video.segments.len(), 4);
    assert_eq!(video.segments[0].as_str(), "https://cdn.example/videos/seg-1.m4s");
    assert_eq!(video.segments[3].as_str(), "https://cdn.example/videos/seg-4.m4s");
}

#[test]
fn skips_trick_mode_adaptation_set() {
    let xml = r#"
    <MPD mediaPresentationDuration="PT4S">
      <Period>
        <AdaptationSet mimeType="video/mp4">
          <EssentialProperty schemeIdUri="http://dashif.org/guidelines/trickmode"/>
          <Representation id="v1" bandwidth="1000000">
            <SegmentTemplate startNumber="1" timescale="1" duration="2" media="seg-$Number$.m4s"/>
          </Representation>
        </AdaptationSet>
      </Period>
    </MPD>"#;

    let periods = parse(xml, URL).unwrap();
    assert!(periods[0].is_empty());
}

#[test]
fn expands_bandwidth_and_representation_id_tokens() {
    let resolved = expand_template("$RepresentationID$/$Bandwidth$/$Number%04d$.mp4", 7, 0, "500000", "v9");
    assert_eq!(resolved, "v9/500000/0007.mp4");
}

#[test]
fn preserves_literal_dollar_signs() {
    let resolved = expand_template("price$$$Number$", 3, 0, "1", "v1");
    assert_eq!(resolved, "price$3");
}

#[test]
fn manifests_offer_their_pairings() {
    let options = dash_qualities(SIMPLE, URL).unwrap();
    assert_eq!(options.len(), 1);
    assert_eq!(options[0].bandwidth, 5_128_000);
    assert_eq!(options[0].resolution, Some((1920, 1080)));
    assert_eq!(options[0].variant_key, "1920x1080-5128000");
    assert!(plan_dash(SIMPLE, URL, Some("1920x1080-5128000")).is_ok());
    assert!(plan_dash("<MPD></MPD>", URL, None).is_err());
}

#[test]
fn parses_simple_attributes() {
    let attrs = parse_attributes(r#"BANDWIDTH=1280000,RESOLUTION=1920x1080"#);
    assert_eq!(attrs.get("BANDWIDTH").unwrap(), "1280000");
    assert_eq!(attrs.get("RESOLUTION").unwrap(), "1920x1080");
}

#[test]
fn respects_quoted_commas() {
    let attrs = parse_attributes(r#"NAME="720p, HQ",GROUP-ID="aud1""#);
    assert_eq!(attrs.get("NAME").unwrap(), "720p, HQ");
    assert_eq!(attrs.get("GROUP-ID").unwrap(), "aud1");
}

const BASE: &str = "https://cdn.example/videos/stream.m3u8";

#[test]
fn rejects_missing_signature() {
    let lines = ["#EXTINF:6.0,", "seg1.ts"];
    let err = parse_media_playlist(&lines, BASE).unwrap_err();
    assert!(matches!(err, HlsParseError::MissingSignature));
}

#[test]
fn parses_simple_media_playlist() {
    let text = "#EXTM3U\n#EXTINF:6.000000,\nseg_0001.ts\n#EXTINF:6.000000,\nseg_0002.ts\n";
    let lines: Vec<&str> = text.lines().collect();
    let playlist = parse_media_playlist(&lines, BASE).unwrap();
    assert_eq!(playlist.media_segments.len(), 2);
    let total_duration: f64 = playlist.media_segments.iter().map(|s| s.duration.parse::<f64>().unwrap()).sum();
    assert_eq!(total_duration, 12.0);
    assert_eq!(
        playlist.media_segments[0].url.as_str(),
        "https://cdn.example/videos/seg_0001.ts"
    );
    assert!(!playlist.is_encrypted);
}

#[test]
fn parses_disguised_segment_extensions_transparently() {
    // The extension of a segment does not matter, only its URI.
    let text = "#EXTM3U\n#EXTINF:6.0,\nseg_0001.png\n#EXTINF:6.0,\nseg_0002.woff2\n#EXTINF:6.0,\nseg_0003.txt\n";
    let lines: Vec<&str> = text.lines().collect();
    let playlist = parse_media_playlist(&lines, BASE).unwrap();
    assert_eq!(playlist.media_segments.len(), 3);
}

#[test]
fn parses_byte_range_with_implicit_offset() {
    let text = "#EXTM3U\n#EXTINF:6.0,\n#EXT-X-BYTERANGE:1000@0\nseg.ts\n#EXTINF:6.0,\n#EXT-X-BYTERANGE:2000\nseg.ts\n";
    let lines: Vec<&str> = text.lines().collect();
    let playlist = parse_media_playlist(&lines, BASE).unwrap();
    assert!(playlist.has_byte_range);
    assert_eq!(playlist.media_segments[0].byte_range, Some((0, 1000)));
    assert_eq!(playlist.media_segments[1].byte_range, Some((1000, 2000)));
}

#[test]
fn parses_aes128_key_with_explicit_iv() {
    let text = "#EXTM3U\n#EXT-X-KEY:METHOD=AES-128,URI=\"key.bin\",IV=0x0102030405060708090a0b0c0d0e0f10\n#EXTINF:6.0,\nseg.ts\n";
    let lines: Vec<&str> = text.lines().collect();
    let playlist = parse_media_playlist(&lines, BASE).unwrap();
    assert!(playlist.is_encrypted);
    let seg = &playlist.media_segments[0];
    assert_eq!(seg.key_url.as_ref().unwrap().as_str(), "https://cdn.example/videos/key.bin");
    assert_eq!(
        seg.iv.unwrap(),
        [0x01, 0x02, 0x03, 0x04, 0x05, 0x06, 0x07, 0x08, 0x09, 0x0a, 0x0b, 0x0c, 0x0d, 0x0e, 0x0f, 0x10]
    );
}

#[test]
fn derives_iv_from_media_sequence_when_absent_zero_padded() {
    let text = "#EXTM3U\n#EXT-X-MEDIA-SEQUENCE:5\n#EXT-X-KEY:METHOD=AES-128,URI=\"key.bin\"\n#EXTINF:6.0,\nseg.ts\n";
    let lines: Vec<&str> = text.lines().collect();
    let playlist = parse_media_playlist(&lines, BASE).unwrap();
    let iv = playlist.media_segments[0].iv.unwrap();
    // Big-endian 5, filled up with zeros.
    let mut expected = [0u8; 16];
    expected[15] = 5;
    assert_eq!(iv, expected);
}

#[test]
fn rejects_sample_aes() {
    let text = "#EXTM3U\n#EXT-X-KEY:METHOD=SAMPLE-AES,URI=\"key.bin\"\n#EXTINF:6.0,\nseg.ts\n";
    let lines: Vec<&str> = text.lines().collect();
    let err = parse_media_playlist(&lines, BASE).unwrap_err();
    assert!(matches!(err, HlsParseError::UnsupportedKeyMethod(_)));
}

#[test]
fn rejects_unreadable_addresses_and_tags() {
    let text = "#EXTM3U\n#EXTINF:6.0,\nseg.ts\n";
    let lines: Vec<&str> = text.lines().collect();
    assert!(matches!(parse_media_playlist(&lines, "no url").unwrap_err(), HlsParseError::InvalidUrl(_)));
    let text = "#EXTM3U\n#EXTINF:6.0,\n#EXT-X-BYTERANGE:many\nseg.ts\n";
    let lines: Vec<&str> = text.lines().collect();
    assert!(matches!(parse_media_playlist(&lines, BASE).unwrap_err(), HlsParseError::Malformed { .. }));
}

const MASTER: &str = "#EXTM3U\n#EXT-X-STREAM-INF:BANDWIDTH=1000000,RESOLUTION=1280x720\nlow.m3u8\n#EXT-X-STREAM-INF:BANDWIDTH=3000000,RESOLUTION=1920x1080\nhigh.m3u8\n";

#[test]
fn parses_master_playlist_with_muxed_variants() {
    let text = "#EXTM3U\n#EXT-X-STREAM-INF:BANDWIDTH=1000000,RESOLUTION=1280x720\nlow.m3u8\n#EXT-X-STREAM-INF:BANDWIDTH=3000000,RESOLUTION=1920x1080\nhigh.m3u8\n";
    let lines: Vec<&str> = text.lines().collect();
    let containers = parse_master_playlist(&lines, BASE).unwrap();
    assert_eq!(containers.len(), 2);
    assert_eq!(containers[0].quality(), "1280x720");
    assert!(containers[0].audio_playlist.is_none());
}

#[test]
fn parses_master_playlist_with_demuxed_audio_group() {
    let text = "#EXTM3U\n#EXT-X-MEDIA:TYPE=AUDIO,GROUP-ID=\"aud1\",URI=\"audio.m3u8\",LANGUAGE=\"en\"\n#EXT-X-STREAM-INF:BANDWIDTH=3000000,AUDIO=\"aud1\"\nvideo.m3u8\n";
    let lines: Vec<&str> = text.lines().collect();
    let containers = parse_master_playlist(&lines, BASE).unwrap();
    assert_eq!(containers.len(), 1);
    assert_eq!(
        containers[0].video_playlist.as_ref().unwrap().as_str(),
        "https://cdn.example/videos/video.m3u8"
    );
    assert_eq!(
        containers[0].audio_playlist.as_ref().unwrap().as_str(),
        "https://cdn.example/videos/audio.m3u8"
    );
}

#[test]
fn the_wished_variant_is_taken_and_else_the_best() {
    let options = hls_qualities(MASTER, BASE).unwrap();
    assert_eq!(options.len(), 2);
    assert_eq!(options[1].resolution, Some((1920, 1080)));
    let containers = read_master(MASTER, BASE).unwrap();
    assert_eq!(choose_hls(&containers, Some("1000000")), Some(0));
    assert_eq!(choose_hls(&containers, None), Some(1));
    assert_eq!(choose_hls(&vec![], None), None);
}

#[test]
fn plans_follow_the_kind_of_playlist() {
    let opts = RequestOptions::default();
    match plan_hls(MASTER, BASE, Some("1000000"), &opts) {
        Ok(HlsPlan::Variant { video, audio }) => {
            assert_eq!(video, "https://cdn.example/videos/low.m3u8");
            assert_eq!(audio, None);
        },
        other => panic!("unexpected {other:?}"),
    }
    assert!(plan_hls("nothing", BASE, None, &opts).is_err());
}

#[test]
fn encrypted_segments_are_opened() {
    let text = "#EXTM3U\n#EXT-X-KEY:METHOD=AES-128,URI=\"key.bin\",IV=0x0102030405060708090a0b0c0d0e0f10\n#EXTINF:6.0,\nseg.ts\n";
    let playlist = read_media(text, BASE).unwrap();
    let at = key_url(&playlist).unwrap();
    assert_eq!(at, "https://cdn.example/videos/key.bin");
    let plain = make_ts_stream(8);
    let key = [7u8; 16];
    let raw = encrypt(&plain, key, playlist.media_segments[0].iv.unwrap());
    let got = segment_payload(&raw, &playlist.media_segments[0], Some((at.as_str(), &key[..]))).unwrap();
    assert_eq!(got, plain);
    assert!(segment_payload(&raw, &playlist.media_segments[0], Some((at.as_str(), &key[..3]))).is_err());
    assert!(segment_payload(&raw, &playlist.media_segments[0], None).is_err());
}

#[test]
fn plain_segments_lose_their_disguise() {
    let playlist = read_media("#EXTM3U\n#EXTINF:6.0,\nseg.png\n", BASE).unwrap();
    let ts = make_ts_stream(8);
    let mut raw = vec![0x89, 0x50, 0x4E, 0x47];
    raw.extend_from_slice(&ts);
    assert_eq!(segment_payload(&raw, &playlist.media_segments[0], None).unwrap(), ts);
}

#[test]
fn segments_keep_their_order_by_name() {
    assert_eq!(segment_file("cache", 7), "cache/00000007.seg");
}

#[test]
fn explicit_vectors_have_sixteen_bytes() {
    assert!(parse_iv_attr("0x0102030405060708090a0b0c0d0e0f10").is_some());
    assert!(parse_iv_attr("0xzz").is_none());
}

fn hls_container(bandwidth: &str, resolution: Option<&str>) -> HlsPlaylistContainer {
    let mut attributes = StrMap::new();
    attributes.insert("BANDWIDTH".to_string(), bandwidth.to_string());
    if let Some(res) = resolution {
        attributes.insert("RESOLUTION".to_string(), res.to_string());
    }
    HlsPlaylistContainer {
        video_playlist: Some("https://cdn.example/video.m3u8".to_string()),
        audio_playlist: None,
        attributes,
    }
}

fn dash_representation(width: i32, height: i32, bandwidth: i64) -> Representation {
    Representation { segments: Vec::new(), width, height, codec: None, bandwidth, duration_ms: 0, mime_type: String::new(), language: None }
}

#[test]
fn hls_variant_key_is_the_bandwidth_attribute_verbatim() {
    let container = hls_container("4200000", Some("1920x1080"));
    assert_eq!(hls_variant_key(&container), "4200000");
}

#[test]
fn hls_variant_key_is_stable_across_two_separate_parses() {
    // The manifest is read once to offer the variants and again to download one.
    let a = hls_container("2100000", Some("1280x720"));
    let b = hls_container("2100000", Some("1280x720"));
    assert_eq!(hls_variant_key(&a), hls_variant_key(&b));
}

#[test]
fn dash_variant_key_uses_resolution_and_bandwidth_when_video_has_real_dimensions() {
    let video = dash_representation(1920, 1080, 4_000_000);
    let audio = dash_representation(0, 0, 128_000);
    assert_eq!(dash_variant_key(Some(&video), Some(&audio)), "1920x1080-4128000");
}

#[test]
fn dash_variant_key_falls_back_to_bandwidth_only_for_audio_only_pairing() {
    let audio = dash_representation(0, 0, 128_000);
    assert_eq!(dash_variant_key(None, Some(&audio)), "128000");
}

#[test]
fn dash_variant_key_falls_back_to_bandwidth_only_when_video_has_no_real_dimensions() {
    let video = dash_representation(0, 0, 500_000);
    assert_eq!(dash_variant_key(Some(&video), None), "500000");
}
