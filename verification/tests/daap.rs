use airplay2::daap::dmap::{decode_dmap, DmapDecodeError, DmapEncoder, DmapTag, DmapValue};
use airplay2::daap::metadata::TrackMetadata;

#[derive(Debug, PartialEq)]
enum DmapTestValue {
    String(String),
    Int(i64),
    Container(Vec<(String, DmapTestValue)>),
    Raw(Vec<u8>),
}

/// Decodes DMAP data with knowledge of which tags hold containers,
/// integers and strings.
fn decode_dmap_full(data: &[u8]) -> Result<Vec<(String, DmapTestValue)>, String> {
    let mut result = Vec::new();
    let mut pos = 0;

    while pos < data.len() {
        if pos + 8 > data.len() {
            return Err("Unexpected end of data header".to_string());
        }
        let tag = std::str::from_utf8(&data[pos..pos + 4])
            .map_err(|_| "Invalid tag encoding".to_string())?
            .to_string();
        let len = u32::from_be_bytes([data[pos + 4], data[pos + 5], data[pos + 6], data[pos + 7]])
            as usize;
        pos += 8;
        if pos + len > data.len() {
            return Err("Unexpected end of data body".to_string());
        }
        let value_bytes = &data[pos..pos + len];
        let value = match tag.as_str() {
            "mlcl" | "mlit" | "adbs" => DmapTestValue::Container(decode_dmap_full(value_bytes)?),
            "astn" | "asdn" | "asyr" | "astm" => match len {
                1 => DmapTestValue::Int(i64::from(value_bytes[0])),
                2 => DmapTestValue::Int(i64::from(i16::from_be_bytes([
                    value_bytes[0],
                    value_bytes[1],
                ]))),
                4 => DmapTestValue::Int(i64::from(i32::from_be_bytes([
                    value_bytes[0],
                    value_bytes[1],
                    value_bytes[2],
                    value_bytes[3],
                ]))),
                8 => DmapTestValue::Int(i64::from_be_bytes([
                    value_bytes[0],
                    value_bytes[1],
                    value_bytes[2],
                    value_bytes[3],
                    value_bytes[4],
                    value_bytes[5],
                    value_bytes[6],
                    value_bytes[7],
                ])),
                _ => return Err(format!("Invalid integer length for {tag}: {len}")),
            },
            "minm" | "asar" | "asal" | "asgn" => {
                let s = String::from_utf8(value_bytes.to_vec())
                    .map_err(|_| "Invalid UTF-8 string".to_string())?;
                DmapTestValue::String(s)
            }
            _ => {
                if !value_bytes.is_empty()
                    && value_bytes.iter().all(|&b| b.is_ascii_graphic() || b == b' ')
                {
                    if let Ok(s) = String::from_utf8(value_bytes.to_vec()) {
                        DmapTestValue::String(s)
                    } else {
                        DmapTestValue::Raw(value_bytes.to_vec())
                    }
                } else {
                    DmapTestValue::Raw(value_bytes.to_vec())
                }
            }
        };
        result.push((tag, value));
        pos += len;
    }
    Ok(result)
}

#[test]
fn dmap_test_encode_string() {
    let mut encoder = DmapEncoder::new();
    encoder.string(DmapTag::ItemName, "Test Song");
    let data = encoder.finish();

    assert_eq!(data.len(), 17);
    assert_eq!(&data[0..4], b"minm");
    assert_eq!(u32::from_be_bytes([data[4], data[5], data[6], data[7]]), 9);
    assert_eq!(&data[8..], b"Test Song");

    let decoded = decode_dmap_full(&data).unwrap();
    assert_eq!(decoded.len(), 1);
    assert_eq!(decoded[0].0, "minm");
    assert_eq!(decoded[0].1, DmapTestValue::String("Test Song".to_string()));
}

#[test]
fn dmap_test_encode_integers() {
    let mut encoder = DmapEncoder::new();
    encoder.integer(DmapTag::SongTrackNumber, 5);
    encoder.integer(DmapTag::SongDiscNumber, 300);
    encoder.integer(DmapTag::SongTime, 100_000);
    encoder.integer(DmapTag::SongYear, 5_000_000_000);

    let data = encoder.finish();
    let decoded = decode_dmap_full(&data).unwrap();
    assert_eq!(decoded.len(), 4);
    assert_eq!(decoded[0].0, "astn");
    assert_eq!(decoded[0].1, DmapTestValue::Int(5));
    assert_eq!(decoded[1].0, "asdn");
    assert_eq!(decoded[1].1, DmapTestValue::Int(300));
    assert_eq!(decoded[2].0, "astm");
    assert_eq!(decoded[2].1, DmapTestValue::Int(100_000));
    assert_eq!(decoded[3].0, "asyr");
    assert_eq!(decoded[3].1, DmapTestValue::Int(5_000_000_000));
}

#[test]
fn test_encode_container() {
    let mut encoder = DmapEncoder::new();
    let inner_values = vec![(DmapTag::ItemName, DmapValue::String("Nested Name".to_string()))];
    encoder.encode_tag(DmapTag::ListingItem, &DmapValue::Container(inner_values));

    let data = encoder.finish();
    let decoded = decode_dmap_full(&data).unwrap();
    assert_eq!(decoded.len(), 1);
    assert_eq!(decoded[0].0, "mlit");
    match &decoded[0].1 {
        DmapTestValue::Container(inner) => {
            assert_eq!(inner.len(), 1);
            assert_eq!(inner[0].0, "minm");
            assert_eq!(inner[0].1, DmapTestValue::String("Nested Name".to_string()));
        }
        _ => panic!("Expected container"),
    }
}

#[test]
fn test_encode_raw() {
    let mut encoder = DmapEncoder::new();
    encoder.encode_tag(DmapTag::ItemName, &DmapValue::Raw(b"RawString".to_vec()));
    let data = encoder.finish();
    let decoded = decode_dmap_full(&data).unwrap();
    assert_eq!(decoded[0].1, DmapTestValue::String("RawString".to_string()));
}

#[test]
fn test_complex_structure() {
    let mut encoder = DmapEncoder::new();
    let item_values = vec![
        (DmapTag::ItemName, DmapValue::String("Song A".to_string())),
        (DmapTag::SongTrackNumber, DmapValue::Int(1)),
    ];
    encoder.encode_tag(DmapTag::ListingItem, &DmapValue::Container(item_values));

    let data = encoder.finish();
    let decoded = decode_dmap_full(&data).unwrap();
    assert_eq!(decoded.len(), 1);
    assert_eq!(decoded[0].0, "mlit");
    match &decoded[0].1 {
        DmapTestValue::Container(inner) => {
            assert_eq!(inner.len(), 2);
            assert_eq!(inner[0].0, "minm");
            assert_eq!(inner[0].1, DmapTestValue::String("Song A".to_string()));
            assert_eq!(inner[1].0, "astn");
            assert_eq!(inner[1].1, DmapTestValue::Int(1));
        }
        _ => panic!("Expected container"),
    }
}

#[test]
fn test_encode_decode_roundtrip() {
    let mut encoder = DmapEncoder::new();
    encoder.string(DmapTag::ItemName, "My Track");
    encoder.string(DmapTag::SongArtist, "Artist Name");

    let data = encoder.finish();
    let decoded = decode_dmap(&data).unwrap();
    assert_eq!(decoded.len(), 2);
    assert_eq!(decoded[0].0, "minm");
    assert_eq!(decoded[0].1, "My Track");
    assert_eq!(decoded[1].0, "asar");
    assert_eq!(decoded[1].1, "Artist Name");
}

#[test]
fn dmap_integer_widths() {
    let mut encoder = DmapEncoder::new();
    encoder.integer(DmapTag::SongTrackNumber, -1);
    encoder.integer(DmapTag::SongTime, -40_000);
    let data = encoder.finish();
    // -1 takes two bytes, -40000 four.
    assert_eq!(&data[..10], &[b'a', b's', b't', b'n', 0, 0, 0, 2, 0xff, 0xff]);
    assert_eq!(&data[10..18], &[b'a', b's', b't', b'm', 0, 0, 0, 4]);
    assert_eq!(i32::from_be_bytes([data[18], data[19], data[20], data[21]]), -40_000);
}

#[test]
fn dmap_decode_errors() {
    assert_eq!(decode_dmap(&[b'm', b'i', b'n', b'm', 0, 0, 0, 5, b'a']), Err(DmapDecodeError::UnexpectedEnd));
    assert_eq!(decode_dmap(&[0xff, 0xfe, 0xfd, 0xfc, 0, 0, 0, 0]), Err(DmapDecodeError::InvalidTag));
    assert_eq!(decode_dmap(&[]), Ok(vec![]));
}

#[test]
fn dmap_tag_codes() {
    assert_eq!(&DmapTag::ItemName.code(), b"minm");
    assert_eq!(&DmapTag::DatabaseSongs.code(), b"adbs");
    assert_eq!(&DmapTag::Listing.code(), b"mlcl");
}

#[test]
fn test_metadata_builder() {
    let metadata = TrackMetadata::builder()
        .title("Song Title")
        .artist("The Artist")
        .album("Best Album")
        .track_number(1)
        .build();

    assert_eq!(metadata.title.as_deref(), Some("Song Title"));
    assert_eq!(metadata.artist.as_deref(), Some("The Artist"));
    assert_eq!(metadata.album.as_deref(), Some("Best Album"));
    assert_eq!(metadata.track_number, Some(1));
    assert_eq!(metadata.genre, None);
}

#[test]
fn test_metadata_encoding() {
    let metadata = TrackMetadata::builder()
        .title("Test")
        .artist("Artist")
        .track_number(5)
        .duration_ms(180_000)
        .build();

    let encoded = metadata.encode_dmap();

    let decoded = decode_dmap_full(&encoded).unwrap();

    assert_eq!(decoded.len(), 1);
    assert_eq!(decoded[0].0, "mlit");

    match &decoded[0].1 {
        DmapTestValue::Container(inner) => {
            let mut found_title = false;
            let mut found_artist = false;
            let mut found_track = false;
            let mut found_duration = false;

            for (tag, val) in inner {
                match tag.as_str() {
                    "minm" => {
                        assert_eq!(val, &DmapTestValue::String("Test".to_string()));
                        found_title = true;
                    }
                    "asar" => {
                        assert_eq!(val, &DmapTestValue::String("Artist".to_string()));
                        found_artist = true;
                    }
                    "astn" => {
                        assert_eq!(val, &DmapTestValue::Int(5));
                        found_track = true;
                    }
                    "astm" => {
                        assert_eq!(val, &DmapTestValue::Int(180_000));
                        found_duration = true;
                    }
                    _ => {}
                }
            }

            assert!(found_title, "Missing title");
            assert!(found_artist, "Missing artist");
            assert!(found_track, "Missing track number");
            assert!(found_duration, "Missing duration");
        }
        _ => panic!("Expected container"),
    }
}

#[test]
fn test_full_metadata_encoding() {
    let metadata = TrackMetadata::builder()
        .title("Title")
        .artist("Artist")
        .album("Album")
        .genre("Genre")
        .track_number(1)
        .disc_number(2)
        .year(2023)
        .duration_ms(300_000)
        .build();

    let encoded = metadata.encode_dmap();
    let decoded = decode_dmap_full(&encoded).unwrap();

    if let DmapTestValue::Container(inner) = &decoded[0].1 {
        assert!(inner
            .iter()
            .any(|(t, v)| t == "minm" && v == &DmapTestValue::String("Title".to_string())));
        assert!(inner
            .iter()
            .any(|(t, v)| t == "asar" && v == &DmapTestValue::String("Artist".to_string())));
        assert!(inner
            .iter()
            .any(|(t, v)| t == "asal" && v == &DmapTestValue::String("Album".to_string())));
        assert!(inner
            .iter()
            .any(|(t, v)| t == "asgn" && v == &DmapTestValue::String("Genre".to_string())));
        assert!(inner
            .iter()
            .any(|(t, v)| t == "astn" && v == &DmapTestValue::Int(1)));
        assert!(inner
            .iter()
            .any(|(t, v)| t == "asdn" && v == &DmapTestValue::Int(2)));
        assert!(inner
            .iter()
            .any(|(t, v)| t == "asyr" && v == &DmapTestValue::Int(2023)));
        assert!(inner
            .iter()
            .any(|(t, v)| t == "astm" && v == &DmapTestValue::Int(300_000)));
    } else {
        panic!("Expected container");
    }
}

#[test]
fn metadata_exact_bytes() {
    let metadata = TrackMetadata::builder().title("Hi").track_number(3).build();
    assert_eq!(
        metadata.encode_dmap(),
        vec![
            b'm', b'l', b'i', b't', 0, 0, 0, 19, b'm', b'i', b'n', b'm', 0, 0, 0, 2, b'H', b'i',
            b'a', b's', b't', b'n', 0, 0, 0, 1, 3
        ]
    );
    assert_eq!(
        TrackMetadata::new().encode_dmap(),
        vec![b'm', b'l', b'i', b't', 0, 0, 0, 0]
    );
}
