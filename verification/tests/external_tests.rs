use onnx_extractor::error::Error;
use onnx_extractor::external_data::{ExternalDataInfo, ExternalDataLoader};
use onnx_extractor::proto::StringEntryProto;

fn pair(key: &str, value: &str) -> StringEntryProto {
    StringEntryProto { key: Some(key.to_string()), value: Some(value.to_string()) }
}

#[test]
fn key_value_pairs_parse() {
    let pairs = vec![pair("location", "weights.bin"), pair("offset", "90"), pair("length", "10")];
    let info = ExternalDataInfo::from_key_value_pairs(&pairs).expect("location is present");
    assert_eq!(info.location, "weights.bin");
    assert_eq!(info.offset, Some(90));
    assert_eq!(info.length, Some(10));
}

#[test]
fn unknown_keys_are_ignored_and_later_values_win() {
    let pairs = vec![
        pair("checksum", "deadbeef"),
        pair("location", "a.bin"),
        pair("location", "b.bin"),
        pair("offset", "4"),
        pair("offset", "not a number"),
    ];
    let info = ExternalDataInfo::from_key_value_pairs(&pairs).expect("location is present");
    assert_eq!(info.location, "b.bin");
    // the later, unparsable offset wins and counts as unset
    assert_eq!(info.offset, None);
    assert_eq!(info.length, None);
}

#[test]
fn missing_location_is_invalid() {
    let pairs = vec![pair("offset", "90")];
    match ExternalDataInfo::from_key_value_pairs(&pairs) {
        Err(Error::InvalidModel(_)) => {},
        other => panic!("expected an invalid-model error, got {:?}", other.map(|_| ())),
    }
}

#[test]
fn numeric_strings_follow_u64_rules() {
    // a leading plus sign is accepted, as str::parse accepts it
    let pairs = vec![pair("location", "f"), pair("offset", "+12")];
    let info = ExternalDataInfo::from_key_value_pairs(&pairs).expect("parses");
    assert_eq!(info.offset, Some(12));
    // overflow counts as unset, not as an error
    let pairs = vec![pair("location", "f"), pair("offset", "99999999999999999999999")];
    let info = ExternalDataInfo::from_key_value_pairs(&pairs).expect("parses");
    assert_eq!(info.offset, None);
    // empty and signless-invalid strings count as unset
    let pairs = vec![pair("location", "f"), pair("length", ""), pair("offset", "+")];
    let info = ExternalDataInfo::from_key_value_pairs(&pairs).expect("parses");
    assert_eq!(info.offset, None);
    assert_eq!(info.length, None);
}

#[test]
fn byte_range_bounds_are_validated_hard() {
    let mut loader = ExternalDataLoader::new();
    assert!(!loader.has_file("w.bin"));
    let file: Vec<u8> = (0..100u8).collect();
    loader.store_file("w.bin".to_string(), file);
    assert!(loader.has_file("w.bin"));

    // end 110 exceeds the 100-byte file
    let too_long = ExternalDataInfo {
        location: "w.bin".to_string(),
        offset: Some(90),
        length: Some(20),
    };
    match loader.load_data(&too_long) {
        Err(Error::InvalidModel(_)) => {},
        other => panic!("expected an invalid-model error, got {:?}", other.map(|_| ())),
    }

    // the last ten bytes come back exactly
    let tail = ExternalDataInfo {
        location: "w.bin".to_string(),
        offset: Some(90),
        length: Some(10),
    };
    let bytes = loader.load_data(&tail).expect("90..100 lies inside the file");
    assert_eq!(bytes, (90..100u8).collect::<Vec<u8>>());

    // a second request for the same location is served from the cache:
    // the file needs no second read
    assert!(loader.has_file("w.bin"));
    let again = loader.load_data(&tail).expect("cache hit");
    assert_eq!(again, (90..100u8).collect::<Vec<u8>>());

    // an offset past the end fails even with no length
    let past = ExternalDataInfo { location: "w.bin".to_string(), offset: Some(101), length: None };
    assert!(matches!(past.load_data(&loader), Err(Error::InvalidModel(_))));

    // no offset and no length give the whole file
    let whole = ExternalDataInfo { location: "w.bin".to_string(), offset: None, length: None };
    assert_eq!(whole.load_data(&loader).expect("whole file").len(), 100);

    // a location that was never stored is an I/O error
    let missing = ExternalDataInfo { location: "other.bin".to_string(), offset: None, length: None };
    assert!(matches!(loader.load_data(&missing), Err(Error::Io(_))));
}
