use yeet::metadata::YeetMetadata;

#[test]
fn new_record() {
    let m = YeetMetadata::new();
    assert!(m.author.is_none());
    assert!(m.created.is_some());
    assert_eq!(m.software, "YEET v2.0");
}

#[test]
fn json_text() {
    let m = YeetMetadata { author: Some("Ada".to_string()), created: Some("then".to_string()), software: "YEET v2.0".to_string() };
    assert_eq!(m.to_json(), "{\"author\":\"Ada\",\"created\":\"then\",\"software\":\"YEET v2.0\"}");
    let bare = YeetMetadata { author: None, created: None, software: "x".to_string() };
    assert_eq!(bare.to_json(), "{\"software\":\"x\"}");
}

#[test]
fn record_is_read_back() {
    let m = YeetMetadata { author: Some("Grace H".to_string()), created: None, software: "s".to_string() };
    let back = YeetMetadata::from_json(&m.to_json());
    assert_eq!(back.author.as_deref(), Some("Grace H"));
    assert!(back.created.is_none());
    assert_eq!(back.software, "s");
    let full = YeetMetadata { author: Some("A".to_string()), created: Some("2024-01-01".to_string()), software: "YEET v2.0".to_string() };
    let again = YeetMetadata::from_json(&full.to_json());
    assert_eq!(again.author, full.author);
    assert_eq!(again.created, full.created);
    assert_eq!(again.software, full.software);
    let fresh = YeetMetadata::new();
    let copy = YeetMetadata::from_json(&fresh.to_json());
    assert_eq!(copy.created, fresh.created);
    assert_eq!(copy.software, fresh.software);
}

#[test]
fn missing_or_unterminated_author() {
    assert!(YeetMetadata::from_json("{\"software\":\"s\"}").author.is_none());
    assert!(YeetMetadata::from_json("{\"author\":\"never closed").author.is_none());
    assert!(YeetMetadata::from_json("").author.is_none());
    assert!(YeetMetadata::from_json("").created.is_none());
    assert_eq!(YeetMetadata::from_json("").software, "YEET v2.0");
    assert_eq!(YeetMetadata::from_json("{\"author\":\"\"}").author.as_deref(), Some(""));
}

#[test]
fn third_generation_record() {
    let m = yeet::metadata::YeetMetadataV3::default();
    assert_eq!(m.software, "YEET v3.0-alpha");
    assert_eq!(m.color_space.as_deref(), Some("sRGB"));
    assert_eq!(m.orientation.as_deref(), Some("normal"));
    assert_eq!((m.frame_count, m.loop_count, m.bit_depth, m.hdr), (1, 0, 8, false));
    assert!(m.created.is_some());
    let with = yeet::metadata::YeetMetadataV3::for_still_image(true);
    assert_eq!(with.color_profile.as_deref(), Some("embedded"));
    assert!(yeet::metadata::YeetMetadataV3::for_still_image(false).color_profile.is_none());
}
