use iso639::{autonym, lcid, script};

#[test]
fn autonym_by_alias() {
    let r = autonym::get("en").unwrap();
    assert_eq!(r.tag3, "eng");
    assert_eq!(r.tag1, Some("en"));
    assert_eq!(r.name, "English");
    assert_eq!(r.autonym, Some("English"));
}

#[test]
fn autonym_by_tag3_matches_alias() {
    let a = autonym::get("eng").unwrap();
    let b = autonym::get("en").unwrap();
    assert_eq!(a.tag3, b.tag3);
    assert_eq!(a.tag1, b.tag1);
    assert_eq!(a.name, b.name);
    assert_eq!(a.autonym, b.autonym);
    assert_eq!(a.source, b.source);
}

#[test]
fn autonym_unknown() {
    assert!(autonym::get("zzz").is_none());
    assert!(autonym::get("xyz").is_none());
    assert!(autonym::get("").is_none());
    assert!(autonym::get("EN").is_none());
    assert!(autonym::get("engl").is_none());
}

#[test]
fn autonym_tag_and_alias_agree_on_every_known_pair() {
    for (t3, t1) in [("deu", "de"), ("spa", "es"), ("zho", "zh"), ("sme", "se"), ("ara", "ar")] {
        let a = autonym::get(t3).unwrap();
        let b = autonym::get(t1).unwrap();
        assert_eq!(a.tag3, t3);
        assert_eq!(b.tag3, t3);
        assert_eq!(a.tag1, Some(t1));
        assert_eq!(b.tag1, Some(t1));
    }
}

#[test]
fn autonym_without_alias_or_native_name() {
    let r = autonym::get("tlh").unwrap();
    assert_eq!(r.tag1, None);
    assert_eq!(r.autonym, None);
    assert_eq!(r.name, "Klingon");
    let s = autonym::get("sma").unwrap();
    assert_eq!(s.tag1, None);
    assert_eq!(s.autonym, Some("Åarjelsaemien"));
}

#[test]
fn script_of_japanese() {
    let r = script::get("jpn").unwrap();
    assert_eq!(r.script, "Jpan");
    assert_eq!(script::get("ja").unwrap().script, "Jpan");
    assert_eq!(script::get("ru").unwrap().script, "Cyrl");
    assert!(script::get("zzz").is_none());
}

#[test]
fn lcid_english_us() {
    let r = lcid::get("en", None, Some("US")).unwrap();
    assert_eq!(r.lcid, 1033);
    assert_eq!(r.tag3, "eng");
    let r3 = lcid::get("eng", None, Some("US")).unwrap();
    assert_eq!(r3.lcid, 0x0409);
}

#[test]
fn lcid_by_value() {
    let r = lcid::get_by_lcid(1033).unwrap();
    assert_eq!(r.tag3, "eng");
    assert_eq!(r.region, Some("US"));
    assert_eq!(r.script, None);
    assert!(lcid::get_by_lcid(0).is_none());
    assert!(lcid::get_by_lcid(0x8000_0409).is_none());
}

#[test]
fn lcid_with_script() {
    assert_eq!(lcid::get("sr", Some("Cyrl"), Some("RS")).unwrap().lcid, 10266);
    assert_eq!(lcid::get("srp", Some("Latn"), Some("RS")).unwrap().lcid, 9242);
    assert_eq!(lcid::get("zh", Some("Hant"), Some("TW")).unwrap().lcid, 1028);
    assert_eq!(lcid::get("zh", Some("Hans"), Some("CN")).unwrap().lcid, 2052);
}

#[test]
fn lcid_key_must_match_exactly() {
    assert!(lcid::get("sr", None, Some("RS")).is_none());
    assert!(lcid::get("en", None, Some("us")).is_none());
    assert!(lcid::get("en", Some("Latn"), Some("US")).is_none());
    assert!(lcid::get("en", None, None).is_none());
    assert!(lcid::get("xyz", None, Some("US")).is_none());
}

#[test]
fn lcid_numeric_region() {
    assert_eq!(lcid::get("es", None, Some("419")).unwrap().lcid, 22538);
    assert_eq!(lcid::get("es", None, Some("ES")).unwrap().lcid, 3082);
}

#[test]
fn lcid_first_and_last_entries() {
    assert_eq!(lcid::get("ar", None, Some("SA")).unwrap().lcid, 1025);
    assert_eq!(lcid::get("zho", Some("Hant"), Some("TW")).unwrap().lcid, 1028);
    assert_eq!(lcid::get_by_lcid(1025).unwrap().tag3, "ara");
    assert_eq!(lcid::get_by_lcid(1028).unwrap().region, Some("TW"));
}
