use iso639::numeral::{decimal_numeral, digits_value, letters_numeral, letters_value};
use iso639::{make_pseudo_lcid, parse_pseudo_lcid, Error, LcidError};

fn round_trip(tag: &str, region: Option<&str>) -> (String, Option<String>) {
    let v = make_pseudo_lcid(tag, region).unwrap();
    parse_pseudo_lcid(v).unwrap()
}

#[test]
fn unknown_tag_is_rejected() {
    assert_eq!(make_pseudo_lcid("xyz", None), Err(Error::InvalidTag));
    assert_eq!(make_pseudo_lcid("xyz", Some("??")), Err(Error::InvalidTag));
}

#[test]
fn bad_region_is_rejected() {
    for r in ["", "U", "USA", "1a3", "12", "1234", "U1", "é1", "a-b"] {
        assert_eq!(make_pseudo_lcid("eng", Some(r)), Err(Error::InvalidRegion), "{}", r);
    }
}

#[test]
fn english_us_round_trip() {
    let v = make_pseudo_lcid("eng", Some("US")).unwrap();
    assert_ne!(v & 0x8000_0000, 0);
    assert_eq!(v, 3277851624);
    let (tag, region) = parse_pseudo_lcid(v).unwrap();
    assert_eq!(tag, "eng");
    assert_eq!(region, Some("US".to_string()));
}

#[test]
fn english_m49_round_trip() {
    let v = make_pseudo_lcid("eng", Some("840")).unwrap();
    assert_ne!(v & 0x8000_0000, 0);
    assert_ne!(v & 0x8000, 0);
    assert_eq!(v, 3909127144);
    assert_eq!(parse_pseudo_lcid(v).unwrap(), ("eng".to_string(), Some("840".to_string())));
}

#[test]
fn genuine_lcid_is_not_pseudo() {
    assert_eq!(parse_pseudo_lcid(0x0000_0409), Err(LcidError::NotPseudoLcid));
    assert_eq!(parse_pseudo_lcid(0), Err(LcidError::NotPseudoLcid));
    assert_eq!(parse_pseudo_lcid(0x7fff_ffff), Err(LcidError::NotPseudoLcid));
}

#[test]
fn alias_is_made_canonical() {
    assert_eq!(round_trip("de", None), ("deu".to_string(), None));
    assert_eq!(round_trip("de", Some("at")), ("deu".to_string(), Some("AT".to_string())));
    assert_eq!(make_pseudo_lcid("de", Some("AT")), make_pseudo_lcid("deu", Some("at")));
}

#[test]
fn no_region_packs_only_the_tag() {
    let v = make_pseudo_lcid("eng", None).unwrap();
    assert_eq!(v, 0x8000_0000 | 3048);
}

#[test]
fn region_aa_is_distinct_from_no_region() {
    let v = make_pseudo_lcid("deu", Some("AA")).unwrap();
    assert_eq!(v, 2149582952);
    assert_eq!(round_trip("deu", Some("aa")), ("deu".to_string(), Some("AA".to_string())));
    assert_eq!(round_trip("deu", Some("zz")), ("deu".to_string(), Some("ZZ".to_string())));
    assert_eq!(round_trip("tlh", Some("Zz")), ("tlh".to_string(), Some("ZZ".to_string())));
}

#[test]
fn every_alphabetic_region_round_trips() {
    let letters = "abcdefghijklmnopqrstuvwxyz";
    for a in letters.chars() {
        for b in letters.chars() {
            let r: String = [a, b].iter().collect();
            let (tag, region) = round_trip("sme", Some(&r));
            assert_eq!(tag, "sme");
            assert_eq!(region, Some(r.to_uppercase()));
        }
    }
}

#[test]
fn every_numeric_region_round_trips() {
    for n in 1..1000u32 {
        let r = format!("{:03}", n);
        assert_eq!(round_trip("ja", Some(&r)), ("jpn".to_string(), Some(r.clone())));
    }
}

#[test]
fn region_000_reads_back_as_no_region() {
    let v = make_pseudo_lcid("eng", Some("000")).unwrap();
    assert_ne!(v & 0x8000, 0);
    assert_eq!(parse_pseudo_lcid(v).unwrap(), ("eng".to_string(), None));
}

#[test]
fn pseudo_lcids_have_bit_31_set() {
    for tag in ["en", "ara", "zho", "fil", "chr"] {
        for region in [None, Some("US"), Some("001"), Some("ZZ"), Some("999")] {
            let v = make_pseudo_lcid(tag, region).unwrap();
            assert_ne!(v & 0x8000_0000, 0);
            assert!(iso639::lcid::get_by_lcid(v).is_none());
        }
    }
}

#[test]
fn decode_pads_small_tag_numbers() {
    assert_eq!(parse_pseudo_lcid(0x8000_0000).unwrap(), ("aaa".to_string(), None));
    assert_eq!(parse_pseudo_lcid(0x8000_0019).unwrap(), ("aaz".to_string(), None));
    assert_eq!(parse_pseudo_lcid(0x8000_001a).unwrap(), ("aba".to_string(), None));
    assert_eq!(parse_pseudo_lcid(0x8000_7fff).unwrap().0, "bwmh");
}

#[test]
fn decode_reads_region_fields() {
    assert_eq!(parse_pseudo_lcid(0x8000_0000 | (7 << 21) | 0x8000).unwrap().1, Some("007".to_string()));
    assert_eq!(parse_pseudo_lcid(0x8000_0000 | (1023 << 21) | 0x8000).unwrap().1, Some("1023".to_string()));
    assert_eq!(parse_pseudo_lcid(0x8000_0000 | (2 << 21)).unwrap().1, Some("AB".to_string()));
    assert_eq!(parse_pseudo_lcid(0x8000_0000 | (27 << 21)).unwrap().1, Some("BA".to_string()));
    assert_eq!(parse_pseudo_lcid(0x8000_0000 | (677 << 21)).unwrap().1, Some("BAA".to_string()));
}

#[test]
fn base26_values_and_numerals() {
    assert_eq!(letters_value("eng"), 3048);
    assert_eq!(letters_value("aaa"), 0);
    assert_eq!(letters_value("zzz"), 17575);
    assert_eq!(letters_value("us"), 538);
    assert_eq!(letters_numeral(3048), "eng");
    assert_eq!(letters_numeral(0), "a");
    assert_eq!(letters_numeral(26), "ba");
}

#[test]
fn decimal_values_and_numerals() {
    assert_eq!(digits_value("840"), 840);
    assert_eq!(digits_value("007"), 7);
    assert_eq!(decimal_numeral(840), "840");
    assert_eq!(decimal_numeral(0), "0");
    assert_eq!(decimal_numeral(7), "7");
}
