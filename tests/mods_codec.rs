use osu_scores::chunks::cut;
use osu_scores::mods::{
    ModsError, OsuMods, DOUBLETIME, EASY, FADEIN, FLASHLIGHT, HALFTIME, HARDROCK, HIDDEN,
    MIRROR, NIGHTCORE, NOFAIL, PERFECT, RELAX, SPUNOUT, SUDDENDEATH, TOUCHDEVICE,
};

fn m(bits: u32) -> OsuMods {
    OsuMods::from_bits(bits)
}

#[test]
fn encode_empty_is_nm() {
    assert_eq!(OsuMods::empty().encode(), "NM");
}

#[test]
fn encode_keeps_table_order() {
    assert_eq!(m(HARDROCK | HIDDEN | DOUBLETIME).encode(), "HDDTHR");
    assert_eq!(m(NOFAIL | EASY | TOUCHDEVICE | HALFTIME | FLASHLIGHT).encode(), "NFEZTDHTFL");
    assert_eq!(m(SPUNOUT | RELAX | FADEIN | MIRROR).encode(), "SORXFDMR");
}

#[test]
fn encode_alias_written_alone() {
    assert_eq!(m(NIGHTCORE).encode(), "NC");
    assert_eq!(m(NIGHTCORE | HIDDEN).encode(), "HDNC");
    assert_eq!(m(PERFECT).encode(), "PF");
    assert_eq!(m(PERFECT | HARDROCK).encode(), "HRPF");
    assert_eq!(m(DOUBLETIME).encode(), "DT");
    assert_eq!(m(SUDDENDEATH).encode(), "SD");
}

#[test]
fn contains_tests_full_pattern() {
    assert!(!m(DOUBLETIME).contains(NIGHTCORE));
    assert!(m(NIGHTCORE).contains(DOUBLETIME));
    assert!(m(NIGHTCORE).contains(NIGHTCORE));
    assert!(!m(SUDDENDEATH).contains(PERFECT));
}

#[test]
fn lenient_round_trip() {
    let sets = [
        0,
        HIDDEN,
        HIDDEN | DOUBLETIME,
        NIGHTCORE | HIDDEN | HARDROCK,
        PERFECT | FLASHLIGHT,
        NOFAIL | EASY | TOUCHDEVICE | HALFTIME | SPUNOUT | RELAX | FADEIN | MIRROR,
        SUDDENDEATH | DOUBLETIME,
    ];
    for bits in sets {
        let text = m(bits).encode();
        assert_eq!(OsuMods::decode_lenient(&text), m(bits), "{}", text);
    }
}

#[test]
fn lenient_is_case_insensitive() {
    assert_eq!(OsuMods::decode_lenient("hdDt"), m(HIDDEN | DOUBLETIME));
    assert_eq!(OsuMods::decode_lenient("nc"), m(NIGHTCORE));
}

#[test]
fn lenient_drops_unknown_chunks() {
    assert_eq!(OsuMods::decode_lenient("XX"), OsuMods::empty());
    assert_eq!(OsuMods::decode_lenient("HDXXHR"), m(HIDDEN | HARDROCK));
    assert_eq!(OsuMods::decode_lenient("HDD"), m(HIDDEN));
    assert_eq!(OsuMods::decode_lenient(""), OsuMods::empty());
    assert_eq!(OsuMods::decode_lenient("NM"), OsuMods::empty());
}

#[test]
fn decode_one_strict() {
    assert_eq!(OsuMods::decode_one("PF").unwrap(), m(PERFECT));
    assert_eq!(OsuMods::decode_one("pf").unwrap(), m(PERFECT));
    assert_eq!(OsuMods::decode_one("NM").unwrap(), OsuMods::empty());
    match OsuMods::decode_one("XX") {
        Err(ModsError::UnknownAcronym { acronym }) => assert_eq!(acronym, "XX"),
        Ok(_) => panic!("XX is no acronym"),
    }
    assert!(OsuMods::decode_one("HDHR").is_err());
}

#[test]
fn decode_one_folded_is_case_sensitive() {
    assert!(OsuMods::decode_one_folded("hd").is_err());
    assert_eq!(OsuMods::decode_one_folded("HD").unwrap(), m(HIDDEN));
}

#[test]
fn decode_many_unions() {
    let items = vec!["HD".to_string(), "dt".to_string(), "HR".to_string()];
    assert_eq!(OsuMods::decode_many(&items).unwrap(), m(HIDDEN | DOUBLETIME | HARDROCK));
    assert_eq!(OsuMods::decode_many(&Vec::new()).unwrap(), OsuMods::empty());
}

#[test]
fn decode_many_reports_first_unknown() {
    let items = vec!["HD".to_string(), "ZZ".to_string(), "QQ".to_string()];
    match OsuMods::decode_many(&items) {
        Err(ModsError::UnknownAcronym { acronym }) => assert_eq!(acronym, "ZZ"),
        Ok(_) => panic!("ZZ is no acronym"),
    }
}

#[test]
fn cut_into_pairs() {
    assert_eq!(cut("abcde", 2), vec!["ab", "cd", "e"]);
    assert_eq!(cut("abcd", 2), vec!["ab", "cd"]);
    assert_eq!(cut("", 2), Vec::<String>::new());
    assert_eq!(cut("äöüß", 3), vec!["äöü", "ß"]);
    assert_eq!(cut("xyz", 1), vec!["x", "y", "z"]);
}
