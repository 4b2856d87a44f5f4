use graph_cardinality::text::{chars_of, parse_u64, split, starts_with, str_eq, strip_extension};

#[test]
fn chars_of_lists_the_characters() {
    assert_eq!(chars_of(""), Vec::<char>::new());
    assert_eq!(chars_of("a_b"), vec!['a', '_', 'b']);
    assert_eq!(chars_of("Hồ"), vec!['H', 'ồ']);
}

#[test]
fn str_eq_compares_whole_strings() {
    assert!(str_eq("", ""));
    assert!(str_eq("City", "City"));
    assert!(!str_eq("City", "city"));
    assert!(!str_eq("City", "Cit"));
    assert!(!str_eq("Cit", "City"));
    assert!(!str_eq("", " "));
    assert!(str_eq("Hồ Chí", "Hồ Chí"));
    assert!(!str_eq("Hồ", "Ho"));
}

#[test]
fn starts_with_finds_prefixes_only() {
    assert!(starts_with("ID(Person)", "ID"));
    assert!(starts_with("ID", "ID"));
    assert!(starts_with("START_ID(Place)", "START_ID"));
    assert!(starts_with("anything", ""));
    assert!(starts_with("", ""));
    assert!(!starts_with("I", "ID"));
    assert!(!starts_with("", "ID"));
    assert!(!starts_with("START_ID", "ID"));
    assert!(!starts_with("END_ID", "START_ID"));
    assert!(!starts_with("id", "ID"));
}

#[test]
fn split_cuts_at_every_separator() {
    assert_eq!(split("person_knows_person", '_'), vec!["person", "knows", "person"]);
    assert_eq!(split("person", '_'), vec!["person"]);
    assert_eq!(split("", '_'), vec![""]);
    assert_eq!(split("_", '_'), vec!["", ""]);
    assert_eq!(split("a__b", '_'), vec!["a", "", "b"]);
    assert_eq!(split("_a_", '_'), vec!["", "a", ""]);
    assert_eq!(split("id:ID(Person)", ':'), vec!["id", "ID(Person)"]);
    assert_eq!(split(":LABEL", ':'), vec!["", "LABEL"]);
    assert_eq!(split("é_ồ", '_'), vec!["é", "ồ"]);
}

#[test]
fn split_agrees_with_the_standard_split() {
    let samples = ["", "_", "__", "a", "a_b", "_a", "a_", "person_knows_person_0_0", "x__y___z"];
    for sample in samples {
        let expected: Vec<String> = sample.split('_').map(|piece| piece.to_string()).collect();
        assert_eq!(split(sample, '_'), expected);
    }
}

#[test]
fn strip_extension_drops_what_follows_the_last_dot() {
    assert_eq!(strip_extension("person_0.csv"), "person_0");
    assert_eq!(strip_extension("person_0"), "person_0");
    assert_eq!(strip_extension("archive.tar.gz"), "archive.tar");
    assert_eq!(strip_extension("name."), "name");
    assert_eq!(strip_extension(".hidden"), ".hidden");
    assert_eq!(strip_extension(".hidden.csv"), ".hidden");
    assert_eq!(strip_extension(""), "");
    assert_eq!(strip_extension("."), ".");
    assert_eq!(strip_extension("ồ.csv"), "ồ");
}

#[test]
fn strip_extension_agrees_with_the_standard_file_stem() {
    let samples = ["person_0.csv", "person", "a.b.c", "name.", ".hidden", ".hidden.csv", "x.y_z"];
    for sample in samples {
        let expected = std::path::Path::new(sample).file_stem().unwrap().to_str().unwrap();
        assert_eq!(strip_extension(sample), expected);
    }
}

#[test]
fn parse_u64_reads_decimal_numbers() {
    assert_eq!(parse_u64("0"), Some(0));
    assert_eq!(parse_u64("7"), Some(7));
    assert_eq!(parse_u64("933"), Some(933));
    assert_eq!(parse_u64("0042"), Some(42));
    assert_eq!(parse_u64("+42"), Some(42));
    assert_eq!(parse_u64("32985348834375"), Some(32985348834375));
    assert_eq!(parse_u64("18446744073709551615"), Some(u64::MAX));
    assert_eq!(parse_u64("00000000000000000000000018446744073709551615"), Some(u64::MAX));
}

#[test]
fn parse_u64_refuses_what_is_no_number() {
    assert_eq!(parse_u64(""), None);
    assert_eq!(parse_u64("+"), None);
    assert_eq!(parse_u64("-1"), None);
    assert_eq!(parse_u64("-0"), None);
    assert_eq!(parse_u64("++1"), None);
    assert_eq!(parse_u64("1+"), None);
    assert_eq!(parse_u64(" 1"), None);
    assert_eq!(parse_u64("1 "), None);
    assert_eq!(parse_u64("1_000"), None);
    assert_eq!(parse_u64("12a"), None);
    assert_eq!(parse_u64("0x10"), None);
    assert_eq!(parse_u64("1.0"), None);
    assert_eq!(parse_u64("١٢"), None);
    assert_eq!(parse_u64("18446744073709551616"), None);
    assert_eq!(parse_u64("18446744073709551620"), None);
    assert_eq!(parse_u64("99999999999999999999"), None);
    assert_eq!(parse_u64("184467440737095516150"), None);
}

#[test]
fn parse_u64_agrees_with_the_standard_parser() {
    let samples = [
        "", "0", "+0", "-0", "+", "1", "+1", "007", "18446744073709551615", "18446744073709551616",
        "1e3", " 5", "5 ", "٣", "4294967296", "+18446744073709551615", "abc",
    ];
    for sample in samples {
        assert_eq!(parse_u64(sample), sample.parse::<u64>().ok());
    }
}
