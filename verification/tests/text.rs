use habitron::text::{
    char_is_whitespace, chars_of, contains_rule, find_char, parse_u32_range, starts_with, trim_range,
};

const SAMPLES: [&str; 22] = [
    "",
    " ",
    "---",
    "a---b",
    "--",
    "- - -",
    "----",
    "  workout: 45  ",
    "\t\u{3000}x\u{a0}\n",
    "\u{2003}\u{2003}",
    "+12",
    "12+",
    "0012",
    "4294967295",
    "4294967296",
    "99999999999999999999999999",
    "-1",
    "+",
    "1 2",
    "１２",
    "étude: 3",
    "a:b:c",
];

#[test]
fn whitespace_is_what_std_takes_it_to_be() {
    for code in 0..=0x10_FFFFu32 {
        if let Some(c) = char::from_u32(code) {
            assert_eq!(char_is_whitespace(c), c.is_whitespace(), "U+{:04X}", code);
        }
    }
}

#[test]
fn the_characters_of_a_text_are_its_chars() {
    for s in SAMPLES {
        assert_eq!(chars_of(s), s.chars().collect::<Vec<char>>());
    }
}

#[test]
fn trimming_is_that_of_std() {
    for s in SAMPLES {
        let cs = chars_of(s);
        let (a, b) = trim_range(&cs, 0, cs.len());
        let got: String = cs[a..b].iter().collect();
        assert_eq!(got, s.trim(), "{:?}", s);
    }
    let cs = chars_of("ab  cd  ef");
    assert_eq!(trim_range(&cs, 2, 8), (4, 6));
    assert_eq!(trim_range(&cs, 2, 4), (4, 4));
    assert_eq!(trim_range(&cs, 3, 3), (3, 3));
}

#[test]
fn numbers_are_read_as_std_reads_them() {
    for s in SAMPLES {
        let cs = chars_of(s);
        assert_eq!(parse_u32_range(&cs, 0, cs.len()), s.parse::<u32>().ok(), "{:?}", s);
    }
    let cs = chars_of("x42y");
    assert_eq!(parse_u32_range(&cs, 1, 3), Some(42));
    assert_eq!(parse_u32_range(&cs, 1, 4), None);
    assert_eq!(parse_u32_range(&cs, 2, 2), None);
}

#[test]
fn the_rule_is_three_hyphens_in_a_row() {
    for s in SAMPLES {
        assert_eq!(contains_rule(&chars_of(s)), s.contains("---"), "{:?}", s);
    }
}

#[test]
fn prefixes_and_first_characters_are_found_as_std_finds_them() {
    for s in SAMPLES {
        let cs = chars_of(s);
        for p in SAMPLES {
            assert_eq!(starts_with(&cs, &chars_of(p)), s.starts_with(p), "{:?} {:?}", s, p);
        }
        let colon = s.chars().position(|c| c == ':').unwrap_or(cs.len());
        assert_eq!(find_char(&cs, ':'), colon);
    }
}
