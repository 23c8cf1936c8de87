use demail::numfmt::{decimal_of, decimal_of_usize, lower_hex_of};
use demail::paths::NormalPath;
use demail::reply_forward::lines_of;
use demail::text::{
    char_is_control, char_is_whitespace, chars_of, contains, ends_with, join_of, list_entries_of,
    split_of, starts_with, string_of, trim_matches_of, trim_of, trim_start_of, CharClass,
};

fn s(v: &Vec<char>) -> String {
    string_of(v)
}

#[test]
fn whitespace_and_control_are_those_of_the_standard_library() {
    for code in 0u32..=0x10FFFF {
        if let Some(c) = char::from_u32(code) {
            assert_eq!(char_is_whitespace(c), c.is_whitespace(), "U+{:04X}", code);
            assert_eq!(char_is_control(c), c.is_control(), "U+{:04X}", code);
        }
    }
}

#[test]
fn text_goes_to_characters_and_back() {
    for t in ["", "abc", "gr\u{fc}\u{df}e \u{1F389}"] {
        assert_eq!(string_of(&chars_of(t)), t);
        assert_eq!(chars_of(t), t.chars().collect::<Vec<char>>());
    }
}

#[test]
fn trimming_is_that_of_the_standard_library() {
    for t in ["", "  a  ", "\t\n x y \r\n", "\u{a0}z\u{3000}", "   ", "none"] {
        assert_eq!(s(&trim_of(&chars_of(t))), t.trim());
        assert_eq!(s(&trim_start_of(&chars_of(t))), t.trim_start());
    }
    assert_eq!(
        s(&trim_matches_of(&chars_of("\"\"quoted\"\""), CharClass::Is('"'))),
        "quoted"
    );
}

#[test]
fn splitting_and_joining() {
    let pieces = split_of(&chars_of("a,b;;c,"), CharClass::Either(',', ';'));
    let texts: Vec<String> = pieces.iter().map(s).collect();
    assert_eq!(texts, vec!["a", "b", "", "c", ""]);
    assert_eq!(split_of(&chars_of(""), CharClass::Is(',')).len(), 1);
    assert_eq!(s(&join_of(&pieces, &chars_of("+"))), "a+b++c+");
    assert_eq!(s(&join_of(&Vec::new(), &chars_of("+"))), "");
    let entries: Vec<String> = list_entries_of(&chars_of(" a , ;b; "))
        .iter()
        .map(s)
        .collect();
    assert_eq!(entries, vec!["a", "b"]);
}

#[test]
fn finding_text() {
    let hay = chars_of("hello world");
    assert!(contains(&hay, &chars_of("lo w")));
    assert!(contains(&hay, &chars_of("")));
    assert!(contains(&hay, &chars_of("hello world")));
    assert!(!contains(&hay, &chars_of("hello world!")));
    assert!(!contains(&hay, &chars_of("xyz")));
    assert!(starts_with(&hay, &chars_of("hell")));
    assert!(!starts_with(&hay, &chars_of("ello")));
    assert!(ends_with(&hay, &chars_of("world")));
    assert!(ends_with(&hay, &chars_of("")));
    assert!(!ends_with(&hay, &chars_of("worl")));
    assert!(!ends_with(&chars_of("ld"), &chars_of("world")));
}

#[test]
fn numbers_as_text() {
    for n in [0i64, 7, 10, 998, -1, -120, i64::MAX, i64::MIN] {
        assert_eq!(s(&decimal_of(n)), n.to_string());
    }
    for n in [0usize, 9, 10, 10_000_000] {
        assert_eq!(s(&decimal_of_usize(n)), n.to_string());
    }
    for n in [0u64, 9, 10, 15, 16, 255, 0xdead_beef, u64::MAX] {
        assert_eq!(s(&lower_hex_of(n)), format!("{:x}", n));
    }
}

#[test]
fn lines_are_those_of_the_standard_library() {
    for t in [
        "",
        "one",
        "one\n",
        "one\ntwo",
        "one\r\ntwo\r\n",
        "\n",
        "\n\n",
        "a\rb\n\rc\r",
        "last\r",
        "x\n\r\n",
    ] {
        let ours: Vec<String> = lines_of(&chars_of(t)).iter().map(s).collect();
        let theirs: Vec<String> = t.lines().map(|l| l.to_string()).collect();
        assert_eq!(ours, theirs, "{:?}", t);
    }
}

#[test]
fn paths_in_normal_form() {
    let shown = |p: &str| s(&NormalPath::of(&chars_of(p)).render());
    assert_eq!(shown("/tmp/demail/../x"), "/tmp/x");
    assert_eq!(shown("/tmp//demail/./a/"), "/tmp/demail/a");
    assert_eq!(shown("/../.."), "/");
    assert_eq!(shown("a/../../b"), "../b");
    assert_eq!(shown(""), "");
    assert_eq!(shown("/"), "/");
    let base = NormalPath::of(&chars_of("/tmp/demail"));
    assert!(NormalPath::of(&chars_of("/tmp/demail")).starts_with(&base));
    assert!(NormalPath::of(&chars_of("/tmp/demail/a/b")).starts_with(&base));
    assert!(!NormalPath::of(&chars_of("/tmp/demailx")).starts_with(&base));
    assert!(!NormalPath::of(&chars_of("tmp/demail/a")).starts_with(&base));
}
