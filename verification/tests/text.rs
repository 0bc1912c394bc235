use wasabi::natural::Natural;
use wasabi::text::{
    comes_before, contains_str, join_strs, same_ignore_case, split_once_str, split_str,
    starts_with_str, strip_all_str, strip_char, strip_prefix_str, trim_char, trim_str, white_space,
};
use wasabi::text_map::{TextMap, TextSet};
use wasabi::web::validation::{is_valid_id, is_valid_str};

const SAMPLES: [&str; 12] = [
    "", " ", "a", "a,b", ",a,,b,", "\u{a0}x\u{2003}", "äöü,ß", "=", "k=v=w", "\t a b \n",
    "//x//", "ABC-def_é",
];

#[test]
fn splitting_agrees_with_the_standard_library() {
    for s in SAMPLES {
        for sep in [',', '=', ' ', 'ö'] {
            assert_eq!(split_str(s, sep), s.split(sep).collect::<Vec<_>>());
            assert_eq!(split_once_str(s, sep), s.split_once(sep));
            assert_eq!(strip_char(s, sep), s.strip_prefix(sep));
            assert_eq!(trim_char(s, sep), s.trim_matches(sep));
        }
        assert_eq!(trim_char(s, '/'), s.trim_matches('/'));
        assert_eq!(trim_str(s), s.trim());
    }
}

#[test]
fn comparing_agrees_with_the_standard_library() {
    for a in SAMPLES {
        for b in SAMPLES {
            assert_eq!(comes_before(a, b), a < b);
            assert_eq!(contains_str(a, b), a.contains(b));
            assert_eq!(starts_with_str(a, b), a.starts_with(b));
            assert_eq!(strip_prefix_str(a, b), a.strip_prefix(b));
            assert_eq!(strip_all_str(a, b), a.trim_start_matches(b));
            assert_eq!(same_ignore_case(a, b), a.eq_ignore_ascii_case(b));
        }
        assert!(same_ignore_case(a, &a.to_ascii_uppercase()));
    }
    assert_eq!(strip_all_str("abababc", "ab"), "c");
    assert_eq!(join_strs(&["a", "b", ""], ", "), "a, b, ");
    assert_eq!(join_strs(&[], ", "), "");
}

#[test]
fn white_space_agrees_with_the_standard_library() {
    for n in 0..0x11_0000 {
        if let Some(c) = char::from_u32(n) {
            assert_eq!(white_space(c), c.is_whitespace(), "{n:x}");
        }
    }
}

#[test]
fn maps_and_sets_hold_each_name_once() {
    let mut map: TextMap<u8> = TextMap::new();
    map.insert("a".to_string(), 1);
    map.insert("b".to_string(), 2);
    map.insert("a".to_string(), 3);
    assert_eq!(map.len(), 2);
    assert_eq!(map.get("a"), Some(&3));
    assert_eq!(map.get("c"), None);
    assert_eq!(map.entries().len(), 2);

    let mut set = TextSet::new();
    assert!(set.is_empty());
    set.insert("x".to_string());
    set.insert("x".to_string());
    let copy = set.clone();
    assert_eq!(copy.len(), 1);
    assert!(copy.contains("x"));
    assert!(!copy.contains("y"));
    assert_eq!(copy.items(), ["x"]);
}

#[test]
fn lengths_are_counted_in_characters() {
    assert!(!is_valid_id(""));
    assert!(is_valid_id(&"é".repeat(64)));
    assert!(!is_valid_id(&"é".repeat(65)));
    assert!(is_valid_str("ab", 2, 2));
    assert!(!is_valid_str("ab", 3, 9));
}

#[test]
fn natural_numbers_are_exact() {
    let mut a = Natural::new(1);
    a.double(200);
    let mut b = Natural::new(0);
    for digit in "1606938044258990275541962092341162602522202993782792835301376".chars() {
        b.scale(10, digit as u32 - '0' as u32);
    }
    assert_eq!(a.compare(&b), (false, true));
    b.scale(1, 1);
    assert_eq!(a.compare(&b), (true, false));
    assert_eq!(b.compare(&a.copy()), (false, false));
    let mut c = Natural::new(7);
    c.times_ten(3);
    assert_eq!(c.compare(&Natural::new(7000)), (false, true));
}
