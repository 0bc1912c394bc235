use wasabi::web::locale::negotiate_language;

const SUPPORTED: &[&str] = &["de", "en"];

#[test]
fn no_header_yields_the_default() {
    assert_eq!(negotiate_language(None, SUPPORTED, "en"), "en");
    assert_eq!(negotiate_language(Some(""), SUPPORTED, "de"), "de");
}

#[test]
fn quality_decides_over_position() {
    // English comes first in the header but is explicitly weighted lower.
    assert_eq!(
        negotiate_language(Some("en;q=0.5,de;q=0.9"), SUPPORTED, "en"),
        "de"
    );
}

#[test]
fn equal_quality_keeps_the_clients_order() {
    assert_eq!(negotiate_language(Some("de,en"), SUPPORTED, "en"), "de");
    assert_eq!(negotiate_language(Some("en,de"), SUPPORTED, "de"), "en");
}

#[test]
fn region_subtags_reach_the_language() {
    assert_eq!(negotiate_language(Some("de-AT"), SUPPORTED, "en"), "de");
    assert_eq!(negotiate_language(Some("DE-ch"), SUPPORTED, "en"), "de");
}

#[test]
fn q_zero_is_a_refusal_not_a_preference() {
    // `de;q=0` says "anything but German": it must not be picked despite being listed.
    assert_eq!(
        negotiate_language(Some("de;q=0,en;q=0.1"), SUPPORTED, "de"),
        "en"
    );
}

#[test]
fn unsupported_languages_fall_through_to_the_default() {
    assert_eq!(negotiate_language(Some("fr,it"), SUPPORTED, "en"), "en");
}

#[test]
fn wildcard_selects_the_default() {
    assert_eq!(negotiate_language(Some("fr,*"), SUPPORTED, "de"), "de");
}

#[test]
fn a_malformed_entry_does_not_discard_the_rest() {
    assert_eq!(
        negotiate_language(Some("xx;;,de;q=bogus"), SUPPORTED, "en"),
        "de",
        "an unparsable q falls back to 1.0 rather than dropping the entry"
    );
}

#[test]
fn an_exact_match_comes_before_the_primary_subtag() {
    let supported = ["de", "de-AT", "en"];
    assert_eq!(negotiate_language(Some("de-at"), &supported, "en"), "de-AT");
    assert_eq!(negotiate_language(Some("de_CH"), &supported, "en"), "de");
}

#[test]
fn only_the_first_quality_counts() {
    assert_eq!(
        negotiate_language(Some("de;level=1;Q = 0.1;q=1,en;q=0.2"), SUPPORTED, "fr"),
        "en"
    );
    assert_eq!(
        negotiate_language(Some("de;q=-1,en;q=0.001"), SUPPORTED, "fr"),
        "en"
    );
    assert_eq!(negotiate_language(Some("de;q=nan,en"), SUPPORTED, "fr"), "en");
    assert_eq!(
        negotiate_language(Some("en;q=9,de;q=inf"), SUPPORTED, "fr"),
        "de"
    );
}

#[test]
fn the_case_of_a_header_makes_no_difference() {
    for header in ["DE-at;Q=0.3, EN;q=0.2", "*;q=0.4,de;q=1E-1", "FR , En_us"] {
        for default in ["de", "en", "fr"] {
            assert_eq!(
                negotiate_language(Some(header), SUPPORTED, default),
                negotiate_language(Some(&header.to_ascii_lowercase()), SUPPORTED, default),
            );
        }
    }
}

#[test]
fn the_answer_is_offered() {
    for header in ["it, es;q=0.4", "de", "*", ";;;,,,", "en-GB;q=0.1, xx;q=7"] {
        let answer = negotiate_language(Some(header), SUPPORTED, "fr");
        assert!(answer == "fr" || SUPPORTED.contains(&answer.as_str()));
    }
}

#[test]
fn the_order_of_the_languages_makes_no_difference() {
    let one = ["de", "en", "de-AT", "fr"];
    let other = ["fr", "de-AT", "en", "de"];
    for header in ["de-AT", "de-CH,fr", "it;q=0.9,en;q=0.1", "*", "FR-ca;q=0.4, EN;q=0.5", ""] {
        assert_eq!(
            negotiate_language(Some(header), &one, "es"),
            negotiate_language(Some(header), &other, "es")
        );
    }
}

#[test]
fn a_refused_entry_takes_no_part() {
    for refused in ["de;q=0", "xx", ";q=1", "en;q=-3"] {
        assert_eq!(
            negotiate_language(Some(&format!("fr,{refused},en;q=0.2")), SUPPORTED, "es"),
            negotiate_language(Some("fr,en;q=0.2"), SUPPORTED, "es")
        );
    }
}
