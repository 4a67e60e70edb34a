use glowmarkt::aggregate::field_for_classifier;
use glowmarkt::measurement::Measurement;
use glowmarkt::measurement::is_finite_bits;
use glowmarkt::measurement::is_zero_bits;
use glowmarkt::strmap::StrMap;
use glowmarkt::text::escape;
use glowmarkt::text::first_dot_segment;
use glowmarkt::text::last_dot_segment;
use glowmarkt::text::parse_tag;
use glowmarkt::text::str_eq;
use glowmarkt::text::str_lt;
use glowmarkt::text::string_from_chars;

#[test]
fn escape_spaces_and_commas() {
    assert_eq!(escape("New York, NY"), "New\\ York\\,\\ NY");
    assert_eq!(escape("plain"), "plain");
    assert_eq!(escape(""), "");
    assert_eq!(escape(",, "), "\\,\\,\\ ");
}

#[test]
fn field_key_comes_from_last_classifier_segment() {
    assert_eq!(field_for_classifier(&Some("electricity.consumption".to_string())), "consumption");
    assert_eq!(field_for_classifier(&None), "value");
    assert_eq!(
        field_for_classifier(&Some("electricity.consumption.cost".to_string())),
        "cost"
    );
    assert_eq!(field_for_classifier(&Some("gas".to_string())), "gas");
}

#[test]
fn classifier_segments() {
    assert_eq!(first_dot_segment("electricity.consumption"), "electricity");
    assert_eq!(first_dot_segment("gas"), "gas");
    assert_eq!(first_dot_segment(""), "");
    assert_eq!(last_dot_segment("a.b.c"), "c");
    assert_eq!(last_dot_segment("abc"), "abc");
    assert_eq!(last_dot_segment("a."), "");
}

#[test]
fn string_ordering_and_equality() {
    assert!(str_lt("abc", "abd"));
    assert!(str_lt("ab", "abc"));
    assert!(!str_lt("abc", "abc"));
    assert!(!str_lt("b", "abc"));
    assert!(str_eq("same", "same"));
    assert!(!str_eq("same", "sane"));
}

#[test]
fn string_from_chars_round_trip() {
    let v: Vec<char> = vec!['h', 'i', ' ', '!'];
    assert_eq!(string_from_chars(&v), "hi !");
}

#[test]
fn parse_tag_splits_at_first_equals() {
    assert_eq!(parse_tag("key=value"), Ok(("key".to_string(), "value".to_string())));
    assert_eq!(parse_tag("k=v=w"), Ok(("k".to_string(), "v=w".to_string())));
    assert_eq!(
        parse_tag("novalue"),
        Err("Unable to parse tag 'novalue', no equals sign present.".to_string())
    );
}

#[test]
fn zero_and_finite_bits() {
    assert!(is_zero_bits((0.0f64).to_bits()));
    assert!(is_zero_bits((-0.0f64).to_bits()));
    assert!(!is_zero_bits((0.5f64).to_bits()));
    assert!(is_finite_bits((1.5f64).to_bits()));
    assert!(!is_finite_bits(f64::NAN.to_bits()));
    assert!(!is_finite_bits(f64::INFINITY.to_bits()));
}

#[test]
fn strmap_overwrites_and_sorts() {
    let mut m: StrMap<String> = StrMap::new();
    m.insert("b".to_string(), "2".to_string());
    m.insert("a".to_string(), "1".to_string());
    m.insert("b".to_string(), "3".to_string());
    assert_eq!(m.len(), 2);
    assert_eq!(m.entries()[0], ("a".to_string(), "1".to_string()));
    assert_eq!(m.entries()[1], ("b".to_string(), "3".to_string()));
    assert_eq!(m.get("b"), Some(&"3".to_string()));
    assert_eq!(m.get("missing"), None);
}

#[test]
fn measurement_timestamp_is_nanoseconds() {
    let m = Measurement::new("glowmarkt", 5, StrMap::new());
    assert_eq!(m.timestamp, 5_000_000_000i128);
    let m = Measurement::new("glowmarkt", -2, StrMap::new());
    assert_eq!(m.timestamp, -2_000_000_000i128);
}

#[test]
fn render_line_with_tags_and_escaping() {
    let mut tags: StrMap<String> = StrMap::new();
    tags.insert("city".to_string(), "New York, NY".to_string());
    tags.insert("a key".to_string(), "v".to_string());
    let mut m = Measurement::new("glowmarkt", 1, tags);
    m.add_field("consumption".to_string(), (1.5f64).to_bits());
    let line = m.render_line(&vec!["1.5".to_string()]);
    assert_eq!(line, "glowmarkt,a\\ key=v,city=New\\ York\\,\\ NY consumption=1.5 1000000000");
}

#[test]
fn render_line_without_tags() {
    let mut m = Measurement::new("glowmarkt", 0, StrMap::new());
    m.add_field("value".to_string(), (2.0f64).to_bits());
    let line = m.render_line(&vec!["2".to_string()]);
    assert_eq!(line, "glowmarkt value=2 0");
}

#[test]
fn render_line_negative_timestamp() {
    let mut m = Measurement::new("glowmarkt", -2, StrMap::new());
    m.add_field("value".to_string(), (0.0f64).to_bits());
    let line = m.render_line(&vec!["0".to_string()]);
    assert_eq!(line, "glowmarkt value=0 -2000000000");
}

#[test]
fn render_line_orders_fields_by_key() {
    let mut m = Measurement::new("glowmarkt", 1, StrMap::new());
    m.add_field("zz".to_string(), (1.0f64).to_bits());
    m.add_field("aa".to_string(), (2.0f64).to_bits());
    let line = m.render_line(&vec!["2".to_string(), "1".to_string()]);
    assert_eq!(line, "glowmarkt aa=2,zz=1 1000000000");
}
