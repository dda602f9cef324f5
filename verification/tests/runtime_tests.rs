use vibelang::runtime::decode::{
    decode_boolean, decode_integer, decode_text, extract_boolean, extract_float_text,
    extract_integer, extract_text, parse_i32,
};
use vibelang::runtime::llm_interface::format_prompt;

#[test]
fn test_format_prompt() {
    let template = "Weather in {city} on {day}";
    let variables = vec![
        ("city".to_string(), "Tokyo".to_string()),
        ("day".to_string(), "Monday".to_string()),
    ];

    let result = format_prompt(template, &variables);
    assert_eq!(result, "Weather in Tokyo on Monday");
}

#[test]
fn format_prompt_substitutes_every_occurrence() {
    let variables = vec![("name".to_string(), "Ada".to_string())];
    assert_eq!(
        format_prompt("{name} and {name}", &variables),
        "Ada and Ada"
    );
}

#[test]
fn population_meaning_takes_first_numeric_token() {
    assert_eq!(
        extract_integer("approximately 67 million", "population count in millions"),
        67
    );
}

#[test]
fn generic_integer_extractor_defaults_to_zero() {
    assert_eq!(extract_integer("no numbers here", "some unrecognized thing"), 0);
}

#[test]
fn integer_dispatch_prefers_direct_parse() {
    assert_eq!(decode_integer("42", Some("population count in millions")), 42);
    assert_eq!(decode_integer(" 42 \n", None), 42);
}

#[test]
fn availability_meaning_uses_the_word_list() {
    assert!(decode_boolean(
        "Yes, it's in stock",
        Some("whether something is available")
    ));
    assert!(!decode_boolean(
        "Sorry, sold out",
        Some("whether something is available")
    ));
}

#[test]
fn boolean_dispatch_prefers_direct_parse() {
    assert!(decode_boolean("true", Some("whether something is available")));
    assert!(!decode_boolean(" FALSE ", None));
}

#[test]
fn sentiment_meaning_uses_the_word_list() {
    assert!(extract_boolean("The mood is positive overall", "emotional sentiment"));
    assert!(!extract_boolean("The mood is bleak", "emotional sentiment"));
}

#[test]
fn year_meaning_scans_for_a_year() {
    assert_eq!(
        extract_integer("Founded in 1776!", "year when established"),
        1776
    );
    assert_eq!(extract_integer("about 30 years old", "age calculation"), 30);
}

#[test]
fn count_meaning_takes_the_first_integer_token() {
    assert_eq!(
        extract_integer("She wrote 12 books in total", "number of books written"),
        12
    );
}

#[test]
fn field_meaning_picks_an_alphabetic_token() {
    assert_eq!(
        extract_text("She worked mostly within physics", "area of scientific expertise"),
        "worked"
    );
    assert_eq!(extract_text("a b c", "area of scientific expertise"), "unknown");
}

#[test]
fn summary_meaning_cuts_at_the_first_period() {
    assert_eq!(
        decode_text("First sentence. Second sentence.", Some("a short summary")),
        "First sentence."
    );
}

#[test]
fn description_meaning_keeps_the_whole_text() {
    assert_eq!(
        decode_text("  A wide river in South America.  ", Some("geographic description")),
        "A wide river in South America."
    );
}

#[test]
fn text_dispatch_without_meaning_trims() {
    assert_eq!(decode_text("  hello  ", None), "hello");
}

#[test]
fn rating_meaning_selects_the_numeric_text() {
    assert_eq!(
        extract_float_text("Rating: 8.5 out of 10", "quality rating out of 10"),
        Some("8.5".to_string())
    );
    assert_eq!(
        extract_float_text("no digits at all", "quality rating out of 10"),
        None
    );
}

#[test]
fn percentage_meaning_strips_the_sign() {
    assert_eq!(
        extract_float_text("45%", "percentage of the total"),
        Some("45".to_string())
    );
}

#[test]
fn integer_parsing_is_exact() {
    assert_eq!(parse_i32("123"), Some(123));
    assert_eq!(parse_i32("-45"), Some(-45));
    assert_eq!(parse_i32("+7"), Some(7));
    assert_eq!(parse_i32("12a"), None);
    assert_eq!(parse_i32(""), None);
    assert_eq!(parse_i32("99999999999999999999"), None);
}
