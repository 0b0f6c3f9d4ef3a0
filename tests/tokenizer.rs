use calculator::text::{eq_ignore_ascii_case, is_float_literal_text};
use calculator::tokenizer::REGEX_STRING;
use calculator::{build_tokenised_string, parse_buffer, source_text, LexError, Pattern, StringTokenizer};

const RGX_STR: &str = r"\b[0-9]+\b|(?:\b|\B)[()*/+-](?:\b|\B)";

#[test]
fn model_tokenize_simple_expression() {
    let rgx = Pattern::new(RGX_STR).unwrap();
    let tokenised_string = build_tokenised_string(&rgx, "3+4/2");
    assert_eq!(tokenised_string, vec!["3", "+", "4", "/", "2"]);
}

#[test]
fn model_tokenize_complex_expression() {
    let rgx = Pattern::new(RGX_STR).unwrap();
    let exp = "3+4*(2-5)/77-(82*(55-2))";
    let tokenised_string = build_tokenised_string(&rgx, exp);
    assert_eq!(
        tokenised_string,
        vec![
            "3", "+", "4", "*", "(", "2", "-", "5", ")", "/", "77", "-", "(", "82", "*", "(", "55",
            "-", "2", ")", ")",
        ]
    );
}

#[test]
fn tokenizer_tokenize_simple_expression() {
    let rgx = Pattern::new(RGX_STR).unwrap();
    let tokenizer = StringTokenizer::new(rgx, "3+4/2");
    assert_eq!(*tokenizer.tokens(), vec!["3", "+", "4", "/", "2"]);
}

#[test]
fn tokenizer_tokenize_complex_expression() {
    let rgx = Pattern::new(RGX_STR).unwrap();
    let exp = "3+4*(2-5)/77-(82*(55-2))";
    let tokenizer = StringTokenizer::new(rgx, exp);
    assert_eq!(
        *tokenizer.tokens(),
        vec![
            "3", "+", "4", "*", "(", "2", "-", "5", ")", "/", "77", "-", "(", "82", "*", "(", "55",
            "-", "2", ")", ")",
        ]
    );
}

#[test]
fn tokenizer_iterates_in_order() {
    let rgx = Pattern::new(RGX_STR).unwrap();
    let tokenizer = StringTokenizer::new(rgx, "12 * (3)");
    let seen: Vec<&String> = tokenizer.iter().collect();
    assert_eq!(seen, vec!["12", "*", "(", "3", ")"]);
}

#[test]
fn tokenizer_contains_ignores_case() {
    let rgx = Pattern::new(REGEX_STRING).unwrap();
    let tokenizer = StringTokenizer::new(rgx, "1 + QuIt");
    assert!(tokenizer.contains("quit"));
    assert!(!tokenizer.contains("exit"));
}

#[test]
fn invalid_pattern_is_rejected() {
    assert!(matches!(Pattern::new("foo(bar"), Err(LexError::InvalidPattern)));
}

#[test]
fn standard_pattern_splits_decimals_and_words() {
    let (tokens, stop) = parse_buffer(&String::from("ans*2.5 - (10/4)\n")).unwrap();
    assert_eq!(tokens, vec!["ans", "*", "2.5", "-", "(", "10", "/", "4", ")"]);
    assert!(!stop);
}

#[test]
fn quit_and_exit_end_the_session() {
    assert!(parse_buffer(&String::from("quit")).unwrap().1);
    assert!(parse_buffer(&String::from("EXIT")).unwrap().1);
    assert!(parse_buffer(&String::from("1 + 2 exit")).unwrap().1);
    assert!(!parse_buffer(&String::from("1 + 2")).unwrap().1);
    assert!(!parse_buffer(&String::from("quitting")).unwrap().1);
}

#[test]
fn source_text_joins_tokens() {
    let tokens = vec![String::from("3"), String::from("+"), String::from("4.5")];
    assert_eq!(source_text(&tokens), "3+4.5");
    assert_eq!(source_text(&Vec::new()), "");
}

#[test]
fn ascii_case_is_ignored_only_for_letters() {
    assert!(eq_ignore_ascii_case("AnS", "ans"));
    assert!(!eq_ignore_ascii_case("ans", "an"));
    assert!(!eq_ignore_ascii_case("a1", "a2"));
    assert!(eq_ignore_ascii_case("", ""));
}

#[test]
fn float_literal_grammar() {
    for ok in ["1", "10", "1.5", "5.", ".5", "-2", "+2.0", "1e5", "1E-3", "2.5e+10", "inf", "-Inf", "+infinity", "NAN"] {
        assert!(is_float_literal_text(ok), "{}", ok);
    }
    for bad in ["", ".", "-", "1e", "e5", "a1", "1.2.3", "1e5x", "--1", "ans", "infx", "--inf", "na"] {
        assert!(!is_float_literal_text(bad), "{}", bad);
    }
}
