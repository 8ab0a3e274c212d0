use custom_properties::scan::{parse, parse_str};
use custom_properties::toks::{Bracket, Tok, TokKind};

fn refs_of(css: &str) -> Vec<String> {
    let v = parse_str(css).expect("value should scan");
    let mut names = v.references.items.clone();
    names.sort();
    names
}

#[test]
fn plain_value_round_trips_verbatim() {
    let v = parse_str("10px  solid /* note */ red").expect("value should scan");
    assert_eq!(v.value, "10px  solid /* note */ red");
    assert!(v.references.items.is_empty());
}

#[test]
fn plain_value_with_brackets_round_trips() {
    let v = parse_str("calc( (1px + 2px) * 3 )").expect("value should scan");
    assert_eq!(v.value, "calc( (1px + 2px) * 3 )");
    assert!(v.references.items.is_empty());
}

#[test]
fn single_var_reference_is_collected() {
    assert_eq!(refs_of("var(--a)"), vec!["a".to_string()]);
}

#[test]
fn nested_var_reference_is_collected() {
    assert_eq!(refs_of("calc(var(--g) + 1px)"), vec!["g".to_string()]);
}

#[test]
fn fallback_references_are_collected_too() {
    assert_eq!(
        refs_of("var(--a, var(--b, 1px))"),
        vec!["a".to_string(), "b".to_string()]
    );
}

#[test]
fn duplicate_references_are_deduplicated() {
    assert_eq!(refs_of("var(--y) var(--y)"), vec!["y".to_string()]);
}

#[test]
fn empty_value_is_rejected() {
    assert!(parse_str("").is_err());
    assert!(parse_str("   ").is_err());
    assert!(parse_str("/* only a comment */").is_err());
}

#[test]
fn top_level_bang_and_semicolon_are_rejected() {
    assert!(parse_str("a ! b").is_err());
    assert!(parse_str("a ; b").is_err());
}

#[test]
fn bang_and_semicolon_are_fine_inside_blocks() {
    assert!(parse_str("fn(a ! b)").is_ok());
    assert!(parse_str("[a ; b]").is_ok());
    assert!(parse_str("var(--a, a ! b ; c)").is_ok());
}

#[test]
fn unmatched_closing_bracket_is_rejected() {
    assert!(parse_str("a ) b").is_err());
    assert!(parse_str("(a own]").is_err());
}

#[test]
fn unclosed_block_is_closed_by_end_of_input() {
    let v = parse_str("calc(1px + 2px").expect("value should scan");
    assert_eq!(v.value, "calc(1px + 2px");
}

#[test]
fn bad_string_is_rejected() {
    assert!(parse_str("\"broken\nstring\"").is_err());
}

#[test]
fn bad_url_is_rejected() {
    assert!(parse_str("url(bad url)").is_err());
}

#[test]
fn var_without_custom_name_is_rejected() {
    assert!(parse_str("var()").is_err());
    assert!(parse_str("var(a)").is_err());
    assert!(parse_str("var(4px)").is_err());
}

#[test]
fn var_with_garbage_after_name_is_rejected() {
    assert!(parse_str("var(--a 5px)").is_err());
}

#[test]
fn var_with_empty_fallback_is_accepted() {
    assert_eq!(refs_of("var(--a,)"), vec!["a".to_string()]);
}

#[test]
fn parse_accepts_hand_built_tokens() {
    let toks = vec![
        Tok { kind: TokKind::Function("var".to_string()), text: "var(".to_string() },
        Tok { kind: TokKind::Ident("--a".to_string()), text: "--a".to_string() },
        Tok { kind: TokKind::Close(Bracket::Paren), text: ")".to_string() },
    ];
    let v = parse(&toks).expect("value should scan");
    assert_eq!(v.value, "var(--a)");
    assert!(v.references.contains(&"a".to_string()));
    assert!(!v.references.contains(&"b".to_string()));
}

#[test]
fn leading_and_trailing_blanks_are_kept_in_the_text() {
    let v = parse_str("  1px  ").expect("value should scan");
    assert_eq!(v.value, "  1px  ");
}
