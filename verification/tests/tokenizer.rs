use noted::parse_string;

fn create_string_vector(v: Vec<&str>) -> Vec<String> {
    v.into_iter().map(|s| s.to_owned()).collect()
}

#[test]
fn empty_parsed() {
    let parse = String::from("");
    let parsed = parse_string(parse);
    let model = create_string_vector(vec![]);
    assert_eq!(parsed, model)
}

#[test]
fn parse_string_without_quotes() {
    let parse = String::from("no quotations here");
    let parsed = parse_string(parse);
    let model = create_string_vector(vec!["no", "quotations", "here"]);
    assert_eq!(parsed, model)
}

#[test]
fn parse_string_with_single_quotes() {
    let parse = String::from("some 'quotes here'");
    let parsed = parse_string(parse);
    let model = create_string_vector(vec!["some", "quotes here"]);
    assert_eq!(parsed, model)
}

#[test]
fn start_and_end_quotes() {
    let parse = String::from("'please parse ' ' this sentence'");
    let parsed = parse_string(parse);
    let model = create_string_vector(vec!["please parse ", " this sentence"]);
    assert_eq!(parsed, model)
}

#[test]
fn many_whitespace() {
    let parse = String::from("     ");
    let parsed = parse_string(parse);
    let model = create_string_vector(vec![]);
    assert_eq!(parsed, model)
}

#[test]
fn many_quotations() {
    let parse = String::from("''''''");
    let parsed = parse_string(parse);
    let model = create_string_vector(vec![]);
    assert_eq!(parsed, model)
}

#[test]
fn double_quotes_and_mixed() {
    // either quote character toggles the state, so the single quote closes
    // the double one
    let parsed = parse_string(String::from("add \"mixed 'name\" tail"));
    let model = create_string_vector(vec!["add", "mixed ", "name tail"]);
    assert_eq!(parsed, model)
}

#[test]
fn unbalanced_quote_keeps_trailing_text() {
    let parsed = parse_string(String::from("one 'two three"));
    let model = create_string_vector(vec!["one", "two three"]);
    assert_eq!(parsed, model)
}
