use agent_line::extract_json;
use agent_line::matches_suffix;
use agent_line::parse_lines;
use agent_line::str_eq;
use agent_line::strip_code_fences;
use agent_line::to_decimal;

// --- parse_lines tests ---

#[test]
fn test_parse_lines_numbered() {
    let input = "1. First item\n2. Second item\n3. Third item";
    let result = parse_lines(input);
    assert_eq!(result, vec!["First item", "Second item", "Third item"]);
}

#[test]
fn test_parse_lines_dashes() {
    let input = "- Alpha\n- Beta\n- Gamma";
    let result = parse_lines(input);
    assert_eq!(result, vec!["Alpha", "Beta", "Gamma"]);
}

#[test]
fn test_parse_lines_asterisks() {
    let input = "* One\n* Two";
    let result = parse_lines(input);
    assert_eq!(result, vec!["One", "Two"]);
}

#[test]
fn test_parse_lines_plain() {
    let input = "First\nSecond\nThird";
    let result = parse_lines(input);
    assert_eq!(result, vec!["First", "Second", "Third"]);
}

#[test]
fn test_parse_lines_skips_empty_lines() {
    let input = "One\n\nTwo\n\n";
    let result = parse_lines(input);
    assert_eq!(result, vec!["One", "Two"]);
}

#[test]
fn test_parse_lines_trims_whitespace() {
    let input = "  1. Padded  \n  2. Also padded  ";
    let result = parse_lines(input);
    assert_eq!(result, vec!["Padded", "Also padded"]);
}

// --- strip_code_fences tests ---

#[test]
fn strip_fences_removes_fence_lines() {
    let input = "```rust\nlet x = 1;\nlet y = 2;\n```";
    assert_eq!(strip_code_fences(input), "let x = 1;\nlet y = 2;");
}

#[test]
fn strip_fences_leaves_plain_text_trimmed() {
    assert_eq!(strip_code_fences("  hello  "), "hello");
}

// --- extract_json tests ---

#[test]
fn test_extract_json_object_from_prose() {
    let input = "Here is the result:\n{\"name\": \"test\", \"value\": 42}\nDone.";
    let result = extract_json(input).unwrap();
    let parsed: serde_json::Value = serde_json::from_str(&result).unwrap();
    assert_eq!(parsed["name"], "test");
    assert_eq!(parsed["value"], 42);
}

#[test]
fn test_extract_json_array() {
    let input = "The topics are: [\"rust\", \"python\", \"go\"]";
    let result = extract_json(input).unwrap();
    let parsed: serde_json::Value = serde_json::from_str(&result).unwrap();
    assert_eq!(parsed[0], "rust");
}

#[test]
fn test_extract_json_in_code_fence() {
    let input = "```json\n{\"key\": \"value\"}\n```";
    let result = extract_json(input).unwrap();
    let parsed: serde_json::Value = serde_json::from_str(&result).unwrap();
    assert_eq!(parsed["key"], "value");
}

#[test]
fn test_extract_json_no_json_returns_error() {
    let input = "There is no JSON here at all.";
    let result = extract_json(input);
    assert!(result.is_err());
}

#[test]
fn test_extract_json_nested_object() {
    let input = "Result: {\"outer\": {\"inner\": true}}";
    let result = extract_json(input).unwrap();
    let parsed: serde_json::Value = serde_json::from_str(&result).unwrap();
    assert_eq!(parsed["outer"]["inner"], true);
}

// --- small text helpers ---

#[test]
fn to_decimal_renders_base_ten() {
    assert_eq!(to_decimal(0), "0");
    assert_eq!(to_decimal(7), "7");
    assert_eq!(to_decimal(10), "10");
    assert_eq!(to_decimal(10000), "10000");
}

#[test]
fn str_eq_compares_characters() {
    assert!(str_eq("abc", "abc"));
    assert!(!str_eq("abc", "abd"));
    assert!(!str_eq("abc", "ab"));
}

#[test]
fn matches_suffix_checks_file_names() {
    assert!(matches_suffix("main.rs", "*.rs"));
    assert!(matches_suffix("main.rs", ".rs"));
    assert!(!matches_suffix("main.rs", "*.txt"));
    assert!(matches_suffix("anything", "*"));
}
