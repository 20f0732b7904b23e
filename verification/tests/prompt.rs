use braincells::database::models::{Cell, Column, ColumnType, Row};
use braincells::prompt::materialize::{materialize_prompt, MaterializeError};
use braincells::prompt::replace::replace_chars;
use braincells::prompt::scan::{char_is_whitespace, find_placeholders, trim_range};
use braincells::stamp::Timestamp;
use braincells::text::{from_chars, str_eq, to_chars};

#[test]
fn test_materialize_prompt() {
    let mut row = Row::new(0);
    let mut columns = Vec::new();

    let col1 = Column::new("ds1".to_string(), "Product".to_string(), ColumnType::Input, 0);
    let col2 = Column::new("ds1".to_string(), "Category".to_string(), ColumnType::Input, 1);

    columns.push(col1.clone());
    columns.push(col2.clone());

    let cell1 = Cell::new("ds1".to_string(), col1.id.clone(), 0).with_value("iPhone".to_string());
    let cell2 =
        Cell::new("ds1".to_string(), col2.id.clone(), 0).with_value("Electronics".to_string());

    row.add_cell(col1.id.clone(), cell1);
    row.add_cell(col2.id.clone(), cell2);

    let template = "Write a description for {{Product}} in the {{Category}} category";
    let result = materialize_prompt(template, &row, &columns).unwrap();

    assert_eq!(result, "Write a description for iPhone in the Electronics category");
}

#[test]
fn test_materialize_prompt_missing_column() {
    let row = Row::new(0);
    let columns = Vec::new();

    let template = "Write a description for {{Product}}";
    let result = materialize_prompt(template, &row, &columns);

    assert!(result.is_err());
    assert!(result.unwrap_err().message().contains("Referenced columns not found"));
}

fn named(id: &str, name: &str) -> Column {
    Column::with_id(
        id.to_string(),
        "ds".to_string(),
        name.to_string(),
        ColumnType::Input,
        0,
        Timestamp::from_micros(0),
    )
}

fn row_of(values: &[(&str, Option<&str>)]) -> Row {
    let mut row = Row::new(0);
    for (column_id, value) in values {
        let cell = Cell::with_id(
            format!("cell-{}", column_id),
            "ds".to_string(),
            column_id.to_string(),
            0,
            Timestamp::from_micros(0),
        );
        let cell = match value {
            Some(v) => cell.with_value(v.to_string()),
            None => cell,
        };
        row.add_cell(column_id.to_string(), cell);
    }
    row
}

fn resolve(template: &str, columns: &[Column], row: &Row) -> Result<String, Vec<String>> {
    materialize_prompt(template, row, columns).map_err(|e| e.missing)
}

#[test]
fn missing_names_are_listed_once_in_first_seen_order() {
    let columns = vec![named("a", "Known")];
    let row = row_of(&[("a", Some("v"))]);
    let error =
        materialize_prompt("{{B}} {{Known}} {{A}} {{B}} {{ A }}", &row, &columns).unwrap_err();
    assert_eq!(error.missing, vec!["B", "A"]);
    assert_eq!(error.message(), "Referenced columns not found: B, A");
    let single = MaterializeError { missing: vec!["Product".to_string()] };
    assert_eq!(single.message(), "Referenced columns not found: Product");
}

#[test]
fn a_template_without_placeholders_is_returned_unchanged() {
    let row = Row::new(0);
    assert_eq!(resolve("", &[], &row), Ok("".to_string()));
    assert_eq!(resolve("plain text", &[], &row), Ok("plain text".to_string()));
    assert_eq!(resolve("{{}} {a} {{a} {{ }x}", &[], &row), Ok("{{}} {a} {{a} {{ }x}".to_string()));
}

#[test]
fn names_are_trimmed_and_the_text_as_written_is_replaced() {
    let columns = vec![named("a", "Product")];
    let row = row_of(&[("a", Some("iPhone"))]);
    assert_eq!(
        resolve("{{ Product }}/{{Product}}/{{\u{a0}Product\u{3000}\t}}", &columns, &row),
        Ok("iPhone/iPhone/iPhone".to_string())
    );
    // The name looked up is the trimmed one; inner whitespace counts.
    assert_eq!(resolve("{{Pro duct}}", &columns, &row), Err(vec!["Pro duct".to_string()]));
    // A placeholder of whitespace alone refers to the empty name.
    assert_eq!(resolve("{{ }}", &columns, &row), Err(vec!["".to_string()]));
}

#[test]
fn a_row_without_a_value_gives_an_empty_string() {
    let columns = vec![named("a", "A"), named("b", "B")];
    let row = row_of(&[("a", None)]);
    assert_eq!(resolve("[{{A}}][{{B}}]", &columns, &row), Ok("[][]".to_string()));
}

#[test]
fn the_first_column_of_a_name_is_used() {
    let columns = vec![named("a", "Same"), named("b", "Same")];
    let row = row_of(&[("a", Some("first")), ("b", Some("second"))]);
    assert_eq!(resolve("{{Same}}", &columns, &row), Ok("first".to_string()));
}

#[test]
fn values_are_not_scanned_for_placeholders() {
    let columns = vec![named("a", "A"), named("b", "B"), named("c", "C")];
    let row = row_of(&[("a", Some("{{C}} and {{A}}")), ("b", Some("b")), ("c", Some("c"))]);
    // {{C}} came in with a value and is no placeholder of the template.
    assert_eq!(resolve("{{A}}", &columns, &row), Ok("{{C}} and {{A}}".to_string()));
    // A repeated placeholder is resolved once, however often it occurs.
    assert_eq!(
        resolve("{{A}} {{A}}", &columns, &row),
        Ok("{{C}} and {{A}} {{C}} and {{A}}".to_string())
    );
    // A placeholder of the template is replaced wherever it stands by then.
    let row = row_of(&[("a", Some("<{{B}}>")), ("b", Some("b"))]);
    assert_eq!(resolve("{{A}} {{B}}", &columns, &row), Ok("<b> b".to_string()));
}

#[test]
fn nothing_is_returned_half_resolved() {
    let columns = vec![named("a", "A")];
    let row = row_of(&[("a", Some("v"))]);
    assert_eq!(resolve("{{A}} {{Missing}}", &columns, &row), Err(vec!["Missing".to_string()]));
}

#[test]
fn placeholders_are_found_as_the_pattern_says() {
    let pattern = regex::Regex::new(r"\{\{([^}]+)\}\}").unwrap();
    let inputs = [
        "",
        "{{a}}",
        "x{{a}}y{{b}}z",
        "{{}}",
        "{{a}",
        "{a}}",
        "{{{a}}",
        "{{a}}}",
        "{{a{{b}}",
        "{{a}b}}",
        "{{a}}{{b}}",
        "{{ a b }}",
        "{{\n}}",
        "{{{{{{",
        "}}}}{{x}}",
        "{{é}} ü {{日本}}",
        "{{a}}{{",
        "{ {a}}",
        "{{a} }",
        "{{{{a}}}}",
        "{{a}{{b}}",
    ];
    for input in inputs {
        let chars: Vec<char> = input.chars().collect();
        let byte_offsets: Vec<usize> =
            input.char_indices().map(|(i, _)| i).chain([input.len()]).collect();
        let expected: Vec<(usize, usize)> = pattern
            .find_iter(input)
            .map(|m| {
                (
                    byte_offsets.iter().position(|&b| b == m.start()).unwrap(),
                    byte_offsets.iter().position(|&b| b == m.end()).unwrap(),
                )
            })
            .collect();
        assert_eq!(find_placeholders(&chars), expected, "in {:?}", input);
    }
}

#[test]
fn whitespace_is_what_the_standard_library_calls_whitespace() {
    for code in 0..0x11000u32 {
        if let Some(c) = char::from_u32(code) {
            assert_eq!(char_is_whitespace(c), c.is_whitespace(), "U+{:04X}", code);
        }
    }
}

#[test]
fn trim_range_trims_like_str_trim() {
    for input in ["", " ", "a", " a", "a ", "  a b  ", "\t\u{a0}x\u{2003}\n", " \u{3000} "] {
        let padded = format!("<<{}>>", input);
        let chars: Vec<char> = padded.chars().collect();
        let (from, to) = trim_range(&chars, 2, chars.len() - 2);
        let trimmed: String = chars[from..to].iter().collect();
        assert_eq!(trimmed, input.trim(), "for {:?}", input);
    }
}

#[test]
fn replace_chars_replaces_like_str_replace() {
    let cases = [
        ("", "a", "b"),
        ("aaa", "a", "b"),
        ("aaa", "aa", "b"),
        ("abcabc", "bc", ""),
        ("abcabc", "abcabc", "x"),
        ("abc", "abcd", "x"),
        ("ababab", "aba", "<aba>"),
        ("{{a}} and {{a}}", "{{a}}", "{{a}}{{a}}"),
        ("héllo wörld", "ö", "oe"),
    ];
    for (text, pattern, with) in cases {
        let replaced = replace_chars(&to_chars(text), &to_chars(pattern), &to_chars(with));
        assert_eq!(from_chars(&replaced), text.replace(pattern, with), "{:?}", (text, pattern, with));
    }
    // An empty pattern occurs nowhere.
    assert_eq!(from_chars(&replace_chars(&to_chars("abc"), &Vec::new(), &to_chars("x"))), "abc");
}

#[test]
fn strings_and_characters_convert_both_ways() {
    for text in ["", "plain", "héllo 日本 🦀", "{{x}}"] {
        let chars = to_chars(text);
        assert_eq!(chars, text.chars().collect::<Vec<char>>());
        assert_eq!(from_chars(&chars), text);
    }
    assert!(str_eq("", ""));
    assert!(str_eq("日本", "日本"));
    assert!(!str_eq("a", "b"));
    assert!(!str_eq("a", "ab"));
    assert!(!str_eq("é", "e\u{301}"));
}
