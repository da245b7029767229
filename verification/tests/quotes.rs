use unquote::tokenize;

fn words(items: &[&str]) -> Vec<String> {
    items.iter().map(|w| w.to_string()).collect()
}

#[test]
fn quoted_blanks_round_trip() {
    assert_eq!(tokenize("'a b'"), Ok(words(&["a b"])));
    assert_eq!(tokenize("\"a b\""), Ok(words(&["a b"])));
}

#[test]
fn every_blank_is_kept_inside_quotes() {
    assert_eq!(tokenize("' \t\r\n'"), Ok(words(&[" \t\r\n"])));
    assert_eq!(tokenize("\" \t\r\n\""), Ok(words(&[" \t\r\n"])));
}

#[test]
fn empty_quotes_are_an_empty_word() {
    assert_eq!(tokenize("\"\""), Ok(words(&[""])));
    assert_eq!(tokenize("''"), Ok(words(&[""])));
    assert_eq!(tokenize("\"\"\"\""), Ok(words(&[""])));
    assert_eq!(tokenize("''\"\"''"), Ok(words(&[""])));
    assert_eq!(tokenize(" '' "), Ok(words(&[""])));
    assert_eq!(tokenize("'' \"\""), Ok(words(&["", ""])));
    assert_eq!(tokenize("a '' b"), Ok(words(&["a", "", "b"])));
}

#[test]
fn empty_quotes_add_nothing_to_a_word() {
    assert_eq!(tokenize("a\"\""), Ok(words(&["a"])));
    assert_eq!(tokenize("''a"), Ok(words(&["a"])));
    assert_eq!(tokenize("a''b\"\"c"), Ok(words(&["abc"])));
}

#[test]
fn quoted_and_plain_text_join() {
    assert_eq!(tokenize("hello' friend 'bob"), Ok(words(&["hello friend bob"])));
    assert_eq!(tokenize("'a'\"b\"c"), Ok(words(&["abc"])));
    assert_eq!(tokenize("a\"b c\"'d e'f g"), Ok(words(&["ab cd ef", "g"])));
    assert_eq!(tokenize("--name=\"J. Doe\""), Ok(words(&["--name=J. Doe"])));
}

#[test]
fn the_other_quote_is_text_inside_quotes() {
    assert_eq!(tokenize("'\"'"), Ok(words(&["\""])));
    assert_eq!(tokenize("\"'\""), Ok(words(&["'"])));
    assert_eq!(tokenize("\"it's\" 'say \"hi\"'"), Ok(words(&["it's", "say \"hi\""])));
}

#[test]
fn unknown_escape_in_single_quotes_is_text() {
    assert_eq!(tokenize("'a\\xb'"), Ok(words(&["a\\xb"])));
    assert_eq!(tokenize("'\\d+\\.\\d*'"), Ok(words(&["\\d+\\.\\d*"])));
    assert_eq!(tokenize("'a\\ b'"), Ok(words(&["a\\ b"])));
}

#[test]
fn escaped_double_quote_in_single_quotes_is_text() {
    assert_eq!(tokenize("'a\\\"b'"), Ok(words(&["a\\\"b"])));
}

#[test]
fn escapes_in_single_quotes() {
    assert_eq!(tokenize("'a\\'b'"), Ok(words(&["a'b"])));
    assert_eq!(tokenize("'a\\\\b'"), Ok(words(&["a\\b"])));
    assert_eq!(tokenize("'\\\\'"), Ok(words(&["\\"])));
    assert_eq!(tokenize("'a\\tb\\nc\\rd'"), Ok(words(&["a\tb\nc\rd"])));
}

#[test]
fn escapes_in_double_quotes() {
    assert_eq!(tokenize("\"a\\\"b\""), Ok(words(&["a\"b"])));
    assert_eq!(tokenize("\"a\\\\b\""), Ok(words(&["a\\b"])));
    assert_eq!(tokenize("\"\\\\\""), Ok(words(&["\\"])));
    assert_eq!(tokenize("\"a\\tb\\nc\\rd\""), Ok(words(&["a\tb\nc\rd"])));
}

#[test]
fn text_goes_on_after_an_escape_in_quotes() {
    assert_eq!(tokenize("\"say \\\"hi\\\" twice\""), Ok(words(&["say \"hi\" twice"])));
    assert_eq!(tokenize("'don\\'t stop'"), Ok(words(&["don't stop"])));
}

fn requoted(word: &str) -> String {
    let mut out = String::from("\"");
    for c in word.chars() {
        if c == '"' || c == '\\' {
            out.push('\\');
        }
        out.push(c);
    }
    out.push('"');
    out
}

#[test]
fn a_requoted_word_reads_back_as_itself() {
    let samples = [
        "",
        "plain",
        "two words",
        " \t\r\n",
        "it's",
        "say \"hi\"",
        "back\\slash",
        "\\",
        "\"",
        "\\\"",
        "\\n is not a newline here",
        "tab\there",
        "ünï cödé 日本語",
        "'single' and \"double\" and \\ mixed",
    ];
    for word in samples {
        assert_eq!(tokenize(&requoted(word)), Ok(words(&[word])));
    }
}

#[test]
fn every_word_of_a_result_can_be_requoted() {
    let inputs = ["a 'b c' \"d\\\"e\" f\\\\g ''", "\\t x'\\y'z \"\\\\\""];
    for input in inputs {
        for word in tokenize(input).unwrap() {
            assert_eq!(tokenize(&requoted(&word)), Ok(vec![word.clone()]));
        }
    }
}
