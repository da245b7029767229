use unquote::tokenize;

fn words(items: &[&str]) -> Vec<String> {
    items.iter().map(|w| w.to_string()).collect()
}

#[test]
fn escapes_outside_quotes() {
    assert_eq!(tokenize("\\\\"), Ok(words(&["\\"])));
    assert_eq!(tokenize("\\t"), Ok(words(&["\t"])));
    assert_eq!(tokenize("\\n"), Ok(words(&["\n"])));
    assert_eq!(tokenize("\\r"), Ok(words(&["\r"])));
}

#[test]
fn an_escape_is_part_of_the_word_it_stands_in() {
    assert_eq!(tokenize("a\\nb"), Ok(words(&["a\nb"])));
    assert_eq!(tokenize("a\\\\b"), Ok(words(&["a\\b"])));
    assert_eq!(tokenize("\\tb"), Ok(words(&["\tb"])));
    assert_eq!(tokenize("a\\r"), Ok(words(&["a\r"])));
    assert_eq!(tokenize("a\\tb c\\nd"), Ok(words(&["a\tb", "c\nd"])));
}

#[test]
fn escaped_quotes_inside_a_word() {
    assert_eq!(tokenize("it\\'s"), Ok(words(&["it's"])));
    assert_eq!(tokenize("a\\\"b"), Ok(words(&["a\"b"])));
    assert_eq!(tokenize("\\'a b\\'"), Ok(words(&["'a", "b'"])));
}

#[test]
fn escapes_in_a_row() {
    assert_eq!(tokenize("\\t\\n\\r\\\\\\'\\\""), Ok(words(&["\t\n\r\\'\""])));
}

#[test]
fn an_escaped_blank_makes_no_separator() {
    assert_eq!(tokenize("a\\tb"), Ok(words(&["a\tb"])));
    assert_eq!(tokenize("'a\\nb'"), Ok(words(&["a\nb"])));
}

#[test]
fn an_escape_next_to_a_quoted_region() {
    assert_eq!(tokenize("\\n'a b'"), Ok(words(&["\na b"])));
    assert_eq!(tokenize("\"a b\"\\\\"), Ok(words(&["a b\\"])));
}
