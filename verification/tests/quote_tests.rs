use env_secrets::quote::quote;

/// Reads one POSIX shell word made of single-quoted parts and
/// backslash-escaped characters; `None` where the text is anything else.
fn shell_unquote(text: &str) -> Option<String> {
    let mut out = String::new();
    let mut chars = text.chars();
    let mut in_quote = false;
    while let Some(c) = chars.next() {
        if in_quote {
            if c == '\'' {
                in_quote = false;
            } else {
                out.push(c);
            }
        } else if c == '\'' {
            in_quote = true;
        } else if c == '\\' {
            out.push(chars.next()?);
        } else {
            return None;
        }
    }
    if in_quote {
        None
    } else {
        Some(out)
    }
}

#[test]
fn quotes_a_plain_value() {
    assert_eq!(quote("value"), "'value'");
}

#[test]
fn quotes_the_empty_value() {
    assert_eq!(quote(""), "''");
}

#[test]
fn escapes_an_embedded_single_quote() {
    assert_eq!(quote("it's"), "'it'\\''s'");
}

#[test]
fn escapes_every_single_quote() {
    assert_eq!(quote("'"), "''\\'''");
    assert_eq!(quote("''"), "''\\'''\\'''");
    assert_eq!(quote("a'b'c"), "'a'\\''b'\\''c'");
}

#[test]
fn leaves_other_special_characters_alone() {
    assert_eq!(quote("$HOME `id` \"x\" \\ ; & |"), "'$HOME `id` \"x\" \\ ; & |'");
    assert_eq!(quote("two\nlines"), "'two\nlines'");
    assert_eq!(quote("caf\u{e9} \u{1f511}"), "'caf\u{e9} \u{1f511}'");
}

#[test]
fn quoted_values_read_back_unchanged() {
    let values = [
        "",
        "plain",
        "it's",
        "'",
        "''''",
        "a'b",
        "'leading",
        "trailing'",
        "with space",
        "$(rm -rf /)",
        "back\\slash",
        "\\'",
        "tab\tand\nnewline",
        "\u{fc}ber \u{1f600}",
    ];
    for value in values {
        assert_eq!(shell_unquote(&quote(value)), Some(value.to_string()), "value {value:?}");
    }
}
