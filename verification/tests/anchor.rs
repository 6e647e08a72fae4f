use critic::anchor::example::{Example, ParseStanzaError};
use critic::anchor::{Anchor, AnchorDialect, AnchorParseError, SuperAnchorDialect};

#[test]
fn test_get_by_name() {
    assert_eq!(
        AnchorDialect::get_by_name("example"),
        Some(AnchorDialect::Example)
    );
    assert_eq!(AnchorDialect::get_by_name("does not exist"), None);
}

#[test]
fn known_good_stanza() {
    let stanza: Anchor = AnchorDialect::Example.parse("1").unwrap();
    assert_eq!(stanza, Anchor::Example(Example::One));

    let stanza: Anchor = AnchorDialect::Example.parse("2").unwrap();
    assert_eq!(stanza, Anchor::Example(Example::Two));
}

#[test]
fn stanza_errors() {
    assert_eq!(Example::from_str(""), Err(ParseStanzaError::EmptyString));
    assert_eq!(Example::from_str("12"), Err(ParseStanzaError::TooManyChars));
    assert_eq!(Example::from_str("é"), Err(ParseStanzaError::TooManyChars));
    assert_eq!(Example::from_str("3"), Err(ParseStanzaError::NotInRange));
    assert_eq!(Example::from_str("0"), Err(ParseStanzaError::NotInRange));
    assert_eq!(Example::from_str("x"), Err(ParseStanzaError::NotANumber));
    assert_eq!(Example::from_str("+"), Err(ParseStanzaError::NotANumber));
    assert_eq!(
        AnchorDialect::Example.parse("7"),
        Err(AnchorParseError::Example(ParseStanzaError::NotInRange))
    );
}

#[test]
fn stanza_messages() {
    assert_eq!(
        ParseStanzaError::EmptyString.to_string(),
        "Empty String is no valid stanza number."
    );
    assert_eq!(
        ParseStanzaError::TooManyChars.to_string(),
        "More then one character is no valid stanza number."
    );
    assert_eq!(
        ParseStanzaError::NotANumber.to_string(),
        "The Argument is not a number."
    );
    assert_eq!(
        AnchorParseError::Example(ParseStanzaError::NotInRange).to_string(),
        "The Argument is not either 1 or 2."
    );
}

#[test]
fn anchor_text_is_read_back() {
    for anchor in [Anchor::Example(Example::One), Anchor::Example(Example::Two)] {
        let dialect = anchor.forgetful_functor();
        assert_eq!(dialect, AnchorDialect::Example);
        assert_eq!(dialect.parse(&anchor.to_string()), Ok(anchor));
    }
    assert_eq!(Anchor::Example(Example::One).to_string(), "1");
    assert_eq!(Anchor::Example(Example::Two).to_string(), "2");
}
