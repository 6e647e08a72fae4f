use critic::anchor::example::Example as Stanza;
use critic::anchor::Anchor;
use critic::atg::normalize::{
    AnchoredNormalisedText, NonAgnosticAnchoredText, UniqueSurfacePart, Word, WordNormalForm,
};
use critic::language::example::{Example, ExampleLex, ExampleMorph, ExampleMorphRange};
use critic::language::lex::LexParseError;
use critic::language::morph::{MorphPointParseError, MorphRangeParseError};
use critic::language::{Language, LexSchema, MorphPointSchema, MorphRangeSchema, SuperLanguage};
use critic::lex::{IntoLexWordError, LexWordData, LexWordDataHumanReadable};

fn word(s: &str) -> Word {
    Word {
        parts: vec![UniqueSurfacePart::Native(s.to_owned())],
    }
}

#[test]
fn languages_by_name() {
    assert_eq!(Language::from_name("example"), Some(Language::Example));
    assert_eq!(Language::from_name("Example"), None);
    assert_eq!(Language::from_name(""), None);
    assert_eq!(Language::Example.to_string(), "example");
    assert_eq!(
        Language::from_name(&Language::Example.to_string()),
        Some(Language::Example)
    );
}

#[test]
fn the_example_language_keeps_the_surface_form() {
    let one = Anchor::Example(Stanza::One);
    let input = AnchoredNormalisedText {
        text: vec![(word("ab"), "ab".to_owned()), (word("c"), "x".to_owned())],
        anchor_positions: vec![(one, 1)],
    };
    let expected = NonAgnosticAnchoredText::new(
        vec![
            WordNormalForm::new(word("ab"), "ab".to_owned(), None),
            WordNormalForm::new(word("c"), "x".to_owned(), None),
        ],
        vec![(one, 1)],
    );
    let copy = AnchoredNormalisedText {
        text: input.text.clone(),
        anchor_positions: input.anchor_positions.clone(),
    };
    assert_eq!(Language::Example.normalise(input), expected);
    assert_eq!(Example::normalise(copy), expected);
    assert_eq!(expected.text[1].display_form(), "x");
}

#[test]
fn lexemes_of_the_example() {
    assert_eq!(ExampleLex::NAME, "lex_example");
    assert_eq!(ExampleLex::from_str("17"), Ok(ExampleLex { id: 17 }));
    assert_eq!(ExampleLex::from_str("65535"), Ok(ExampleLex { id: 65535 }));
    assert_eq!(ExampleLex::from_str("+3"), Ok(ExampleLex { id: 3 }));
    for bad in ["65536", "", "-1", "1a", "99999999999999999999"] {
        assert_eq!(
            ExampleLex::from_str(bad),
            Err(LexParseError::new(0, "Not a Number.".to_owned()))
        );
    }
    for id in [0u16, 9, 10, 1234, 65535] {
        let lex = ExampleLex { id };
        assert_eq!(lex.to_string(), id.to_string());
        assert_eq!(ExampleLex::from_str(&lex.to_string()), Ok(lex));
    }
    assert_eq!(
        LexParseError::new(3, "Not a Number.".to_owned()).to_string(),
        "Error parsing Lex at byte 3: Not a Number.."
    );
}

#[test]
fn morphology_of_the_example() {
    assert_eq!(ExampleMorph::NAME, "morph_example");
    assert_eq!(ExampleMorph::from_str("V"), Ok(ExampleMorph::Verb));
    assert_eq!(ExampleMorph::from_str("N"), Ok(ExampleMorph::Noun));
    assert_eq!(
        ExampleMorph::from_str("B"),
        Err(MorphPointParseError::new(0, "Not either V or N".to_owned()))
    );
    for tag in [ExampleMorph::Verb, ExampleMorph::Noun] {
        assert_eq!(ExampleMorph::from_str(&tag.to_string()), Ok(tag));
    }
    let ranges = [
        (ExampleMorphRange::Neither, "", false, false),
        (ExampleMorphRange::Verb, "V", true, false),
        (ExampleMorphRange::Noun, "N", false, true),
        (ExampleMorphRange::Both, "B", true, true),
    ];
    for (range, text, verb, noun) in ranges {
        assert_eq!(range.to_string(), text);
        assert_eq!(ExampleMorphRange::from_str(text), Ok(range));
        assert_eq!(range.contains(&ExampleMorph::Verb), verb);
        assert_eq!(range.contains(&ExampleMorph::Noun), noun);
        assert_eq!(ExampleMorph::Verb.is_in(&range), verb);
        assert_eq!(ExampleMorph::Noun.is_in(&range), noun);
    }
    assert_eq!(
        ExampleMorphRange::from_str("VN"),
        Err(MorphRangeParseError::new(0, "Not either V or N".to_owned()))
    );
    assert_eq!(
        MorphPointParseError::new(12, "x".to_owned()).to_string(),
        "Error parsing MorphPoint at byte 12: x."
    );
    assert_eq!(
        MorphRangeParseError::new(0, "y".to_owned()).to_string(),
        "Error parsing MorphRange at byte 0: y."
    );
}

#[test]
fn ser_de_lex_word_data() {
    let word = word("some");
    let lexworddata = LexWordData::new(
        word.clone(),
        "some".to_owned(),
        None,
        "1".to_owned(),
        "N".to_owned(),
    );
    let ser = lexworddata.to_toml_str();
    let table: toml::Table = toml::from_str(&ser).unwrap();
    let field = |name: &str| table.get(name).and_then(|v| v.as_str()).map(|s| s.to_owned());
    let deser = LexWordDataHumanReadable {
        display_form: field("display_form").unwrap(),
        compare_form: field("compare_form"),
        lexeme_id: field("lexeme_id").unwrap(),
        morph: field("morph").unwrap(),
    };
    let enriched = deser.enrich_to_lex_word_data(word);
    assert_eq!(enriched, lexworddata);
}

#[test]
fn the_lines_of_a_word() {
    let data = LexWordData::new(
        word("some"),
        "some".to_owned(),
        Some("sm".to_owned()),
        "1".to_owned(),
        "N".to_owned(),
    );
    assert_eq!(
        data.to_toml_str(),
        "display_form = \"some\"\ncompare_form = \"sm\"\nlexeme_id = \"1\"\nmorph = \"N\"\n"
    );
    let data = LexWordData::new(
        word("some"),
        "some".to_owned(),
        None,
        "1".to_owned(),
        "N".to_owned(),
    );
    assert_eq!(
        data.to_toml_str(),
        "display_form = \"some\"\nlexeme_id = \"1\"\nmorph = \"N\"\n"
    );
}

#[test]
fn lexeme_and_morphology_are_read() {
    let data = |lexeme: &str, morph: &str| {
        LexWordData::new(
            word("some"),
            "some".to_owned(),
            Some("sm".to_owned()),
            lexeme.to_owned(),
            morph.to_owned(),
        )
    };
    let read = data("12", "V").into_lex_word::<Example>().ok().unwrap();
    assert_eq!(read.lexeme_id, ExampleLex { id: 12 });
    assert_eq!(read.morph, ExampleMorph::Verb);
    assert_eq!(
        read.word,
        WordNormalForm::new(word("some"), "some".to_owned(), Some("sm".to_owned()))
    );
    let bad_lexeme = data("x", "?").into_lex_word::<Example>().err().unwrap();
    assert_eq!(
        bad_lexeme,
        IntoLexWordError::LexParsing(LexParseError::new(0, "Not a Number.".to_owned()))
    );
    assert_eq!(
        bad_lexeme.to_string(),
        "Error parsing Lex at byte 0: Not a Number.."
    );
    let bad_morph = data("12", "?").into_lex_word::<Example>().err().unwrap();
    assert_eq!(
        bad_morph,
        IntoLexWordError::MorphParsing(MorphPointParseError::new(
            0,
            "Not either V or N".to_owned()
        ))
    );
    assert_eq!(
        bad_morph.to_string(),
        "Error parsing MorphPoint at byte 0: Not either V or N."
    );
}
