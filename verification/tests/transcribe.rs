use critic::anchor::example::Example as Stanza;
use critic::anchor::{Anchor, AnchorDialect};
use critic::atg::dialect::{AtgDialectList, AtgDialectUnknown, ExampleAtgDialect};
use critic::atg::normalize::{
    NonAgnosticAnchoredText, NormalisedAtgBlock, UniqueAtgBlock, UniqueSurfacePart, UniqueText,
    Word, WordNormalForm,
};
use critic::atg::{AtgBlock, AtgParseError, AtgParseErrorReason, Text};
use critic::define::{Witness, WitnessMetadata};
use critic::language::Language;
use critic::transcribe::io::{
    FolioTranscriptParseError, FolioTranscriptParseErrorReason, TranscriptIterator,
};
use critic::transcribe::{
    FolioEntry, FolioTranscript, FolioTranscriptMetadata, NormalisedFolioTranscript,
    TranscriptBlock,
};

fn witness(hands: usize, defaults: bool) -> WitnessMetadata {
    let default = |s: &str| if defaults { Some(s.to_owned()) } else { None };
    WitnessMetadata::new(
        "example witness".to_owned(),
        vec!["name1".to_owned()],
        (0..hands).map(|i| format!("hand {i}")).collect(),
        default("example"),
        default("example"),
        default("example"),
    )
}

fn block(
    atg: Option<&str>,
    anchor: Option<&str>,
    language: Option<&str>,
    transcript: &str,
) -> TranscriptBlock {
    TranscriptBlock {
        atg: atg.map(|s| s.to_owned()),
        anchor: anchor.map(|s| s.to_owned()),
        language: language.map(|s| s.to_owned()),
        transcript: transcript.to_owned(),
    }
}

fn parse(input: &str, hands: usize) -> Text {
    Text::parse::<ExampleAtgDialect>(input, AnchorDialect::Example, hands).unwrap()
}

fn metadata() -> FolioTranscriptMetadata {
    FolioTranscriptMetadata::new(
        "John Doe".to_owned(),
        vec!["Alice".to_owned(), "Bob".to_owned()],
    )
}

fn toml_error() -> toml::de::Error {
    toml::from_str::<toml::Table>("key = \nother").unwrap_err()
}

#[test]
fn folio_parse() {
    // the tables of
    //   [metadata] transcriber = "John Doe", editors = ["Alice", "Bob"]
    //   [1] atg, anchor and language "example", transcript "this is §(1) my transcript"
    //   [2] atg and anchor "example", transcript "some other t^(2)(ra)nscript\n"
    // in the order in which the reader of the file gives them
    let entries = vec![
        FolioEntry::Block(
            "1".to_owned(),
            Ok(block(
                Some("example"),
                Some("example"),
                Some("example"),
                "this is §(1) my transcript",
            )),
        ),
        FolioEntry::Block(
            "2".to_owned(),
            Ok(block(
                Some("example"),
                Some("example"),
                None,
                "some other t^(2)(ra)nscript\n",
            )),
        ),
        FolioEntry::Metadata(Ok(metadata())),
    ];
    let witness_metadata = WitnessMetadata::new(
        "example witness".to_owned(),
        vec!["name1".to_owned()],
        vec![],
        None,
        None,
        None,
    );
    let res = FolioTranscript::from_folio_file_content(entries, &witness_metadata).unwrap();
    let dialect_blocks = vec![
        AtgBlock::new(
            parse("this is §(1) my transcript", 0),
            Language::Example,
            AtgDialectList::Example,
        ),
        AtgBlock::new(
            parse("some other t^(2)(ra)nscript", 0),
            Language::Example,
            AtgDialectList::Example,
        ),
    ];
    assert_eq!(res, FolioTranscript::new(metadata(), dialect_blocks));
}

fn text_field(table: &toml::Table, name: &str) -> Option<String> {
    table.get(name).and_then(|v| v.as_str()).map(|s| s.to_owned())
}

fn entries_of(file: &str) -> Vec<FolioEntry> {
    let document: toml::Table = toml::from_str(file).unwrap();
    document
        .into_iter()
        .map(|(key, value)| {
            let table = value.as_table().unwrap().clone();
            if key == "metadata" {
                let editors = table
                    .get("editors")
                    .and_then(|v| v.as_array())
                    .unwrap()
                    .iter()
                    .map(|v| v.as_str().unwrap().to_owned())
                    .collect();
                FolioEntry::Metadata(Ok(FolioTranscriptMetadata::new(
                    text_field(&table, "transcriber").unwrap(),
                    editors,
                )))
            } else {
                FolioEntry::Block(
                    key,
                    Ok(TranscriptBlock {
                        atg: text_field(&table, "atg"),
                        anchor: text_field(&table, "anchor"),
                        language: text_field(&table, "language"),
                        transcript: text_field(&table, "transcript").unwrap(),
                    }),
                )
            }
        })
        .collect()
}

#[test]
fn folio_parse_of_a_file() {
    let input = r#"
[metadata]
transcriber = "John Doe"
editors = ["Alice", "Bob"]

[1]
atg = "example"
anchor = "example"
language = "example"
transcript = '''
this is §(1) my transcript'''

[2]
atg = "example"
anchor = "example"
transcript = '''
some other t^(2)(ra)nscript
'''
"#;
    let witness_metadata = witness(0, false);
    let res =
        FolioTranscript::from_folio_file_content(entries_of(input), &witness_metadata).unwrap();
    let dialect_blocks = vec![
        AtgBlock::new(
            parse("this is §(1) my transcript", 0),
            Language::Example,
            AtgDialectList::Example,
        ),
        AtgBlock::new(
            parse("some other t^(2)(ra)nscript", 0),
            Language::Example,
            AtgDialectList::Example,
        ),
    ];
    assert_eq!(res, FolioTranscript::new(metadata(), dialect_blocks));
}

fn folio_error(entries: Vec<FolioEntry>, witness: &WitnessMetadata) -> FolioTranscriptParseError {
    FolioTranscript::from_folio_file_content(entries, witness).unwrap_err()
}

fn plain(reason: FolioTranscriptParseErrorReason) -> FolioTranscriptParseError {
    FolioTranscriptParseError::new(reason, None)
}

#[test]
fn folio_errors() {
    let defaults = witness(1, true);
    let bare = witness(1, false);
    let good = || Ok(block(None, None, None, "a"));
    assert_eq!(
        folio_error(vec![FolioEntry::Block("1".to_owned(), good())], &defaults),
        plain(FolioTranscriptParseErrorReason::NoMetadata)
    );
    assert_eq!(
        folio_error(vec![], &defaults),
        plain(FolioTranscriptParseErrorReason::NoMetadata)
    );
    assert_eq!(
        folio_error(vec![FolioEntry::Block("one".to_owned(), good())], &defaults),
        plain(FolioTranscriptParseErrorReason::BlockNameNotDecimal(
            "one".to_owned()
        ))
    );
    assert_eq!(
        folio_error(vec![FolioEntry::Block("256".to_owned(), good())], &defaults),
        plain(FolioTranscriptParseErrorReason::BlockNameNotDecimal(
            "256".to_owned()
        ))
    );
    assert_eq!(
        folio_error(vec![FolioEntry::Block("2".to_owned(), good())], &defaults),
        plain(FolioTranscriptParseErrorReason::BlockNameNotInAscendingOrder(2))
    );
    assert_eq!(
        folio_error(
            vec![
                FolioEntry::Block("1".to_owned(), good()),
                FolioEntry::Block("10".to_owned(), good()),
            ],
            &defaults
        ),
        plain(FolioTranscriptParseErrorReason::BlockNameNotInAscendingOrder(10))
    );
    assert_eq!(
        folio_error(vec![FolioEntry::Block("0".to_owned(), good())], &defaults),
        plain(FolioTranscriptParseErrorReason::BlockNameNotInAscendingOrder(0))
    );
    assert_eq!(
        folio_error(vec![FolioEntry::Block("1".to_owned(), good())], &bare),
        plain(FolioTranscriptParseErrorReason::NoAtg)
    );
    assert_eq!(
        folio_error(
            vec![FolioEntry::Block(
                "1".to_owned(),
                Ok(block(Some("example"), None, None, "a"))
            )],
            &bare
        ),
        plain(FolioTranscriptParseErrorReason::NoAnchor)
    );
    assert_eq!(
        folio_error(
            vec![FolioEntry::Block(
                "1".to_owned(),
                Ok(block(Some("other"), Some("example"), None, "a"))
            )],
            &bare
        ),
        plain(FolioTranscriptParseErrorReason::LanguageUnknown(
            "other".to_owned()
        ))
    );
    assert_eq!(
        folio_error(
            vec![FolioEntry::Block(
                "1".to_owned(),
                Ok(block(Some("other"), Some("example"), Some("example"), "a"))
            )],
            &bare
        ),
        plain(FolioTranscriptParseErrorReason::AtgDialectUnknown(
            "other".to_owned()
        ))
    );
    assert_eq!(
        folio_error(
            vec![FolioEntry::Block(
                "1".to_owned(),
                Ok(block(None, Some("verses"), None, "a"))
            )],
            &defaults
        ),
        plain(FolioTranscriptParseErrorReason::AnchorDialectUnknown(
            "verses".to_owned()
        ))
    );
    assert_eq!(
        folio_error(
            vec![FolioEntry::Block(
                "1".to_owned(),
                Ok(block(None, None, None, "é^(x)"))
            )],
            &defaults
        ),
        plain(FolioTranscriptParseErrorReason::TranscriptUnparsable(
            "1".to_owned(),
            AtgParseError::new(4, AtgParseErrorReason::LengthNotANumber("x".to_owned()))
        ))
    );
    // the number of versions is that of the hands of the witness
    assert_eq!(
        folio_error(
            vec![FolioEntry::Block(
                "1".to_owned(),
                Ok(block(None, None, None, "&(a)(b)"))
            )],
            &defaults
        ),
        plain(FolioTranscriptParseErrorReason::TranscriptUnparsable(
            "1".to_owned(),
            AtgParseError::new(
                7,
                AtgParseErrorReason::IncorrectNumberOfCorrections(1, 2)
            )
        ))
    );
}

#[test]
fn folio_errors_of_the_reader() {
    let defaults = witness(1, true);
    let err = toml_error();
    let start = err.span().map(|range| range.start);
    assert!(start.is_some());
    let expected = FolioTranscriptParseError::new(
        FolioTranscriptParseErrorReason::Toml(err.clone()),
        start,
    );
    assert_eq!(FolioTranscriptParseError::from_toml(err.clone()), expected);
    assert_eq!(FolioTranscriptParseError::from(err.clone()), expected);
    assert_eq!(
        folio_error(vec![FolioEntry::Metadata(Err(err.clone()))], &defaults),
        expected
    );
    assert_eq!(
        folio_error(
            vec![FolioEntry::Block("1".to_owned(), Err(err.clone()))],
            &defaults
        ),
        expected
    );
    // the name of the table is looked at before the table
    assert_eq!(
        folio_error(
            vec![FolioEntry::Block("x".to_owned(), Err(err.clone()))],
            &defaults
        ),
        plain(FolioTranscriptParseErrorReason::BlockNameNotDecimal(
            "x".to_owned()
        ))
    );
    // the first table with which something is wrong ends the reading
    assert_eq!(
        folio_error(
            vec![
                FolioEntry::Block("3".to_owned(), Ok(block(None, None, None, "a"))),
                FolioEntry::Metadata(Err(err.clone())),
            ],
            &defaults
        ),
        plain(FolioTranscriptParseErrorReason::BlockNameNotInAscendingOrder(3))
    );
    assert_eq!(
        expected.to_string(),
        format!(
            "Error parsing folio transcript at {}: Error parsing file as toml: {}..",
            start.unwrap(),
            err
        )
    );
    assert_eq!(
        expected.reason.message_with("oops"),
        "Error parsing file as toml: oops."
    );
}

#[test]
fn messages_of_the_folio_errors() {
    assert_eq!(
        plain(FolioTranscriptParseErrorReason::NoMetadata).to_string(),
        "Error parsing folio transcript: The file did not contain a \"metadata\" block.."
    );
    assert_eq!(
        FolioTranscriptParseError::new(FolioTranscriptParseErrorReason::NoAtg, Some(12)).to_string(),
        "Error parsing folio transcript at 12: No ATG dialect was set either on the witness or on the folio.."
    );
    assert_eq!(
        FolioTranscriptParseErrorReason::NoAnchor.to_string(),
        "No anchor style was set either on the witness or on the folio."
    );
    assert_eq!(
        FolioTranscriptParseErrorReason::BlockNameNotDecimal("x".to_owned()).to_string(),
        "The blockname x must be a decimal."
    );
    assert_eq!(
        FolioTranscriptParseErrorReason::BlockNameNotInAscendingOrder(7).to_string(),
        "The blockname 7 needs to be exactly one higher then the last block name."
    );
    assert_eq!(
        FolioTranscriptParseErrorReason::AnchorDialectUnknown("v".to_owned()).to_string(),
        "The anchor dialect \"v\" is not known. Is critic compiled with the correct features?"
    );
    assert_eq!(
        FolioTranscriptParseErrorReason::LanguageUnknown("l".to_owned()).to_string(),
        "The language \"l\" is not known. Is critic compiled with the correct features?"
    );
    assert_eq!(
        FolioTranscriptParseErrorReason::AtgDialectUnknown("d".to_owned()).to_string(),
        "The ATG Dialect \"d\" does not exist. Is critic compiled with the correct features?"
    );
    assert_eq!(
        FolioTranscriptParseErrorReason::TranscriptUnparsable(
            "2".to_owned(),
            AtgParseError::new(3, AtgParseErrorReason::EOF(')'))
        )
        .to_string(),
        "While parsing transcript data for block 2, the following error occured: EOF was encountered while waiting for ) at 3."
    );
    assert_eq!(
        FolioTranscriptParseError::from(AtgDialectUnknown::new("d".to_owned())),
        plain(FolioTranscriptParseErrorReason::AtgDialectUnknown(
            "d".to_owned()
        ))
    );
}

#[test]
fn dialects_of_a_block() {
    let defaults = witness(1, true);
    let bare = witness(1, false);
    assert_eq!(
        block(None, None, None, "").select_dialects(&defaults),
        Ok(("example".to_owned(), Language::Example, AnchorDialect::Example))
    );
    // what the block names comes first
    assert_eq!(
        block(Some("mine"), None, None, "").select_dialects(&defaults),
        Ok(("mine".to_owned(), Language::Example, AnchorDialect::Example))
    );
    // the language goes by the ATG dialect where nothing names it
    assert_eq!(
        block(Some("example"), Some("example"), None, "").select_dialects(&bare),
        Ok(("example".to_owned(), Language::Example, AnchorDialect::Example))
    );
    assert_eq!(
        block(None, Some("example"), Some("example"), "").select_dialects(&bare),
        Err(plain(FolioTranscriptParseErrorReason::NoAtg))
    );
    assert_eq!(
        block(Some("example"), None, Some("latin"), "").select_dialects(&bare),
        Err(plain(FolioTranscriptParseErrorReason::LanguageUnknown(
            "latin".to_owned()
        )))
    );
}

#[test]
fn witness_metadata() {
    let meta = witness(2, true);
    assert_eq!(meta.folios(), &vec!["name1".to_owned()]);
    assert_eq!(meta.default_atg(), &Some("example".to_owned()));
    assert_eq!(meta.default_anchor(), &Some("example".to_owned()));
    assert_eq!(meta.default_language(), &Some("example".to_owned()));
    assert_eq!(meta.number_of_corrections(), 2);
    assert_eq!(witness(0, false).number_of_corrections(), 0);
    assert_eq!(witness(0, false).default_atg(), &None);
}

#[test]
fn the_folios_of_a_witness_are_named_in_order() {
    let meta = WitnessMetadata::new(
        "w".to_owned(),
        vec!["first".to_owned(), "second".to_owned(), "third".to_owned()],
        vec![],
        None,
        None,
        None,
    );
    let whole = Witness::new(meta);
    assert_eq!(whole.folio_names().len(), 3);
    let mut walk = whole.get_folios();
    assert_eq!(walk.witness_metadata(), &whole.metadata);
    assert_eq!(walk.next(), Some("first".to_owned()));
    assert_eq!(walk.next(), Some("second".to_owned()));
    assert_eq!(walk.next(), Some("third".to_owned()));
    assert_eq!(walk.next(), None);
    assert_eq!(walk.next(), None);
    let empty = witness(0, false);
    let empty = WitnessMetadata::new(empty.name, vec![], vec![], None, None, None);
    assert_eq!(TranscriptIterator::new(&empty).next(), None);
}

#[test]
fn blocks_by_dialect_name() {
    let text = parse("a", 1);
    assert_eq!(
        AtgBlock::from_dialect_name(text.clone(), Language::Example, "example".to_owned()),
        Ok(AtgBlock::new(
            text.clone(),
            Language::Example,
            AtgDialectList::Example
        ))
    );
    assert_eq!(
        AtgBlock::from_dialect_name(text, Language::Example, "nope".to_owned()),
        Err(AtgDialectUnknown::new("nope".to_owned()))
    );
}

fn form(s: &str) -> WordNormalForm {
    WordNormalForm::new(
        Word {
            parts: vec![UniqueSurfacePart::Native(s.to_owned())],
        },
        s.to_owned(),
        None,
    )
}

#[test]
fn a_block_is_normalised_for_each_hand() {
    let block = AtgBlock::new(
        parse("one &(first)(second) §(2)end.", 2),
        Language::Example,
        AtgDialectList::Example,
    );
    assert!(block.is_normalisable());
    let uniques = AtgBlock::new(block.text.clone(), block.language, block.atg_dialect)
        .into_unique_blocks();
    assert_eq!(uniques.len(), 2);
    assert_eq!(
        uniques[1],
        UniqueAtgBlock::new(
            block.text.unique_text(1),
            Language::Example,
            AtgDialectList::Example
        )
    );
    assert!(uniques[1].is_normalisable());
    let normalised = block.into_normalised_blocks();
    assert_eq!(normalised.len(), 2);
    let two = Anchor::Example(Stanza::Two);
    for (hand, version) in ["first", "second"].into_iter().enumerate() {
        assert_eq!(
            normalised[hand],
            NormalisedAtgBlock {
                text: NonAgnosticAnchoredText::new(
                    vec![form("one"), form(version), form("end"), form(".")],
                    vec![(two, 2)],
                ),
                language: Language::Example,
                atg_dialect: AtgDialectList::Example,
            }
        );
    }
    let mut uniques = uniques;
    assert_eq!(
        uniques.remove(0).normalise(Language::Example),
        normalised[0]
    );
    assert_eq!(
        UniqueAtgBlock::new(
            UniqueText::new(),
            Language::Example,
            AtgDialectList::Example
        )
        .normalise(Language::Example)
        .text,
        NonAgnosticAnchoredText::new(vec![], vec![])
    );
}

#[test]
fn the_template_of_a_word() {
    assert_eq!(
        form("some").render_for_lex_file(2, 13),
        "[2.word13]\ndisplay_form = \"some\"\nlex = \"--TODO--\"\nmorph = \"--TODO--\"\n"
    );
    let compared = WordNormalForm::new(
        Word { parts: vec![] },
        "Some".to_owned(),
        Some("some".to_owned()),
    );
    assert_eq!(
        compared.render_for_lex_file(1, 1),
        "[1.word1]\ndisplay_form = \"Some\"\ncompare_form = \"some\"\nlex = \"--TODO--\"\nmorph = \"--TODO--\"\n"
    );
}

fn entry(block: usize, index: usize, s: &str) -> String {
    format!(
        "[{block}.word{index}]\ndisplay_form = \"{s}\"\nlex = \"--TODO--\"\nmorph = \"--TODO--\"\n\n"
    )
}

#[test]
fn the_template_of_a_text() {
    let one = Anchor::Example(Stanza::One);
    let two = Anchor::Example(Stanza::Two);
    let text = NonAgnosticAnchoredText::new(
        vec![form("a"), form("b"), form("c")],
        vec![(one, 0), (two, 2), (one, 2)],
    );
    let expected = format!(
        "# \n\n[anchor.1]\n# a b \n{}{}\n[anchor.2]\n# \n\n[anchor.1]\n# c \n{}",
        entry(3, 1, "a"),
        entry(3, 2, "b"),
        entry(3, 3, "c")
    );
    assert_eq!(text.render_for_lex_file(3), expected);
    let no_anchor = NonAgnosticAnchoredText::new(vec![form("a")], vec![]);
    assert_eq!(
        no_anchor.render_for_lex_file(1),
        format!("# a \n{}", entry(1, 1, "a"))
    );
    let empty = NonAgnosticAnchoredText::new(vec![], vec![]);
    assert!(empty.is_well_formed());
    assert_eq!(empty.render_for_lex_file(1), "# \n");
    let beyond = NonAgnosticAnchoredText::new(vec![form("a")], vec![(one, 1), (two, 2)]);
    assert!(!beyond.is_well_formed());
    let misplaced = NormalisedFolioTranscript::new(
        metadata(),
        vec![NormalisedAtgBlock {
            text: beyond,
            language: Language::Example,
            atg_dialect: AtgDialectList::Example,
        }],
    );
    assert!(!misplaced.is_well_formed());
    // an anchor whose place lies before the words that were written adds none
    let back = NonAgnosticAnchoredText::new(vec![form("a"), form("b")], vec![(one, 2), (two, 1)]);
    assert_eq!(
        back.render_for_lex_file(1),
        format!(
            "# a b \n{}{}\n[anchor.1]\n# \n\n[anchor.2]\n# \n",
            entry(1, 1, "a"),
            entry(1, 2, "b")
        )
    );
}

#[test]
fn the_template_of_a_folio() {
    let folio = FolioTranscript::new(
        metadata(),
        vec![
            AtgBlock::new(
                parse("a &(x)(y)", 2),
                Language::Example,
                AtgDialectList::Example,
            ),
            AtgBlock::new(
                parse("§(1)b&(z)(w)", 2),
                Language::Example,
                AtgDialectList::Example,
            ),
        ],
    );
    assert!(folio.is_normalisable());
    let normalised = folio.normalise();
    assert_eq!(normalised.len(), 2);
    assert_eq!(normalised[0].metadata, metadata());
    assert_eq!(normalised[1].blocks.len(), 2);
    let header = "transcriber = \"John Doe\"\neditors = [\"Alice\", \"Bob\"]\n";
    let expected = format!(
        "{header}\n[1]\nlanguage = \"example\"\natg = \"example\"\n\n# a y \n{}{}[2]\nlanguage = \"example\"\natg = \"example\"\n\n# \n\n[anchor.1]\n# bw \n{}",
        entry(1, 1, "a"),
        entry(1, 2, "y"),
        entry(2, 1, "bw")
    );
    assert!(normalised[1].is_well_formed());
    assert_eq!(normalised[1].render_lex_file(header), expected);
    assert_eq!(
        normalised[0].blocks[1].render_for_lex_file(2),
        format!(
            "[2]\nlanguage = \"example\"\natg = \"example\"\n\n# \n\n[anchor.1]\n# bz \n{}",
            entry(2, 1, "bz")
        )
    );
}

#[test]
fn a_folio_without_blocks_has_one_hand() {
    let folio = FolioTranscript::new(metadata(), vec![]);
    assert!(folio.is_normalisable());
    assert_eq!(
        folio.normalise(),
        vec![NormalisedFolioTranscript::new(metadata(), vec![])]
    );
    assert_eq!(
        NormalisedFolioTranscript::new(metadata(), vec![]).render_lex_file("x = 1\n"),
        "x = 1\n\n"
    );
}

#[test]
fn the_hands_of_a_folio_are_those_of_its_first_block() {
    let with = |first: &str, second: &str, hands: usize| {
        FolioTranscript::new(
            metadata(),
            vec![
                AtgBlock::new(
                    parse(first, hands),
                    Language::Example,
                    AtgDialectList::Example,
                ),
                AtgBlock::new(
                    parse(second, hands),
                    Language::Example,
                    AtgDialectList::Example,
                ),
            ],
        )
    };
    // the second block has more hands than the first
    let folio = with("plain", "&(x)(y)", 2);
    assert!(folio.is_normalisable());
    assert_eq!(folio.normalise().len(), 1);
    // the second block has fewer
    assert!(!with("&(x)(y)", "plain", 2).is_normalisable());
}
