use critic::anchor::example::{Example, ParseStanzaError};
use critic::anchor::{Anchor, AnchorDialect, AnchorParseError};
use critic::atg::dialect::{
    parse_by_dialect, parse_by_dialect_name, AtgDialectList, AtgDialectUnknown, ExampleAtgDialect,
};
use critic::atg::escape::{
    escape_one_if_required, escape_until_control_point, escape_until_next,
};
use critic::atg::normalize::UniqueText;
use critic::atg::parameter::{collect_native_parameter, collect_parameter};
use critic::atg::{
    AtgDialect, AtgParseError, AtgParseErrorReason, ControlPointDefinition, Correction,
    FormatBreak, Illegible, Lacuna, Part, Present, Text, Uncertain,
};

const POEM: &str = "§(1)\
    In twilight's glow, the sha^(2)(do)ws dance,/(line)\
    Whispers of dre^(1)(a)ms in a fleeting trance,/(line)\
    Stars awaken^(1)(,) the night unfurls,/(line)\
    A canvas painted with secret pearls./(paragraph)\
    §(2)\
    The moonlight &(illuminates)(bathes) the quiet stream,/(line)\
    Where echoes linger of a distant dream,/(line)\
    Soft breezes carry the ta~(8)ld,/(line)\
    Of hearts entwined and lo~(8)d./(folio)\
    ";

#[test]
fn render_text() {
    let res = POEM;
    let mut text = Vec::<Part>::new();
    text.push(Part::Anchor(Anchor::Example(Example::One)));
    text.push(Part::Native("In twilight's glow, the sha".to_owned()));
    text.push(Part::Illegible(Uncertain::<Illegible>::new(
        2,
        Some("do".to_owned()),
    )));
    text.push(Part::Native("ws dance,".to_owned()));
    text.push(Part::FormatBreak(FormatBreak::Line));

    text.push(Part::Native("Whispers of dre".to_owned()));
    text.push(Part::Illegible(Uncertain::<Illegible>::new(
        1,
        Some("a".to_owned()),
    )));
    text.push(Part::Native("ms in a fleeting trance,".to_owned()));
    text.push(Part::FormatBreak(FormatBreak::Line));

    text.push(Part::Native("Stars awaken".to_owned()));
    text.push(Part::Illegible(Uncertain::<Illegible>::new(
        1,
        Some(",".to_owned()),
    )));
    text.push(Part::Native(" the night unfurls,".to_owned()));
    text.push(Part::FormatBreak(FormatBreak::Line));

    text.push(Part::Native(
        "A canvas painted with secret pearls.".to_owned(),
    ));
    text.push(Part::FormatBreak(FormatBreak::Paragraph));
    text.push(Part::Anchor(Anchor::Example(Example::Two)));

    text.push(Part::Native("The moonlight ".to_owned()));
    text.push(Part::Correction(Correction {
        versions: vec![
            Present::Native("illuminates".to_owned()),
            Present::Native("bathes".to_owned()),
        ],
    }));
    text.push(Part::Native(" the quiet stream,".to_owned()));
    text.push(Part::FormatBreak(FormatBreak::Line));

    text.push(Part::Native(
        "Where echoes linger of a distant dream,".to_owned(),
    ));
    text.push(Part::FormatBreak(FormatBreak::Line));

    text.push(Part::Native("Soft breezes carry the ta".to_owned()));
    text.push(Part::Lacuna(Uncertain::<Lacuna>::new(8, None)));
    text.push(Part::Native("ld,".to_owned()));
    text.push(Part::FormatBreak(FormatBreak::Line));

    text.push(Part::Native("Of hearts entwined and lo".to_owned()));
    text.push(Part::Lacuna(Uncertain::<Lacuna>::new(8, None)));
    text.push(Part::Native("d.".to_owned()));
    text.push(Part::FormatBreak(FormatBreak::Folio));
    assert_eq!(Text { parts: text }.render::<ExampleAtgDialect>(), res);
}

#[test]
fn render_part() {
    let native = Part::Native("native".to_owned());
    assert_eq!(native.render::<ExampleAtgDialect>(), "native");
    let illeg = Part::Illegible(Uncertain::<Illegible>::new(2, Some("?s".to_owned())));
    assert_eq!(illeg.render::<ExampleAtgDialect>(), "^(2)(?s)");
    let lacuna = Part::Lacuna(Uncertain::<Lacuna>::new(4, None));
    assert_eq!(lacuna.render::<ExampleAtgDialect>(), "~(4)");
    let plain = Present::Native("some text or smth...".to_owned());
    let unread = Present::Illegible(Uncertain::<Illegible>::new(2, Some("os".to_owned())));
    let correction = Part::Correction(Correction {
        versions: vec![plain, unread],
    });
    assert_eq!(
        correction.render::<ExampleAtgDialect>(),
        "&(some text or smth...)(^(2)(os))"
    );
    let format_break = Part::FormatBreak(FormatBreak::Column);
    assert_eq!(format_break.render::<ExampleAtgDialect>(), "/(column)");
    let anchor = Part::Anchor(Anchor::Example(Example::Two));
    assert_eq!(anchor.render::<ExampleAtgDialect>(), "§(2)");
}

#[test]
fn render_correction() {
    let plain = Present::Native("some text or smth...".to_owned());
    let illeg = Present::Illegible(Uncertain::<Illegible>::new(2, Some("os".to_owned())));
    let correction = Correction {
        versions: vec![plain, illeg],
    };
    assert_eq!(
        correction.render::<ExampleAtgDialect>(),
        "&(some text or smth...)(^(2)(os))"
    );
}

#[test]
fn render_present() {
    let plain = Present::Native("some text or smth...".to_owned());
    assert_eq!(
        plain.render::<ExampleAtgDialect>(),
        "some text or smth...".to_owned()
    );
    let illeg = Present::Illegible(Uncertain::<Illegible>::new(2, Some("os".to_owned())));
    assert_eq!(illeg.render::<ExampleAtgDialect>(), "^(2)(os)");
}

#[test]
fn render_uncertain_illegible() {
    let illeg = Uncertain::<Illegible>::new(2, Some("os".to_owned()));
    assert_eq!(illeg.render::<ExampleAtgDialect>(), "^(2)(os)");
}

#[test]
fn render_uncertain_lacuna() {
    let lacuna = Uncertain::<Lacuna>::new(2, Some("os".to_owned()));
    assert_eq!(lacuna.render::<ExampleAtgDialect>(), "~(2)(os)");
}

#[test]
fn render_format_break() {
    assert_eq!(FormatBreak::Line.render::<ExampleAtgDialect>(), "/(line)");
    assert_eq!(
        FormatBreak::Column.render::<ExampleAtgDialect>(),
        "/(column)"
    );
    assert_eq!(
        FormatBreak::Paragraph.render::<ExampleAtgDialect>(),
        "/(paragraph)"
    );
    assert_eq!(FormatBreak::Folio.render::<ExampleAtgDialect>(), "/(folio)");
}

#[test]
fn test_escape_until_control_point() {
    let input = "asd(";
    let parsed = escape_until_control_point::<ExampleAtgDialect>(input).unwrap();
    assert_eq!(parsed, ("asd".to_owned(), Some('('), "(", 4));

    let input = "asd^(1)(c)";
    let parsed = escape_until_control_point::<ExampleAtgDialect>(input).unwrap();
    assert_eq!(parsed, ("asd".to_owned(), Some('^'), "^(1)(c)", 4));

    let input = "a\\41d(";
    let parsed = escape_until_control_point::<ExampleAtgDialect>(input).unwrap();
    assert_eq!(parsed, ("aAd".to_owned(), Some('('), "(", 6));
}

#[test]
fn parse_part() {
    let native = "abcdef";
    let parsed_native =
        Part::parse::<ExampleAtgDialect>(native, AnchorDialect::Example, 1).unwrap();
    assert_eq!(parsed_native, (Part::Native("abcdef".to_owned()), ""));

    let illeg = "^(3)(abc)";
    let parsed_illeg = Part::parse::<ExampleAtgDialect>(illeg, AnchorDialect::Example, 1).unwrap();
    assert_eq!(
        parsed_illeg,
        (
            Part::Illegible(Uncertain::<Illegible>::new(3, Some("abc".to_owned()))),
            ""
        )
    );
    let illeg = "^(2)";
    let parsed_illeg = Part::parse::<ExampleAtgDialect>(illeg, AnchorDialect::Example, 1).unwrap();
    assert_eq!(
        parsed_illeg,
        (Part::Illegible(Uncertain::<Illegible>::new(2, None)), "")
    );
    let illeg = "^(2)()";
    let parsed_illeg = Part::parse::<ExampleAtgDialect>(illeg, AnchorDialect::Example, 1).unwrap();
    assert_eq!(
        parsed_illeg,
        (Part::Illegible(Uncertain::<Illegible>::new(2, None)), "")
    );

    let lacuna = "~(3)(abc)";
    let parsed_lacuna =
        Part::parse::<ExampleAtgDialect>(lacuna, AnchorDialect::Example, 0).unwrap();
    assert_eq!(
        parsed_lacuna,
        (
            Part::Lacuna(Uncertain::<Lacuna>::new(3, Some("abc".to_owned()))),
            ""
        )
    );
    let lacuna = "~(2)some";
    let parsed_lacuna =
        Part::parse::<ExampleAtgDialect>(lacuna, AnchorDialect::Example, 0).unwrap();
    assert_eq!(
        parsed_lacuna,
        (Part::Lacuna(Uncertain::<Lacuna>::new(2, None)), "some")
    );
    let lacuna = "~(2)()";
    let parsed_lacuna =
        Part::parse::<ExampleAtgDialect>(lacuna, AnchorDialect::Example, 0).unwrap();
    assert_eq!(
        parsed_lacuna,
        (Part::Lacuna(Uncertain::<Lacuna>::new(2, None)), "")
    );

    let input = "/(line)";
    let parsed = Part::parse::<ExampleAtgDialect>(input, AnchorDialect::Example, 0);
    assert_eq!(parsed.unwrap(), (Part::FormatBreak(FormatBreak::Line), ""));

    let input = "#(comment)";
    let parsed = Part::parse::<ExampleAtgDialect>(input, AnchorDialect::Example, 0);
    assert_eq!(parsed.unwrap(), (Part::Native("".to_owned()), ""));

    let input = "&(optiona)(optionb)";
    let parsed = Part::parse::<ExampleAtgDialect>(input, AnchorDialect::Example, 2);
    assert_eq!(
        parsed.unwrap(),
        (
            Part::Correction(Correction {
                versions: vec![
                    Present::Native("optiona".to_owned()),
                    Present::Native("optionb".to_owned())
                ]
            }),
            ""
        )
    );

    let input = "&(optiona)no option";
    let parsed = Part::parse::<ExampleAtgDialect>(input, AnchorDialect::Example, 1);
    assert_eq!(
        parsed.unwrap(),
        (
            Part::Correction(Correction {
                versions: vec![Present::Native("optiona".to_owned())]
            }),
            "no option"
        )
    );

    let input = "&(optiona)(option b)(opti on c)";
    let parsed = Part::parse::<ExampleAtgDialect>(input, AnchorDialect::Example, 2);
    assert!(parsed.is_err());
}

#[test]
fn parse_native() {
    let native = "a";
    let (parsed_native, _) = Part::parse_native::<ExampleAtgDialect>(native).unwrap();
    assert_eq!(parsed_native, Part::Native(native.to_owned()));

    let native = "a^(1)(b)";
    let (parsed_native, remainder) = Part::parse_native::<ExampleAtgDialect>(native).unwrap();
    assert_eq!(parsed_native, Part::Native("a".to_owned()));
    assert_eq!(remainder, "^(1)(b)");
}

#[test]
fn test_escape_one_if_required() {
    let input = "a";
    let (char, remainder, offset) = escape_one_if_required::<ExampleAtgDialect>(input).unwrap();
    assert_eq!(char, 'a');
    assert_eq!(remainder, "");
    assert_eq!(offset, 1);

    let input = "^";
    let (char, remainder, offset) = escape_one_if_required::<ExampleAtgDialect>(input).unwrap();
    assert_eq!(char, '^');
    assert_eq!(remainder, "");
    assert_eq!(offset, 1);

    let input = "\\000041somestuff";
    let (char, remainder, offset) = escape_one_if_required::<ExampleAtgDialect>(input).unwrap();
    assert_eq!(char, '\u{41}');
    assert_eq!(remainder, "somestuff");
    assert_eq!(offset, 7);

    let input = "";
    let res = escape_one_if_required::<ExampleAtgDialect>(input);
    assert_eq!(res, Err("".to_owned()));
}

#[test]
fn test_parse_anchor() {
    let input = "(1)asdf";
    let parsed = Part::parse_anchor::<ExampleAtgDialect>(input, AnchorDialect::Example).unwrap();
    assert_eq!(parsed, (Anchor::Example(Example::One), "asdf"))
}

#[test]
fn parse_uncertain() {
    let input = "(2)(abc)";
    let parsed = Uncertain::<Illegible>::parse::<ExampleAtgDialect>(&input).unwrap();
    assert_eq!(
        parsed,
        (Uncertain::<Illegible>::new(2, Some("abc".to_owned())), "")
    );

    let input = "(2)(\\g)";
    let parsed = Uncertain::<Illegible>::parse::<ExampleAtgDialect>(&input);
    assert_eq!(parsed.unwrap_err().location, 4);
}

#[test]
fn parse_render() {
    let input = "^(1)(a)";
    let parsed = Text::parse::<ExampleAtgDialect>(input, AnchorDialect::Example, 0).unwrap();
    assert_eq!(parsed.render::<ExampleAtgDialect>(), input);

    let res = "§(1)\
    lo~(8)d.\
    ";
    let parsed = Text::parse::<ExampleAtgDialect>(res, AnchorDialect::Example, 1).unwrap();
    assert_eq!(parsed.render::<ExampleAtgDialect>(), res);

    let res = POEM;
    let parsed = Text::parse::<ExampleAtgDialect>(res, AnchorDialect::Example, 2).unwrap();
    assert_eq!(parsed.render::<ExampleAtgDialect>(), res);
}

#[test]
fn parse_with_trailing_newline() {
    let input = "some string i ges\n";
    let parsed = Text::parse::<ExampleAtgDialect>(input, AnchorDialect::Example, 1).unwrap();
    assert_eq!(parsed.render::<ExampleAtgDialect>(), "some string i ges");
}

#[test]
fn test_auto_normalise() {
    let input = "This &(word)(sword) ~(3)^(2)(st)rong.";
    let parsed = Text::parse::<ExampleAtgDialect>(input, AnchorDialect::Example, 2).unwrap();
    let uniques: Vec<UniqueText> = parsed.clone().into();
    assert_eq!(uniques.len(), 2);
    assert!(parsed.is_normalisable::<ExampleAtgDialect>());
    let normalised = parsed.auto_normalise::<ExampleAtgDialect>();
    let surface_only = normalised
        .into_iter()
        .map(|ant| {
            ant.text
                .into_iter()
                .map(|(_word, surface)| surface)
                .collect::<Vec<_>>()
        })
        .collect::<Vec<_>>();
    assert_eq!(
        surface_only,
        vec![
            vec![
                "This".to_owned(),
                "word".to_owned(),
                "~~~".to_owned(),
                "strong".to_owned(),
                ".".to_owned(),
            ],
            vec![
                "This".to_owned(),
                "sword".to_owned(),
                "~~~".to_owned(),
                "strong".to_owned(),
                ".".to_owned(),
            ],
        ]
    );
}

fn parse(input: &str, hands: usize) -> Result<Text, AtgParseError> {
    Text::parse::<ExampleAtgDialect>(input, AnchorDialect::Example, hands)
}

#[test]
fn parse_gives_the_parts_in_order() {
    let parsed = parse("ab^(3)(cd)~(2)&(x)(y)/(folio)§(2)e", 2).unwrap();
    assert_eq!(
        parsed.parts,
        vec![
            Part::Native("ab".to_owned()),
            Part::Illegible(Uncertain::new(3, Some("cd".to_owned()))),
            Part::Lacuna(Uncertain::new(2, None)),
            Part::Correction(Correction {
                versions: vec![
                    Present::Native("x".to_owned()),
                    Present::Native("y".to_owned())
                ]
            }),
            Part::FormatBreak(FormatBreak::Folio),
            Part::Anchor(Anchor::Example(Example::Two)),
            Part::Native("e".to_owned()),
        ]
    );
}

#[test]
fn an_illegible_passage_with_a_proposal() {
    let parsed = parse("^(1)(a)", 1).unwrap();
    assert_eq!(
        parsed.parts,
        vec![Part::Illegible(Uncertain::new(1, Some("a".to_owned())))]
    );
    assert_eq!(parsed.render::<ExampleAtgDialect>(), "^(1)(a)");
    let parsed = parse("§(1)lo~(8)d.", 1).unwrap();
    assert_eq!(parsed.render::<ExampleAtgDialect>(), "§(1)lo~(8)d.");
}

#[test]
fn parse_of_the_empty_input() {
    assert_eq!(parse("", 1).unwrap().parts, vec![Part::Native(String::new())]);
    assert_eq!(
        Part::parse::<ExampleAtgDialect>("", AnchorDialect::Example, 1).unwrap(),
        (Part::Native(String::new()), "")
    );
}

#[test]
fn escapes_are_resolved() {
    assert_eq!(
        escape_one_if_required::<ExampleAtgDialect>("\\41"),
        Ok(('A', "", 3))
    );
    assert_eq!(
        escape_one_if_required::<ExampleAtgDialect>("\\0041x"),
        Ok(('A', "x", 5))
    );
    assert_eq!(
        escape_one_if_required::<ExampleAtgDialect>("\\00e9"),
        Ok(('é', "", 5))
    );
    assert_eq!(
        escape_one_if_required::<ExampleAtgDialect>("\\01F600!"),
        Ok(('\u{1F600}', "!", 7))
    );
    // the longest run of digits wins
    assert_eq!(
        escape_one_if_required::<ExampleAtgDialect>("\\4142"),
        Ok(('\u{4142}', "", 5))
    );
    assert_eq!(
        escape_one_if_required::<ExampleAtgDialect>("\\414"),
        Ok(('A', "4", 3))
    );
    // a control point behind the escape is read as itself
    assert_eq!(
        escape_one_if_required::<ExampleAtgDialect>("\\(x"),
        Ok(('(', "x", 2))
    );
    assert_eq!(
        escape_one_if_required::<ExampleAtgDialect>("\\\\"),
        Ok(('\\', "", 2))
    );
    assert_eq!(
        escape_one_if_required::<ExampleAtgDialect>("\\\n"),
        Ok(('\n', "", 2))
    );
    // a scalar of several bytes
    assert_eq!(
        escape_one_if_required::<ExampleAtgDialect>("§(1)"),
        Ok(('§', "(1)", 2))
    );
}

#[test]
fn malformed_escapes() {
    assert_eq!(
        escape_one_if_required::<ExampleAtgDialect>("\\"),
        Err("\\".to_owned())
    );
    assert_eq!(
        escape_one_if_required::<ExampleAtgDialect>("\\gg"),
        Err("\\gg".to_owned())
    );
    assert_eq!(
        escape_one_if_required::<ExampleAtgDialect>("\\4"),
        Err("\\4".to_owned())
    );
    // six digits that number a surrogate, and six that are too large
    assert_eq!(
        escape_one_if_required::<ExampleAtgDialect>("\\00d800rest"),
        Err("\\00d800".to_owned())
    );
    assert_eq!(
        escape_one_if_required::<ExampleAtgDialect>("\\110000rest"),
        Err("\\110000".to_owned())
    );
    assert_eq!(
        escape_one_if_required::<ExampleAtgDialect>("\\d800"),
        Err("\\d800".to_owned())
    );
}

#[test]
fn escape_until_next_reads_up_to_the_scalar() {
    assert_eq!(
        escape_until_next::<ExampleAtgDialect>(')', "ab\\41)rest"),
        Ok(("abA".to_owned(), "rest", 6))
    );
    assert_eq!(
        escape_until_next::<ExampleAtgDialect>(')', ")"),
        Ok((String::new(), "", 1))
    );
    let eof = escape_until_next::<ExampleAtgDialect>(')', "abé").unwrap_err();
    assert_eq!(eof, AtgParseError::new(4, AtgParseErrorReason::EOF(')')));
    let bad = escape_until_next::<ExampleAtgDialect>(')', "é\\zz)").unwrap_err();
    assert_eq!(
        bad,
        AtgParseError::new(2, AtgParseErrorReason::EscapeMalformed("\\zz)".to_owned()))
    );
}

#[test]
fn escape_until_control_point_at_the_end() {
    assert_eq!(
        escape_until_control_point::<ExampleAtgDialect>("abé"),
        Ok(("abé".to_owned(), None, "", 4))
    );
    assert_eq!(
        escape_until_control_point::<ExampleAtgDialect>(""),
        Ok((String::new(), None, "", 0))
    );
    // an escaped control point halts the reading too
    assert_eq!(
        escape_until_control_point::<ExampleAtgDialect>("a\\(b"),
        Ok(("a".to_owned(), Some('('), "\\(b", 3))
    );
}

#[test]
fn parameters() {
    assert_eq!(
        collect_parameter::<ExampleAtgDialect>("(a b)c"),
        Ok(("a b".to_owned(), "c", 5))
    );
    assert_eq!(
        collect_parameter::<ExampleAtgDialect>("x(a)").unwrap_err(),
        AtgParseError::new(0, AtgParseErrorReason::MissingParameterStart)
    );
    assert_eq!(
        collect_parameter::<ExampleAtgDialect>("").unwrap_err(),
        AtgParseError::new(0, AtgParseErrorReason::EscapeMalformed(String::new()))
    );
    assert_eq!(
        collect_parameter::<ExampleAtgDialect>("(ab").unwrap_err(),
        AtgParseError::new(3, AtgParseErrorReason::EOF(')'))
    );
    assert_eq!(
        collect_native_parameter::<ExampleAtgDialect>("(ab,c)d"),
        Ok(("ab,c".to_owned(), "d", 6))
    );
    assert_eq!(
        collect_native_parameter::<ExampleAtgDialect>("").unwrap_err(),
        AtgParseError::new(0, AtgParseErrorReason::MissingParameterStart)
    );
    // the place of a scalar that is not native is where it was read
    assert_eq!(
        collect_native_parameter::<ExampleAtgDialect>("(a\\41 b)").unwrap_err(),
        AtgParseError::new(5, AtgParseErrorReason::NotNative("aA b".to_owned()))
    );
    assert_eq!(
        collect_native_parameter::<ExampleAtgDialect>("(é)").unwrap_err(),
        AtgParseError::new(1, AtgParseErrorReason::NotNative("é".to_owned()))
    );
}

#[test]
fn malformed_escape_in_a_proposal() {
    let err = parse("^(2)(\\g)", 1).unwrap_err();
    assert_eq!(
        err,
        AtgParseError::new(5, AtgParseErrorReason::EscapeMalformed("\\g)".to_owned()))
    );
    let err = Uncertain::<Illegible>::parse::<ExampleAtgDialect>("(2)(\\g)").unwrap_err();
    assert_eq!(
        err,
        AtgParseError::new(4, AtgParseErrorReason::EscapeMalformed("\\g)".to_owned()))
    );
}

#[test]
fn wrong_number_of_corrections() {
    let err = parse("&(optiona)(optionb)(optionc)", 2).unwrap_err();
    assert_eq!(
        err,
        AtgParseError::new(
            28,
            AtgParseErrorReason::IncorrectNumberOfCorrections(2, 3)
        )
    );
    let err = parse("ab&(x)cd", 2).unwrap_err();
    assert_eq!(
        err,
        AtgParseError::new(6, AtgParseErrorReason::IncorrectNumberOfCorrections(2, 1))
    );
    // a version that is not native is found first
    let err = parse("&(optiona)(option b)(opti on c)", 2).unwrap_err();
    assert_eq!(
        err,
        AtgParseError::new(17, AtgParseErrorReason::NotNative("option b".to_owned()))
    );
    // a correction without a version
    let err = parse("&x", 1).unwrap_err();
    assert_eq!(
        err,
        AtgParseError::new(1, AtgParseErrorReason::MissingParameterStart)
    );
}

#[test]
fn errors_of_the_parts() {
    assert_eq!(
        parse("ab^(x)", 1).unwrap_err(),
        AtgParseError::new(4, AtgParseErrorReason::LengthNotANumber("x".to_owned()))
    );
    assert_eq!(
        parse("^(256)", 1).unwrap_err(),
        AtgParseError::new(2, AtgParseErrorReason::LengthNotANumber("256".to_owned()))
    );
    assert_eq!(
        parse("^()", 1).unwrap_err(),
        AtgParseError::new(2, AtgParseErrorReason::LengthNotANumber(String::new()))
    );
    assert_eq!(
        parse("^2", 1).unwrap_err(),
        AtgParseError::new(1, AtgParseErrorReason::MissingParameterStart)
    );
    assert_eq!(
        parse("^", 1).unwrap_err(),
        AtgParseError::new(1, AtgParseErrorReason::EscapeMalformed(String::new()))
    );
    assert_eq!(
        parse("a/(page)", 1).unwrap_err(),
        AtgParseError::new(3, AtgParseErrorReason::UnknownFormatBreak("page".to_owned()))
    );
    assert_eq!(
        parse("§(3)", 1).unwrap_err(),
        AtgParseError::new(
            3,
            AtgParseErrorReason::Anchor(AnchorParseError::Example(ParseStanzaError::NotInRange))
        )
    );
    assert_eq!(
        parse("ab~(3", 1).unwrap_err(),
        AtgParseError::new(5, AtgParseErrorReason::EOF(')'))
    );
    assert_eq!(
        parse("ab#(never closed", 1).unwrap_err(),
        AtgParseError::new(16, AtgParseErrorReason::EOF(')'))
    );
    assert_eq!(
        parse("~(3)(a b)", 1).unwrap_err(),
        AtgParseError::new(6, AtgParseErrorReason::NotNative("a b".to_owned()))
    );
}

#[test]
fn a_stray_control_point_is_an_error() {
    assert_eq!(
        parse("ab)cd", 1).unwrap_err(),
        AtgParseError::new(2, AtgParseErrorReason::UnexpectedControlPoint(')'))
    );
    assert_eq!(
        parse("(", 1).unwrap_err(),
        AtgParseError::new(0, AtgParseErrorReason::UnexpectedControlPoint('('))
    );
    assert_eq!(
        parse("é\\\\", 1).unwrap_err(),
        AtgParseError::new(2, AtgParseErrorReason::UnexpectedControlPoint('\\'))
    );
}

#[test]
fn uncertain_lengths() {
    for (input, len) in [("(1)", 1u8), ("(255)", 255), ("(+7)", 7), ("(007)", 7)] {
        let (passage, rest) = Uncertain::<Lacuna>::parse::<ExampleAtgDialect>(input).unwrap();
        assert_eq!(passage, Uncertain::new(len, None));
        assert_eq!(rest, "");
    }
    for input in ["(-1)", "(1 )", "(+)", "(1.0)", "(0x1)", "(256)", "(0)", "(+0)", "(000)"] {
        assert!(matches!(
            Uncertain::<Lacuna>::parse::<ExampleAtgDialect>(input),
            Err(AtgParseError {
                location: 1,
                reason: AtgParseErrorReason::LengthNotANumber(_)
            })
        ));
    }
}

#[test]
fn a_length_of_zero_is_no_length() {
    assert_eq!(
        Uncertain::<Illegible>::parse::<ExampleAtgDialect>("(0)").unwrap_err(),
        AtgParseError::new(1, AtgParseErrorReason::LengthNotANumber("0".to_owned()))
    );
    assert_eq!(
        Uncertain::<Lacuna>::parse::<ExampleAtgDialect>("(0)(ab)").unwrap_err(),
        AtgParseError::new(1, AtgParseErrorReason::LengthNotANumber("0".to_owned()))
    );
    assert_eq!(
        parse("ab~(0)cd", 1).unwrap_err(),
        AtgParseError::new(4, AtgParseErrorReason::LengthNotANumber("0".to_owned()))
    );
    assert_eq!(
        parse("§(1)^(00)", 1).unwrap_err(),
        AtgParseError::new(7, AtgParseErrorReason::LengthNotANumber("00".to_owned()))
    );
    // every passage that is parsed has a length of at least 1
    let parsed = parse("a^(1)b~(255)(c)", 1).unwrap();
    assert_eq!(
        parsed.parts,
        vec![
            Part::Native("a".to_owned()),
            Part::Illegible(Uncertain::new(1, None)),
            Part::Native("b".to_owned()),
            Part::Lacuna(Uncertain::new(255, Some("c".to_owned()))),
        ]
    );
}

#[test]
fn comments_are_left_out() {
    let plain = parse("some text^(2)more", 1).unwrap();
    for input in [
        "some #(a remark)text^(2)more",
        "#(first)some text^(2)more",
        "some text^(2)mo#()re",
        "some text^(2)more#(last)",
        "so#(a)#(b)me text^(2)more",
    ] {
        assert_eq!(parse(input, 1).unwrap(), plain);
    }
    assert_eq!(
        Part::parse_comment::<ExampleAtgDialect>("(a remark)é"),
        Ok((10, "é"))
    );
}

#[test]
fn scalars_without_meaning_are_left_out() {
    let plain = parse("some text^(2)more", 1).unwrap();
    for input in [
        "some\n text^(2)more",
        "some text^(2)more\n\t\n",
        "s\to\tm\te text^(2)m\n\nore",
    ] {
        assert_eq!(parse(input, 1).unwrap(), plain);
    }
}

#[test]
fn rendered_text_is_parsed_back() {
    let text = Text {
        parts: vec![
            Part::Native("Some words, ".to_owned()),
            Part::Illegible(Uncertain::new(4, Some("then".to_owned()))),
            Part::Lacuna(Uncertain::new(200, None)),
            Part::Correction(Correction {
                versions: vec![
                    Present::Native("one".to_owned()),
                    Present::Native(String::new()),
                    Present::Native("three".to_owned()),
                ],
            }),
            Part::Anchor(Anchor::Example(Example::One)),
            Part::FormatBreak(FormatBreak::Column),
            Part::Native("the end.".to_owned()),
        ],
    };
    let rendered = text.render::<ExampleAtgDialect>();
    assert_eq!(
        rendered,
        "Some words, ^(4)(then)~(200)&(one)()(three)§(1)/(column)the end."
    );
    assert_eq!(parse(&rendered, 3).unwrap(), text);
}

#[test]
fn every_scalar_is_read_back_from_its_escape() {
    let points = ExampleAtgDialect::control_points();
    for c in ['a', 'Z', ' ', 'é', '§', '(', ')', '\\', '\n', '^', '\u{10FFFF}', '\0'] {
        let rendering = if points.is_control_point(&c) {
            format!("\\{:06x}", c as u32)
        } else {
            c.to_string()
        };
        let input = format!("{rendering}tail");
        assert_eq!(
            escape_one_if_required::<ExampleAtgDialect>(&input),
            Ok((c, "tail", rendering.len()))
        );
    }
    assert_eq!(
        escape_one_if_required::<ExampleAtgDialect>("\\28"),
        Ok(('(', "", 3))
    );
    assert_eq!(
        escape_one_if_required::<ExampleAtgDialect>("\\0028x"),
        Ok(('(', "x", 5))
    );
}

#[test]
fn control_points_of_the_example() {
    let points: ControlPointDefinition = ExampleAtgDialect::control_points();
    for c in ['\\', '(', ')', '^', '~', '§', '/', '&', '#', '\t', '\n'] {
        assert!(points.is_control_point(&c));
        assert!(ExampleAtgDialect::is_control_point(&c));
    }
    for c in ['a', ' ', ',', '.', '\'', '\r'] {
        assert!(!points.is_control_point(&c));
    }
    assert!(ExampleAtgDialect::is_non_semantic(&'\n'));
    assert!(points.is_non_semantic(&'\t'));
    assert!(!points.is_non_semantic(&'#'));
}

#[test]
fn dialects_by_name() {
    assert_eq!(AtgDialectList::from_str("example"), Ok(AtgDialectList::Example));
    assert_eq!(
        AtgDialectList::from_str("exemple"),
        Err(AtgDialectUnknown::new("exemple".to_owned()))
    );
    assert_eq!(AtgDialectList::Example.to_string(), "example");
    assert_eq!(
        AtgDialectUnknown::new("x".to_owned()).to_string(),
        "The ATG dialect \"x\" does not exist. Is critic compiled with the correct features?"
    );
    let by_value =
        parse_by_dialect("a^(1)", &AtgDialectList::Example, AnchorDialect::Example, 1).unwrap();
    assert_eq!(by_value, parse("a^(1)", 1).unwrap());
    let by_name = parse_by_dialect_name("a^(1)", "example", AnchorDialect::Example, 1);
    assert_eq!(by_name, Some(Ok(by_value)));
    assert_eq!(
        parse_by_dialect_name("a^(1)", "other", AnchorDialect::Example, 1),
        None
    );
}

#[test]
fn messages_of_the_errors() {
    assert_eq!(
        AtgParseError::new(4, AtgParseErrorReason::EscapeMalformed("\\g".to_owned())).to_string(),
        "\\g cannot be used as escape sequence at 4"
    );
    assert_eq!(
        AtgParseErrorReason::MissingParameterStart.to_string(),
        "A parameter was expected but not found."
    );
    assert_eq!(
        AtgParseErrorReason::LengthNotANumber("x".to_owned()).to_string(),
        "x is not parsable as a length value."
    );
    assert_eq!(
        AtgParseErrorReason::NotNative("a b".to_owned()).to_string(),
        "a b is not a native string of the used dialect."
    );
    assert_eq!(
        AtgParseErrorReason::Anchor(AnchorParseError::Example(ParseStanzaError::NotANumber))
            .to_string(),
        "There was a problem parsing an anchor: The Argument is not a number.."
    );
    assert_eq!(
        AtgParseErrorReason::UnknownFormatBreak("page".to_owned()).to_string(),
        "page is not a format break ('line', 'column', 'paragraph', 'folio')."
    );
    assert_eq!(
        AtgParseErrorReason::EOF(')').to_string(),
        "EOF was encountered while waiting for )"
    );
    assert_eq!(
        AtgParseErrorReason::IncorrectNumberOfCorrections(2, 13).to_string(),
        "Got 13 different corrections, but expected 2 because of Witness Metadata."
    );
    assert_eq!(
        AtgParseError::new(1200, AtgParseErrorReason::MissingParameterStart)
            .offset_location(34)
            .to_string(),
        "A parameter was expected but not found. at 1234"
    );
}
