use critic::anchor::example::Example;
use critic::anchor::{Anchor, AnchorDialect};
use critic::atg::dialect::ExampleAtgDialect;
use critic::atg::normalize::tokenize::{split_native_stream, WordSplitIterator};
use critic::atg::normalize::{
    AnchoredNormalisedText, UniquePart, UniqueSurfacePart, UniqueText, Word,
};
use critic::atg::{Correction, FormatBreak, Part, Present, Text, Uncertain};

#[test]
fn split_word_simple() {
    let input = " A B";
    let parsed = Text::parse::<ExampleAtgDialect>(input, AnchorDialect::Example, 0).unwrap();
    let normalised = parsed.auto_normalise::<ExampleAtgDialect>();
    let normalised = normalised.get(0).unwrap();
    let res = AnchoredNormalisedText {
        text: vec![
            (
                Word {
                    parts: vec![UniqueSurfacePart::Native("A".to_owned())],
                },
                "A".to_owned(),
            ),
            (
                Word {
                    parts: vec![UniqueSurfacePart::Native("B".to_owned())],
                },
                "B".to_owned(),
            ),
        ],
        anchor_positions: vec![],
    };
    assert_eq!(*normalised, res);
}

#[test]
fn split_words_complicated() {
    let input = "A sentence. Another, sentence.without";
    let parsed = Text::parse::<ExampleAtgDialect>(input, AnchorDialect::Example, 0).unwrap();
    let normalised = parsed.auto_normalise::<ExampleAtgDialect>();
    let normalised = normalised.get(0).unwrap();
    let res = AnchoredNormalisedText {
        text: vec![
            (
                Word {
                    parts: vec![UniqueSurfacePart::Native("A".to_owned())],
                },
                "A".to_owned(),
            ),
            (
                Word {
                    parts: vec![UniqueSurfacePart::Native("sentence".to_owned())],
                },
                "sentence".to_owned(),
            ),
            (
                Word {
                    parts: vec![UniqueSurfacePart::Native(".".to_owned())],
                },
                ".".to_owned(),
            ),
            (
                Word {
                    parts: vec![UniqueSurfacePart::Native("Another".to_owned())],
                },
                "Another".to_owned(),
            ),
            (
                Word {
                    parts: vec![UniqueSurfacePart::Native(",".to_owned())],
                },
                ",".to_owned(),
            ),
            (
                Word {
                    parts: vec![UniqueSurfacePart::Native("sentence".to_owned())],
                },
                "sentence".to_owned(),
            ),
            (
                Word {
                    parts: vec![UniqueSurfacePart::Native(".".to_owned())],
                },
                ".".to_owned(),
            ),
            (
                Word {
                    parts: vec![UniqueSurfacePart::Native("without".to_owned())],
                },
                "without".to_owned(),
            ),
        ],
        anchor_positions: vec![],
    };
    assert_eq!(*normalised, res);
}

#[test]
fn word_split_atg() {
    let input = "This ^(1)(i)s /(line)so~(4)()ext.";
    let parsed = Text::parse::<ExampleAtgDialect>(input, AnchorDialect::Example, 1).unwrap();
    let uniques: Vec<UniqueText> = parsed.into();
    assert_eq!(uniques.len(), 1);
    let words_split = uniques
        .into_iter()
        .map(|x| x.split_words::<ExampleAtgDialect>())
        .collect::<Vec<_>>();
    assert_eq!(words_split.get(0).unwrap().text.len(), 6);

    let input = "some^(1)(x)text";
    let parsed = Text::parse::<ExampleAtgDialect>(input, AnchorDialect::Example, 1).unwrap();
    let uniques: Vec<UniqueText> = parsed.into();
    assert_eq!(uniques.len(), 1);
    let words_split = uniques
        .into_iter()
        .map(|x| x.split_words::<ExampleAtgDialect>())
        .collect::<Vec<_>>();
    assert_eq!(words_split.get(0).unwrap().text.len(), 1);

    let input = "som§(1)e^(1)()te/(line)xt";
    let parsed = Text::parse::<ExampleAtgDialect>(input, AnchorDialect::Example, 1).unwrap();
    let uniques: Vec<UniqueText> = parsed.into();
    assert_eq!(uniques.len(), 1);
    let words_split = uniques
        .into_iter()
        .map(|x| x.split_words::<ExampleAtgDialect>())
        .collect::<Vec<_>>();
    assert_eq!(words_split.get(0).unwrap().text.len(), 4);
}

#[test]
fn example_normalise_example() {
    let input = "This &(word)(sword) ~(3)^(2)(st)rong.";
    let parsed = Text::parse::<ExampleAtgDialect>(input, AnchorDialect::Example, 2).unwrap();
    let normalised = parsed.auto_normalise::<ExampleAtgDialect>();
    assert_eq!(normalised.len(), 2);
}

fn surfaces(input: &str, hands: usize) -> Vec<Vec<String>> {
    let parsed = Text::parse::<ExampleAtgDialect>(input, AnchorDialect::Example, hands).unwrap();
    assert!(parsed.is_normalisable::<ExampleAtgDialect>());
    parsed
        .auto_normalise::<ExampleAtgDialect>()
        .into_iter()
        .map(|text| text.text.into_iter().map(|(_, surface)| surface).collect())
        .collect()
}

#[test]
fn two_words() {
    assert_eq!(surfaces("A B", 1), vec![vec!["A", "B"]]);
}

#[test]
fn sentences() {
    assert_eq!(
        surfaces("A sentence. Another, sentence.without", 1),
        vec![vec![
            "A", "sentence", ".", "Another", ",", "sentence", ".", "without"
        ]]
    );
}

#[test]
fn a_lacuna_without_proposal_is_shown_by_its_scalar() {
    assert_eq!(
        surfaces("This ^(1)(i)s /(line)so~(4)()ext.", 1),
        vec![vec!["This", "is", "so", "~~~~", "ext", "."]]
    );
    assert_eq!(surfaces("a^(3)b", 1), vec![vec!["a", "^^^", "b"]]);
    assert_eq!(surfaces("~(1)", 1), vec![vec!["~"]]);
}

#[test]
fn one_text_for_each_hand() {
    assert_eq!(
        surfaces("This &(word)(sword) ~(3)^(2)(st)rong.", 2),
        vec![
            vec!["This", "word", "~~~", "strong", "."],
            vec!["This", "sword", "~~~", "strong", "."],
        ]
    );
}

#[test]
fn flatten_gives_each_hand_its_version() {
    let text = Text {
        parts: vec![
            Part::Native("a".to_owned()),
            Part::Correction(Correction {
                versions: vec![
                    Present::Native("x".to_owned()),
                    Present::Illegible(Uncertain::new(1, None)),
                    Present::Native("z".to_owned()),
                ],
            }),
            Part::FormatBreak(FormatBreak::Line),
            Part::Correction(Correction {
                versions: vec![Present::Native("only".to_owned())],
            }),
            Part::Anchor(Anchor::Example(Example::One)),
            Part::Lacuna(Uncertain::new(2, Some("lo".to_owned()))),
        ],
    };
    assert_eq!(text.number_of_hands(), 3);
    let uniques = text.clone().into_unique_texts();
    assert_eq!(uniques.len(), 3);
    let shared_tail = vec![
        UniquePart::Anchor(Anchor::Example(Example::One)),
        UniquePart::Lacuna(Uncertain::new(2, Some("lo".to_owned()))),
    ];
    let expected = [
        (UniquePart::Native("x".to_owned()), "only"),
        (UniquePart::Illegible(Uncertain::new(1, None)), ""),
        (UniquePart::Native("z".to_owned()), ""),
    ];
    for (hand, (version, second)) in expected.into_iter().enumerate() {
        let mut parts = vec![
            UniquePart::Native("a".to_owned()),
            version,
            UniquePart::FormatBreak(FormatBreak::Line),
            UniquePart::Native(second.to_owned()),
        ];
        parts.extend(shared_tail.clone());
        assert_eq!(uniques[hand], UniqueText { parts });
        assert_eq!(text.unique_text(hand), uniques[hand]);
    }
    let converted: Vec<UniqueText> = text.into();
    assert_eq!(converted, uniques);
}

#[test]
fn a_text_without_corrections_has_one_hand() {
    let text = Text::parse::<ExampleAtgDialect>("no corrections", AnchorDialect::Example, 4).unwrap();
    assert_eq!(text.number_of_hands(), 1);
    assert_eq!(text.into_unique_texts().len(), 1);
    assert_eq!(Text { parts: vec![] }.into_unique_texts(), vec![UniqueText::new()]);
}

#[test]
fn from_a_text_gives_what_each_hand_left() {
    let text = Text::parse::<ExampleAtgDialect>(
        "This &(word)(sword) ~(3)^(2)(st)rong.",
        AnchorDialect::Example,
        2,
    )
    .unwrap();
    let uniques = Vec::<UniqueText>::from(text.clone());
    assert_eq!(uniques.len(), 2);
    for (hand, version) in ["word", "sword"].into_iter().enumerate() {
        assert_eq!(
            uniques[hand],
            UniqueText {
                parts: vec![
                    UniquePart::Native("This ".to_owned()),
                    UniquePart::Native(version.to_owned()),
                    UniquePart::Native(" ".to_owned()),
                    UniquePart::Lacuna(Uncertain::new(3, None)),
                    UniquePart::Illegible(Uncertain::new(2, Some("st".to_owned()))),
                    UniquePart::Native("rong.".to_owned()),
                ]
            }
        );
    }
    // a correction with fewer versions is filled up with an empty native run
    let uneven = Text {
        parts: vec![
            Part::Correction(Correction {
                versions: vec![
                    Present::Native("a".to_owned()),
                    Present::Native("b".to_owned()),
                    Present::Native("c".to_owned()),
                ],
            }),
            Part::Correction(Correction {
                versions: vec![Present::Native("x".to_owned())],
            }),
        ],
    };
    let uniques = Vec::<UniqueText>::from(uneven);
    assert_eq!(uniques.len(), 3);
    for (hand, (first, second)) in [("a", "x"), ("b", ""), ("c", "")].into_iter().enumerate() {
        assert_eq!(
            uniques[hand],
            UniqueText {
                parts: vec![
                    UniquePart::Native(first.to_owned()),
                    UniquePart::Native(second.to_owned()),
                ]
            }
        );
    }
}

#[test]
fn flatten_arity_is_the_number_of_versions() {
    for hands in 1..5usize {
        let versions: String = (0..hands).map(|_| "(v)").collect();
        let input = format!("a&{versions}b&{versions}");
        let text = Text::parse::<ExampleAtgDialect>(&input, AnchorDialect::Example, hands).unwrap();
        assert_eq!(text.into_unique_texts().len(), hands);
    }
}

fn split(parts: Vec<UniquePart>) -> (Vec<Vec<UniqueSurfacePart>>, Vec<(Anchor, usize)>) {
    let text = UniqueText { parts };
    assert!(text.is_splittable::<ExampleAtgDialect>());
    let split = text.split_words::<ExampleAtgDialect>();
    (
        split.text.into_iter().map(|w| w.parts).collect(),
        split.anchor_positions,
    )
}

fn native(s: &str) -> UniqueSurfacePart {
    UniqueSurfacePart::Native(s.to_owned())
}

#[test]
fn words_reach_over_parts() {
    let (words, anchors) = split(vec![
        UniquePart::Native("be".to_owned()),
        UniquePart::Illegible(Uncertain::new(9, Some("gin ni".to_owned()))),
        UniquePart::FormatBreak(FormatBreak::Line),
        UniquePart::Native("ng".to_owned()),
    ]);
    assert_eq!(
        words,
        vec![
            vec![
                native("be"),
                UniqueSurfacePart::Illegible(Uncertain::new(3, Some("gin".to_owned())))
            ],
            vec![
                UniqueSurfacePart::Illegible(Uncertain::new(2, Some("ni".to_owned()))),
                native("ng")
            ],
        ]
    );
    assert_eq!(anchors, vec![]);
}

#[test]
fn divisors_at_the_ends_of_a_part_divide() {
    // several divisors in a row, and a part of divisors only
    let (words, _) = split(vec![
        UniquePart::Native("ab  ".to_owned()),
        UniquePart::Native("cd".to_owned()),
        UniquePart::Native(" ".to_owned()),
        UniquePart::Native("ef".to_owned()),
        UniquePart::Native(String::new()),
        UniquePart::Native("gh".to_owned()),
    ]);
    assert_eq!(
        words,
        vec![
            vec![native("ab")],
            vec![native("cd")],
            vec![native("ef"), native("gh")]
        ]
    );
    // punctuation at the start of a part divides as well
    let (words, _) = split(vec![
        UniquePart::Native("ab".to_owned()),
        UniquePart::Native(".cd".to_owned()),
    ]);
    assert_eq!(
        words,
        vec![vec![native("ab")], vec![native(".")], vec![native("cd")]]
    );
}

#[test]
fn anchors_keep_their_place_among_the_words() {
    let one = Anchor::Example(Example::One);
    let two = Anchor::Example(Example::Two);
    let (words, anchors) = split(vec![
        UniquePart::Anchor(one),
        UniquePart::Native("a b".to_owned()),
        UniquePart::Anchor(two),
        UniquePart::Anchor(one),
        UniquePart::Native("c, d".to_owned()),
        UniquePart::Anchor(two),
    ]);
    assert_eq!(words.len(), 5);
    assert_eq!(anchors, vec![(one, 0), (two, 2), (one, 2), (two, 5)]);
    assert!(anchors.windows(2).all(|w| w[0].1 <= w[1].1));
    assert!(anchors.iter().all(|a| a.1 <= words.len()));
    assert!(words.iter().all(|w| !w.is_empty()));
}

#[test]
fn an_anchor_ends_a_word() {
    let (words, anchors) = split(vec![
        UniquePart::Native("som".to_owned()),
        UniquePart::Anchor(Anchor::Example(Example::One)),
        UniquePart::Native("e".to_owned()),
    ]);
    assert_eq!(words, vec![vec![native("som")], vec![native("e")]]);
    assert_eq!(anchors, vec![(Anchor::Example(Example::One), 1)]);
}

#[test]
fn punctuation_is_a_word_of_its_own() {
    for stream in [".", "a.b", "..", " , ", "ab,", ",ab", "a b.c d", "'.'"] {
        let chain = native(stream).split_words::<ExampleAtgDialect>();
        for c in stream.chars().filter(|c| ",.".contains(*c)) {
            assert!(chain.word_chain.contains(&Word {
                parts: vec![native(&c.to_string())]
            }));
        }
    }
}

#[test]
fn the_ends_of_a_chain() {
    for (stream, left, right, words) in [
        ("", false, false, 0usize),
        (" ", true, true, 0),
        ("ab", false, false, 1),
        (" ab", true, false, 1),
        ("ab ", false, true, 1),
        ("ab  ", false, true, 1),
        (".ab", true, false, 2),
        ("ab.", false, true, 2),
        ("a  b", false, false, 2),
    ] {
        let chain = native(stream).split_words::<ExampleAtgDialect>();
        assert_eq!(chain.left_boundary_divides, left);
        assert_eq!(chain.right_boundary_divides, right);
        assert_eq!(chain.word_chain.len(), words);
    }
    let alone = UniqueSurfacePart::Lacuna(Uncertain::new(3, None));
    let chain = alone.clone().split_words::<ExampleAtgDialect>();
    assert!(chain.left_boundary_divides && chain.right_boundary_divides);
    assert_eq!(chain.word_chain, vec![Word { parts: vec![alone] }]);
}

#[test]
fn the_steps_of_the_scan() {
    let mut scan: WordSplitIterator<ExampleAtgDialect> = split_native_stream("ab  cd,e ");
    let mut steps = vec![];
    while let Some(step) = scan.next() {
        steps.push(step);
    }
    assert_eq!(
        steps,
        vec![
            ("ab".to_owned(), true),
            (String::new(), true),
            ("cd".to_owned(), true),
            (",".to_owned(), true),
            ("e".to_owned(), true),
        ]
    );
    let mut scan = WordSplitIterator::<ExampleAtgDialect>::new("ab");
    assert_eq!(scan.next(), Some(("ab".to_owned(), false)));
    assert_eq!(scan.next(), None);
    assert_eq!(scan.next(), None);
}

#[test]
fn a_word_of_a_proposal_can_be_too_long() {
    let long = "a".repeat(256);
    let fits = UniqueSurfacePart::Illegible(Uncertain::new(1, Some("a".repeat(255))));
    assert!(fits.is_splittable::<ExampleAtgDialect>());
    let too_long = UniqueSurfacePart::Illegible(Uncertain::new(1, Some(long.clone())));
    assert!(!too_long.is_splittable::<ExampleAtgDialect>());
    let long_by_words = format!("{} {}", "a".repeat(200), "b".repeat(200));
    let two_words = UniqueSurfacePart::Lacuna(Uncertain::new(1, Some(long_by_words)));
    assert!(two_words.is_splittable::<ExampleAtgDialect>());
    assert!(native(&long).is_splittable::<ExampleAtgDialect>());
    let text = Text {
        parts: vec![Part::Correction(Correction {
            versions: vec![
                Present::Native("a".to_owned()),
                Present::Illegible(Uncertain::new(1, Some(long))),
            ],
        })],
    };
    assert!(!text.is_normalisable::<ExampleAtgDialect>());
    assert!(text.unique_text(0).is_splittable::<ExampleAtgDialect>());
    assert!(!text.unique_text(1).is_splittable::<ExampleAtgDialect>());
}

#[test]
fn surface_parts() {
    assert_eq!(
        UniquePart::Native("a".to_owned()).as_surface_part(),
        Some(native("a"))
    );
    assert_eq!(
        UniquePart::Lacuna(Uncertain::new(1, None)).as_surface_part(),
        Some(UniqueSurfacePart::Lacuna(Uncertain::new(1, None)))
    );
    assert_eq!(UniquePart::FormatBreak(FormatBreak::Line).as_surface_part(), None);
    assert_eq!(
        UniquePart::Anchor(Anchor::Example(Example::One)).as_surface_part(),
        None
    );
    assert_eq!(
        UniquePart::from(Present::Native("a".to_owned())),
        UniquePart::Native("a".to_owned())
    );
    assert_eq!(
        UniquePart::from(UniqueSurfacePart::Illegible(Uncertain::new(2, None))),
        UniquePart::Illegible(Uncertain::new(2, None))
    );
    assert_eq!(
        native("ab").supply_uncertain::<ExampleAtgDialect>(),
        "ab".to_owned()
    );
    assert_eq!(
        UniqueSurfacePart::Illegible(Uncertain::new(3, None)).supply_uncertain::<ExampleAtgDialect>(),
        "^^^"
    );
    assert_eq!(
        UniqueSurfacePart::Lacuna(Uncertain::new(3, Some("x".to_owned())))
            .supply_uncertain::<ExampleAtgDialect>(),
        "x"
    );
    let word = Word {
        parts: vec![
            native("a"),
            UniqueSurfacePart::Lacuna(Uncertain::new(2, None)),
            UniqueSurfacePart::Illegible(Uncertain::new(1, Some("b".to_owned()))),
        ],
    };
    let (same, surface) = word.clone().supply_uncertain::<ExampleAtgDialect>();
    assert_eq!(same, word);
    assert_eq!(surface, "a~~b");
}
