//! The example ATG dialect: Latin letters with comma, full stop and
//! apostrophe, words divided by a space.

use vstd::prelude::*;
use crate::atg::{
    native_point, punctuation_point, well_formed_dialect, AtgDialect, ControlPointDefinition,
};
use crate::atg::roundtrip::writable_dialect;
use crate::atg::transparency::transparent_dialect;
use crate::numerals::is_hex_digit;

verus! {

/// The example ATG dialect.
pub struct ExampleAtgDialect {}

impl AtgDialect for ExampleAtgDialect {
    const NATIVE_POINTS: &'static str = "abcdefghijklmnopqrstuvwxyzABCDEFGHIJKLMNOPQRSTUVWXYZ,.'";

    const PUNCTUATION: &'static str = ",.";

    const WORD_DIVISOR: char = ' ';

    open spec fn atg_control_points() -> ControlPointDefinition {
        ControlPointDefinition {
            escape: '\\',
            start_param: '(',
            stop_param: ')',
            illegible: '^',
            lacuna: '~',
            anchor: '§',
            format_break: '/',
            correction: '&',
            non_semantic: "\t\n",
            comment: '#',
        }
    }

    fn control_points() -> (r: ControlPointDefinition) {
        ControlPointDefinition {
            escape: '\\',
            start_param: '(',
            stop_param: ')',
            illegible: '^',
            lacuna: '~',
            anchor: '§',
            format_break: '/',
            correction: '&',
            non_semantic: "\t\n",
            comment: '#',
        }
    }
}

/// The example dialect is well formed.
pub proof fn lemma_example_well_formed()
    ensures
        well_formed_dialect::<ExampleAtgDialect>(),
{
    reveal_strlit("abcdefghijklmnopqrstuvwxyzABCDEFGHIJKLMNOPQRSTUVWXYZ,.'");
    reveal_strlit(",.");
    reveal_strlit("\t\n");
    let native = "abcdefghijklmnopqrstuvwxyzABCDEFGHIJKLMNOPQRSTUVWXYZ,.'"@;
    let punctuation = ",."@;
    let points = ExampleAtgDialect::atg_control_points();
    assert(native[52] == ',');
    assert(native[53] == '.');
    assert forall|c: char| punctuation_point::<ExampleAtgDialect>(c) implies native_point::<
        ExampleAtgDialect,
    >(c) by {
        let i = choose|i: int| 0 <= i < punctuation.len() && punctuation[i] == c;
        if i == 0 {
            assert(native[52] == c);
        } else {
            assert(native[53] == c);
        }
    }
    assert(!native_point::<ExampleAtgDialect>(' '));
    let d = points.distinguished();
    assert forall|i: int| 0 <= i < d.len() implies !points.non_semantic_point(#[trigger] d[i]) by {
    }
}

/// The native scalars of the example dialect are the Latin letters of both
/// cases, the comma, the full stop and the apostrophe; its punctuation is
/// the comma and the full stop; its word divisor is the space.
pub proof fn lemma_example_points(c: char)
    ensures
        native_point::<ExampleAtgDialect>(c) <==> (('a' <= c <= 'z') || ('A' <= c <= 'Z') || c
            == ',' || c == '.' || c == '\''),
        punctuation_point::<ExampleAtgDialect>(c) <==> (c == ',' || c == '.'),
        ExampleAtgDialect::WORD_DIVISOR == ' ',
{
    reveal_strlit("abcdefghijklmnopqrstuvwxyzABCDEFGHIJKLMNOPQRSTUVWXYZ,.'");
    reveal_strlit(",.");
    let native = "abcdefghijklmnopqrstuvwxyzABCDEFGHIJKLMNOPQRSTUVWXYZ,.'"@;
    let punctuation = ",."@;
    if 'a' <= c <= 'z' {
        assert(native[c as int - 'a' as int] == c);
    }
    if 'A' <= c <= 'Z' {
        assert(native[c as int - 'A' as int + 26] == c);
    }
    if c == ',' {
        assert(native[52] == c);
        assert(punctuation[0] == c);
    }
    if c == '.' {
        assert(native[53] == c);
        assert(punctuation[1] == c);
    }
    if c == '\'' {
        assert(native[54] == c);
    }
}

/// The control points of the example dialect, one by one.
pub proof fn lemma_example_control_points(c: char)
    ensures
        ExampleAtgDialect::atg_control_points().control_point(c) <==> (c == '\\' || c == '('
            || c == ')' || c == '^' || c == '~' || c == '§' || c == '/' || c == '&' || c == '#'
            || c == '\t' || c == '\n'),
        ExampleAtgDialect::atg_control_points().non_semantic_point(c) <==> (c == '\t' || c
            == '\n'),
{
    reveal_strlit("\t\n");
    let blank = "\t\n"@;
    if c == '\t' {
        assert(blank[0] == c);
    }
    if c == '\n' {
        assert(blank[1] == c);
    }
}

/// The example dialect reads back what it writes.
pub proof fn lemma_example_writable()
    ensures
        writable_dialect::<ExampleAtgDialect>(),
{
    lemma_example_well_formed();
    reveal_strlit("line");
    reveal_strlit("column");
    reveal_strlit("paragraph");
    reveal_strlit("folio");
}

/// In the example dialect comments and scalars without meaning change
/// nothing.
pub proof fn lemma_example_transparent()
    ensures
        transparent_dialect::<ExampleAtgDialect>(),
{
    lemma_example_well_formed();
    assert forall|c: char|
        ExampleAtgDialect::atg_control_points().non_semantic_point(c) implies !is_hex_digit(c) by {
        lemma_example_control_points(c);
    }
}

} // verus!
