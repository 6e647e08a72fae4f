//! What is written is read back: an escaped scalar by the escape engine,
//! a rendered text by the parser.

use vstd::prelude::*;
use vstd::utf8::{char_is_scalar, char_u32_cast};
use crate::atg::{native_text, AtgDialect, Fault, Reason};
use crate::atg::escape::{read_char, read_until, read_until_control, Halt, Run, Scalar};
use crate::atg::parameter::{
    body_start, lemma_foreign_from, read_native_parameter, read_parameter,
};
use crate::anchor::{lemma_anchor_parsed_text, Anchor, AnchorDialect};
use crate::atg::locality::{
    lemma_parse_anchor_behind, lemma_parse_correction_behind, lemma_parse_format_break_behind,
    lemma_parse_parts_behind, lemma_parse_uncertain_behind, lemma_parse_versions_behind,
    lemma_read_native_parameter_behind,
};
use crate::atg::parse::{
    format_break_named, parse_anchor, parse_correction, parse_format_break, parse_native,
    parse_part, parse_parts, parse_text, parse_uncertain, parse_versions, Parsed,
};
use crate::atg::render::{
    parameter, rendered_part, rendered_present, rendered_text, rendered_versions,
};
use crate::atg::text::{FormatBreak, PartView, Passage};
use crate::numerals::{
    decimal, is_decimal_digit, lemma_decimal_value_of_decimal, lemma_parsed_number_of_decimal,
};
use crate::numerals::{hex_digit_value, hex_run, hex_value, is_hex_digit, pow16, lemma_pow16_bounds};

verus! {

/// The hexadecimal digit, in lower case, that stands for a value below
/// sixteen.
pub open spec fn hex_digit(d: nat) -> char {
    if d < 10 {
        (d + '0' as u32) as char
    } else {
        (d - 10 + 'a' as u32) as char
    }
}

/// The last `width` hexadecimal digits of a number.
pub open spec fn hex_digits(n: nat, width: nat) -> Seq<char>
    decreases width,
{
    if width == 0 {
        Seq::empty()
    } else {
        hex_digits(n / 16, (width - 1) as nat).push(hex_digit(n % 16))
    }
}

/// The escape that numbers the scalar `c` with `width` hexadecimal digits.
pub open spec fn escape_of<D: AtgDialect>(c: char, width: nat) -> Seq<char> {
    seq![D::atg_control_points().escape] + hex_digits(c as nat, width)
}

/// The least number of digits, of two, four and six, that number `c`.
pub open spec fn canonical_width(c: char) -> nat {
    if (c as nat) < 0x100 {
        2
    } else if (c as nat) < 0x10000 {
        4
    } else {
        6
    }
}

/// How a scalar is written so that it is read as itself: as it is, unless
/// it is a control point; a control point as the escape that numbers it
/// with as few digits as can be.
pub open spec fn canonical_rendering<D: AtgDialect>(c: char) -> Seq<char> {
    if D::atg_control_points().control_point(c) {
        escape_of::<D>(c, canonical_width(c))
    } else {
        seq![c]
    }
}

/// The digits of a number are hexadecimal digits, as many as asked for, and
/// denote the number, as far as that many digits can.
pub proof fn lemma_hex_digits(n: nat, width: nat)
    ensures
        hex_digits(n, width).len() == width,
        forall|i: int| 0 <= i < width ==> is_hex_digit(#[trigger] hex_digits(n, width)[i]),
        hex_value(hex_digits(n, width)) == n % pow16(width),
    decreases width,
{
    if width > 0 {
        lemma_hex_digits(n / 16, (width - 1) as nat);
        let before = hex_digits(n / 16, (width - 1) as nat);
        let d = n % 16;
        let s = before.push(hex_digit(d));
        assert(s.drop_last() =~= before);
        assert(is_hex_digit(hex_digit(d)) && hex_digit_value(hex_digit(d)) == d);
        assert forall|i: int| 0 <= i < width implies is_hex_digit(#[trigger] s[i]) by {
            if i < width - 1 {
                assert(s[i] == before[i]);
            }
        }
        lemma_pow16_bounds((width - 1) as nat);
        let p = pow16((width - 1) as nat);
        assert(pow16(width) == 16 * p);
        vstd::arithmetic::div_mod::lemma_breakdown(n as int, 16, p as int);
    }
}

/// Every scalar is read back from its canonical rendering, whatever
/// follows, unless the rest goes on with two hexadecimal digits behind an
/// escape of fewer than six, or the first digit of the escape is a control
/// point of the dialect.
pub proof fn lemma_escape_round_trip<D: AtgDialect>(c: char, rest: Seq<char>)
    requires
        D::atg_control_points().control_point(c) ==> {
            &&& !D::atg_control_points().control_point(canonical_rendering::<D>(c)[1])
            &&& canonical_width(c) == 6 || !hex_run(rest, 0, 2)
        },
    ensures
        read_char::<D>(canonical_rendering::<D>(c) + rest, 0) == Ok::<Scalar, Seq<char>>(
            Scalar { value: c, next: canonical_rendering::<D>(c).len() as int },
        ),
{
    if D::atg_control_points().control_point(c) {
        assert(pow16(2) == 0x100 && pow16(4) == 0x10000 && pow16(6) == 0x1000000) by {
            reveal_with_fuel(pow16, 8);
        }
        lemma_hex_digits(c as nat, canonical_width(c));
        lemma_numbered_escape::<D>(c, canonical_width(c), rest);
    } else {
        reveal(read_char);
        let s = seq![c] + rest;
        assert(s[0] == c);
    }
}

/// A scalar is read back from an escape that numbers it with two, four or
/// six digits, whatever follows, unless the rest goes on with two
/// hexadecimal digits behind an escape of fewer than six, or the first
/// digit of the escape is a control point of the dialect.
pub proof fn lemma_numbered_escape<D: AtgDialect>(c: char, width: nat, rest: Seq<char>)
    requires
        width == 2 || width == 4 || width == 6,
        (c as nat) < pow16(width),
        !D::atg_control_points().control_point(escape_of::<D>(c, width)[1]),
        width == 6 || !hex_run(rest, 0, 2),
    ensures
        read_char::<D>(escape_of::<D>(c, width) + rest, 0) == Ok::<Scalar, Seq<char>>(
            Scalar { value: c, next: 1 + width as int },
        ),
{
    reveal(read_char);
    let w = width as int;
    let points = D::atg_control_points();
    let digits = hex_digits(c as nat, width);
    let s = escape_of::<D>(c, width) + rest;
    lemma_hex_digits(c as nat, width);
    assert(s[0] == points.escape);
    assert forall|j: int| 1 <= j < 1 + w implies s[j] == digits[j - 1] && is_hex_digit(
        #[trigger] s[j],
    ) by {
        assert(escape_of::<D>(c, width)[j] == digits[j - 1]);
    }
    assert(s[1] == escape_of::<D>(c, width)[1]);
    assert(hex_run(s, 1, w));
    assert(s.subrange(1, 1 + w) =~= digits);
    vstd::arithmetic::div_mod::lemma_small_mod(c as nat, pow16(width));
    char_is_scalar(c);
    char_u32_cast(c, c as u32);
    assert(hex_value(digits) as u32 == c as u32);
    if width < 6 {
        assert forall|m: int| w < m <= 6 && (m == 4 || m == 6) implies !hex_run(s, 1, m) by {
            if hex_run(s, 1, m) {
                assert(s[1 + w] == rest[0] && is_hex_digit(s[1 + w]));
                assert(s[2 + w] == rest[1] && is_hex_digit(s[2 + w]));
                assert(hex_run(rest, 0, 2));
            }
        }
        assert(!hex_run(s, 1, 6));
        if width == 2 {
            assert(!hex_run(s, 1, 4));
        }
    }
}

/// Whether no scalar of `s` is a control point.
pub open spec fn plain<D: AtgDialect>(s: Seq<char>) -> bool {
    forall|i: int| 0 <= i < s.len() ==> !D::atg_control_points().control_point(#[trigger] s[i])
}

/// Whether a text holds neither an escape nor the stop of a parameter, so
/// that it is read as it is where it stands as the body of a parameter.
pub open spec fn bare<D: AtgDialect>(body: Seq<char>) -> bool {
    forall|i: int|
        0 <= i < body.len() ==> (#[trigger] body[i]) != D::atg_control_points().escape && body[i]
            != D::atg_control_points().stop_param
}

/// Whether nothing that could go on a part stands at the start of `rest`:
/// neither the start of a parameter nor an escape.
pub open spec fn quiet<D: AtgDialect>(rest: Seq<char>) -> bool {
    rest.len() == 0 || (rest[0] != D::atg_control_points().start_param && rest[0]
        != D::atg_control_points().escape)
}

/// The distinguished scalars of a well-formed dialect differ from each
/// other, and none of them is without meaning.
pub proof fn lemma_distinguished<D: AtgDialect>()
    requires
        D::atg_control_points().well_formed(),
    ensures
        ({
            let p = D::atg_control_points();
            &&& p.escape != p.start_param && p.escape != p.stop_param && p.escape != p.illegible
                && p.escape != p.lacuna && p.escape != p.anchor && p.escape != p.format_break
                && p.escape != p.correction && p.escape != p.comment
            &&& p.start_param != p.stop_param && p.start_param != p.illegible && p.start_param
                != p.lacuna && p.start_param != p.anchor && p.start_param != p.format_break
                && p.start_param != p.correction && p.start_param != p.comment
            &&& p.stop_param != p.illegible && p.stop_param != p.lacuna && p.stop_param
                != p.anchor && p.stop_param != p.format_break && p.stop_param != p.correction
                && p.stop_param != p.comment
            &&& p.illegible != p.lacuna && p.illegible != p.anchor && p.illegible
                != p.format_break && p.illegible != p.correction && p.illegible != p.comment
            &&& p.lacuna != p.anchor && p.lacuna != p.format_break && p.lacuna != p.correction
                && p.lacuna != p.comment
            &&& p.anchor != p.format_break && p.anchor != p.correction && p.anchor != p.comment
            &&& p.format_break != p.correction && p.format_break != p.comment
            &&& p.correction != p.comment
            &&& !p.non_semantic_point(p.escape) && !p.non_semantic_point(p.start_param)
                && !p.non_semantic_point(p.stop_param) && !p.non_semantic_point(p.illegible)
                && !p.non_semantic_point(p.lacuna) && !p.non_semantic_point(p.anchor)
                && !p.non_semantic_point(p.format_break) && !p.non_semantic_point(p.correction)
                && !p.non_semantic_point(p.comment)
        }),
{
    let p = D::atg_control_points();
    let d = p.distinguished();
    assert(d[0] == p.escape && d[1] == p.start_param && d[2] == p.stop_param && d[3]
        == p.illegible && d[4] == p.lacuna && d[5] == p.anchor && d[6] == p.format_break && d[7]
        == p.correction && d[8] == p.comment);
    assert(d.len() == 9);
}

/// A scalar that is not the escape is read as it is.
pub proof fn lemma_read_bare<D: AtgDialect>(s: Seq<char>, i: int)
    requires
        0 <= i < s.len(),
        s[i] != D::atg_control_points().escape,
    ensures
        read_char::<D>(s, i) == Ok::<Scalar, Seq<char>>(Scalar { value: s[i], next: i + 1 }),
{
    reveal(read_char);
}

/// A stretch without escape and without `stop`, followed by `stop`, is
/// read up to `stop` as it is.
pub proof fn lemma_read_until_bare<D: AtgDialect>(s: Seq<char>, i: int, n: int, stop: char)
    requires
        0 <= i,
        0 <= n,
        i + n < s.len(),
        forall|j: int|
            i <= j < i + n ==> (#[trigger] s[j]) != D::atg_control_points().escape && s[j] != stop,
        s[i + n] == stop,
        stop != D::atg_control_points().escape,
    ensures
        read_until::<D>(s, i, stop) == Ok::<Run, Fault>(
            Run { text: s.subrange(i, i + n), next: i + n + 1 },
        ),
    decreases n,
{
    lemma_read_bare::<D>(s, i);
    if n > 0 {
        lemma_read_until_bare::<D>(s, i + 1, n - 1, stop);
        assert(seq![s[i]] + s.subrange(i + 1, i + n) =~= s.subrange(i, i + n));
    } else {
        assert(s.subrange(i, i) =~= Seq::<char>::empty());
    }
}

/// A parameter with a bare body is read as its body, whatever follows.
pub proof fn lemma_read_parameter_written<D: AtgDialect>(body: Seq<char>, rest: Seq<char>)
    requires
        D::atg_control_points().well_formed(),
        bare::<D>(body),
    ensures
        read_parameter::<D>(parameter::<D>(body) + rest, 0) == Ok::<Run, Fault>(
            Run { text: body, next: body.len() as int + 2 },
        ),
        body_start::<D>(parameter::<D>(body) + rest, 0) == 1,
{
    lemma_distinguished::<D>();
    let points = D::atg_control_points();
    let s = parameter::<D>(body) + rest;
    assert(s[0] == points.start_param);
    lemma_read_bare::<D>(s, 0);
    assert forall|j: int| 1 <= j < 1 + body.len() implies (#[trigger] s[j]) != points.escape && s[j]
        != points.stop_param by {
        assert(s[j] == body[j - 1]);
    }
    assert(s[1 + body.len() as int] == points.stop_param);
    lemma_read_until_bare::<D>(s, 1, body.len() as int, points.stop_param);
    assert(s.subrange(1, 1 + body.len() as int) =~= body);
}

/// A parameter with a bare and native body is read as its body where a
/// native parameter is asked for.
pub proof fn lemma_read_native_parameter_written<D: AtgDialect>(body: Seq<char>, rest: Seq<char>)
    requires
        D::atg_control_points().well_formed(),
        bare::<D>(body),
        native_text::<D>(body),
    ensures
        read_native_parameter::<D>(parameter::<D>(body) + rest, 0) == Ok::<Run, Fault>(
            Run { text: body, next: body.len() as int + 2 },
        ),
{
    lemma_read_parameter_written::<D>(body, rest);
    lemma_foreign_from::<D>(body, 0);
}

/// Where no parameter starts, a native parameter is missing.
pub proof fn lemma_no_parameter<D: AtgDialect>(rest: Seq<char>)
    requires
        quiet::<D>(rest),
    ensures
        read_native_parameter::<D>(rest, 0) == Err::<Run, Fault>(
            Fault { location: 0, reason: Reason::MissingParameterStart },
        ),
{
    if rest.len() > 0 {
        lemma_read_bare::<D>(rest, 0);
    }
}

/// A plain stretch is read up to the control point behind it, or up to the
/// end of the input.
pub proof fn lemma_read_until_control_bare<D: AtgDialect>(s: Seq<char>, i: int, n: int)
    requires
        0 <= i,
        0 <= n,
        i + n <= s.len(),
        forall|j: int|
            i <= j < i + n ==> !D::atg_control_points().control_point(#[trigger] s[j]),
        i + n < s.len() ==> D::atg_control_points().control_point(s[i + n]) && s[i + n]
            != D::atg_control_points().escape,
    ensures
        read_until_control::<D>(s, i) == Ok::<Halt, Fault>(
            Halt {
                text: s.subrange(i, i + n),
                control: if i + n < s.len() {
                    Some(s[i + n])
                } else {
                    None
                },
                at: i + n,
                next: if i + n < s.len() {
                    i + n + 1
                } else {
                    i + n
                },
            },
        ),
    decreases n,
{
    if n > 0 {
        lemma_read_bare::<D>(s, i);
        lemma_read_until_control_bare::<D>(s, i + 1, n - 1);
        assert(seq![s[i]] + s.subrange(i + 1, i + n) =~= s.subrange(i, i + n));
    } else {
        assert(s.subrange(i, i) =~= Seq::<char>::empty());
        if i < s.len() {
            lemma_read_bare::<D>(s, i);
        }
    }
}

/// A plain stretch before a control point that starts a part, or before
/// the end of the input, is one native run.
pub proof fn lemma_parse_native_written<D: AtgDialect>(x: Seq<char>, rest: Seq<char>)
    requires
        plain::<D>(x),
        rest.len() > 0 ==> {
            &&& D::atg_control_points().control_point(rest[0])
            &&& rest[0] != D::atg_control_points().escape
            &&& rest[0] != D::atg_control_points().comment
            &&& !D::atg_control_points().non_semantic_point(rest[0])
        },
    ensures
        parse_native::<D>(x + rest, 0) == Ok::<Parsed<Seq<char>>, Fault>(
            Parsed { value: x, next: x.len() as int },
        ),
{
    let s = x + rest;
    assert forall|j: int| 0 <= j < x.len() implies !D::atg_control_points().control_point(
        #[trigger] s[j],
    ) by {
        assert(s[j] == x[j]);
    }
    if rest.len() > 0 {
        assert(s[x.len() as int] == rest[0]);
    }
    lemma_read_until_control_bare::<D>(s, 0, x.len() as int);
    assert(s.subrange(0, x.len() as int) =~= x);
}

/// Whether the dialect can write what it reads: it is well formed, and
/// neither a decimal digit nor a scalar of the name of a format break is its
/// escape or the stop of its parameters.
pub open spec fn writable_dialect<D: AtgDialect>() -> bool {
    &&& D::atg_control_points().well_formed()
    &&& forall|c: char|
        is_decimal_digit(c) ==> c != D::atg_control_points().escape && c
            != D::atg_control_points().stop_param
    &&& bare::<D>(FormatBreak::Line.name())
    &&& bare::<D>(FormatBreak::Column.name())
    &&& bare::<D>(FormatBreak::Paragraph.name())
    &&& bare::<D>(FormatBreak::Folio.name())
}

/// Whether an uncertain passage is read back as it was written: its length
/// is at least 1, and its proposal, if it has one, is bare and native.
pub open spec fn writable_passage<D: AtgDialect>(u: Passage) -> bool {
    u.len > 0 && match u.proposal {
        Some(p) => bare::<D>(p) && native_text::<D>(p),
        None => true,
    }
}

/// Whether a part is read back as it was written, in a witness with the
/// given anchor dialect and number of hands. A native run is plain. An
/// uncertain passage has a length of at least 1, and its proposal is bare
/// and native. A correction has a version for each hand, at least one, each
/// a bare native run of native scalars. An anchor is of the anchor dialect
/// and its literal is bare.
pub open spec fn writable_part<D: AtgDialect>(p: PartView, dialect: AnchorDialect, hands: nat) -> bool {
    match p {
        PartView::Native(s) => plain::<D>(s),
        PartView::Illegible(u) => writable_passage::<D>(u),
        PartView::Lacuna(u) => writable_passage::<D>(u),
        PartView::Correction(versions) => {
            &&& versions.len() == hands
            &&& hands > 0
            &&& forall|i: int|
                0 <= i < versions.len() ==> {
                    &&& (#[trigger] versions[i]) is Native
                    &&& bare::<D>(versions[i]->Native_0)
                    &&& native_text::<D>(versions[i]->Native_0)
                }
        },
        PartView::FormatBreak(_) => true,
        PartView::Anchor(a) => a.dialect() == dialect && bare::<D>(a.text()),
    }
}

/// Whether every part of a text is read back as it was written.
pub open spec fn writable_text<D: AtgDialect>(t: Seq<PartView>, dialect: AnchorDialect, hands: nat) -> bool {
    forall|i: int| 0 <= i < t.len() ==> writable_part::<D>(#[trigger] t[i], dialect, hands)
}

/// An uncertain passage as the parser gives it: an empty proposal is none.
pub open spec fn normal_passage(u: Passage) -> Passage {
    Passage {
        len: u.len,
        proposal: match u.proposal {
            Some(p) => if p.len() == 0 {
                None
            } else {
                Some(p)
            },
            None => None,
        },
    }
}

/// A part as the parser gives it.
pub open spec fn normal_part(p: PartView) -> PartView {
    match p {
        PartView::Illegible(u) => PartView::Illegible(normal_passage(u)),
        PartView::Lacuna(u) => PartView::Lacuna(normal_passage(u)),
        _ => p,
    }
}

/// The parts of the text that has a native run `x` in front of `t`, as the
/// parser gives them: native runs that follow each other are one run, an
/// empty run is left out, and every other part is as the parser gives it.
pub open spec fn coalesced(x: Seq<char>, t: Seq<PartView>) -> Seq<PartView>
    decreases t.len(),
{
    if t.len() == 0 {
        if x.len() == 0 {
            Seq::empty()
        } else {
            seq![PartView::Native(x)]
        }
    } else {
        match t[0] {
            PartView::Native(y) => coalesced(x + y, t.skip(1)),
            p => (if x.len() == 0 {
                Seq::empty()
            } else {
                seq![PartView::Native(x)]
            }) + seq![normal_part(p)] + coalesced(Seq::empty(), t.skip(1)),
        }
    }
}

/// The normal form of a text: that in which the parser gives it.
pub open spec fn normal_text(t: Seq<PartView>) -> Seq<PartView> {
    coalesced(Seq::empty(), t)
}

/// The parameters of an uncertain passage as they are written.
pub open spec fn passage_parameters<D: AtgDialect>(u: Passage) -> Seq<char> {
    parameter::<D>(decimal(u.len as nat)) + match u.proposal {
        Some(p) => parameter::<D>(p),
        None => Seq::empty(),
    }
}

/// The parameters of an uncertain passage are read back.
pub proof fn lemma_passage_written<D: AtgDialect>(u: Passage, rest: Seq<char>)
    requires
        writable_dialect::<D>(),
        writable_passage::<D>(u),
        quiet::<D>(rest),
    ensures
        parse_uncertain::<D>(passage_parameters::<D>(u) + rest, 0) == Ok::<Parsed<Passage>, Fault>(
            Parsed { value: normal_passage(u), next: passage_parameters::<D>(u).len() as int },
        ),
{
    let digits = decimal(u.len as nat);
    lemma_decimal_value_of_decimal(u.len as nat);
    lemma_parsed_number_of_decimal(u.len as nat, u8::MAX as nat);
    assert(bare::<D>(digits)) by {
        assert forall|i: int| 0 <= i < digits.len() implies (#[trigger] digits[i])
            != D::atg_control_points().escape && digits[i]
            != D::atg_control_points().stop_param by {
            assert(is_decimal_digit(digits[i]));
        }
    }
    let first = parameter::<D>(digits);
    let second = match u.proposal {
        Some(p) => parameter::<D>(p),
        None => Seq::empty(),
    };
    let s = passage_parameters::<D>(u) + rest;
    assert(s =~= first + (second + rest));
    lemma_read_parameter_written::<D>(digits, second + rest);
    lemma_read_native_parameter_behind::<D>(first, second + rest, 0);
    match u.proposal {
        Some(p) => {
            lemma_read_native_parameter_written::<D>(p, rest);
        },
        None => {
            assert(second + rest =~= rest);
            lemma_no_parameter::<D>(rest);
        },
    }
}

/// The first version of a correction is written in front of the others.
pub proof fn lemma_rendered_versions_front<D: AtgDialect>(v: PartView, tail: Seq<PartView>)
    ensures
        rendered_versions::<D>(seq![v] + tail) == parameter::<D>(rendered_present::<D>(v))
            + rendered_versions::<D>(tail),
    decreases tail.len(),
{
    let all = seq![v] + tail;
    if tail.len() == 0 {
        assert(all.drop_last() =~= Seq::<PartView>::empty());
        assert(rendered_versions::<D>(all.drop_last()) =~= Seq::<char>::empty());
        assert(Seq::<char>::empty() + parameter::<D>(rendered_present::<D>(v))
            =~= parameter::<D>(rendered_present::<D>(v)) + Seq::<char>::empty());
    } else {
        assert(all.drop_last() =~= seq![v] + tail.drop_last());
        lemma_rendered_versions_front::<D>(v, tail.drop_last());
        assert(all.last() == tail.last());
        assert((parameter::<D>(rendered_present::<D>(v)) + rendered_versions::<D>(
            tail.drop_last(),
        )) + parameter::<D>(rendered_present::<D>(tail.last())) =~= parameter::<D>(
            rendered_present::<D>(v),
        ) + (rendered_versions::<D>(tail.drop_last()) + parameter::<D>(
            rendered_present::<D>(tail.last()),
        )));
    }
}

/// Whether every version is a bare native run of native scalars.
pub open spec fn writable_versions<D: AtgDialect>(versions: Seq<PartView>) -> bool {
    forall|i: int|
        0 <= i < versions.len() ==> {
            &&& (#[trigger] versions[i]) is Native
            &&& bare::<D>(versions[i]->Native_0)
            &&& native_text::<D>(versions[i]->Native_0)
        }
}

/// The versions of a correction are read back.
pub proof fn lemma_versions_written<D: AtgDialect>(versions: Seq<PartView>, rest: Seq<char>)
    requires
        writable_dialect::<D>(),
        writable_versions::<D>(versions),
        quiet::<D>(rest),
    ensures
        parse_versions::<D>(rendered_versions::<D>(versions) + rest, 0) == Ok::<
            Parsed<Seq<PartView>>,
            Fault,
        >(Parsed { value: versions, next: rendered_versions::<D>(versions).len() as int }),
    decreases versions.len(),
{
    if versions.len() == 0 {
        assert(rendered_versions::<D>(versions) + rest =~= rest);
        assert(versions =~= Seq::<PartView>::empty());
        lemma_no_parameter::<D>(rest);
    } else {
        let v = versions[0];
        let tail = versions.skip(1);
        assert(versions =~= seq![v] + tail);
        lemma_rendered_versions_front::<D>(v, tail);
        let body = v->Native_0;
        let first = parameter::<D>(body);
        let others = rendered_versions::<D>(tail);
        let s = rendered_versions::<D>(versions) + rest;
        assert(s =~= first + (others + rest));
        lemma_read_native_parameter_written::<D>(body, others + rest);
        assert forall|i: int| 0 <= i < tail.len() implies {
            &&& (#[trigger] tail[i]) is Native
            &&& bare::<D>(tail[i]->Native_0)
            &&& native_text::<D>(tail[i]->Native_0)
        } by {
            assert(tail[i] == versions[i + 1]);
        }
        lemma_versions_written::<D>(tail, rest);
        lemma_parse_versions_behind::<D>(first, others + rest, 0);
        assert(seq![PartView::Native(body)] + tail =~= versions);
    }
}

/// The parameters of a correction are read back.
pub proof fn lemma_correction_written<D: AtgDialect>(versions: Seq<PartView>, rest: Seq<char>)
    requires
        writable_dialect::<D>(),
        writable_versions::<D>(versions),
        versions.len() > 0,
        quiet::<D>(rest),
    ensures
        parse_correction::<D>(rendered_versions::<D>(versions) + rest, 0, versions.len()) == Ok::<
            Parsed<Seq<PartView>>,
            Fault,
        >(Parsed { value: versions, next: rendered_versions::<D>(versions).len() as int }),
{
    let v = versions[0];
    let tail = versions.skip(1);
    assert(versions =~= seq![v] + tail);
    lemma_rendered_versions_front::<D>(v, tail);
    let body = v->Native_0;
    let first = parameter::<D>(body);
    let others = rendered_versions::<D>(tail);
    let s = rendered_versions::<D>(versions) + rest;
    assert(s =~= first + (others + rest));
    lemma_read_native_parameter_written::<D>(body, others + rest);
    assert forall|i: int| 0 <= i < tail.len() implies {
        &&& (#[trigger] tail[i]) is Native
        &&& bare::<D>(tail[i]->Native_0)
        &&& native_text::<D>(tail[i]->Native_0)
    } by {
        assert(tail[i] == versions[i + 1]);
    }
    lemma_versions_written::<D>(tail, rest);
    lemma_parse_versions_behind::<D>(first, others + rest, 0);
    assert(seq![PartView::Native(body)] + tail =~= versions);
}

/// The name of a format break names that break and no other.
pub proof fn lemma_format_break_named(b: FormatBreak)
    ensures
        format_break_named(b.name()) == Some(b),
{
    reveal_strlit("line");
    reveal_strlit("column");
    reveal_strlit("paragraph");
    reveal_strlit("folio");
    assert("line"@.len() == 4 && "column"@.len() == 6 && "paragraph"@.len() == 9 && "folio"@.len()
        == 5);
}

/// The parameter of a format break is read back.
pub proof fn lemma_format_break_written<D: AtgDialect>(b: FormatBreak, rest: Seq<char>)
    requires
        writable_dialect::<D>(),
    ensures
        parse_format_break::<D>(parameter::<D>(b.name()) + rest, 0) == Ok::<
            Parsed<FormatBreak>,
            Fault,
        >(Parsed { value: b, next: parameter::<D>(b.name()).len() as int }),
{
    lemma_format_break_named(b);
    lemma_read_parameter_written::<D>(b.name(), rest);
}

/// The parameter of an anchor is read back.
pub proof fn lemma_anchor_written<D: AtgDialect>(a: Anchor, rest: Seq<char>)
    requires
        writable_dialect::<D>(),
        bare::<D>(a.text()),
    ensures
        parse_anchor::<D>(parameter::<D>(a.text()) + rest, 0, a.dialect()) == Ok::<
            Parsed<Anchor>,
            Fault,
        >(Parsed { value: a, next: parameter::<D>(a.text()).len() as int }),
{
    lemma_anchor_parsed_text(a);
    lemma_read_parameter_written::<D>(a.text(), rest);
}

/// Whether `c` is a control point with which a part starts that is neither
/// a native run nor a comment.
pub open spec fn starts_a_part<D: AtgDialect>(c: char) -> bool {
    let p = D::atg_control_points();
    c == p.illegible || c == p.lacuna || c == p.anchor || c == p.format_break || c
        == p.correction
}

/// An illegible passage is read back from what was written.
proof fn lemma_illegible_written<D: AtgDialect>(
    u: Passage,
    rest: Seq<char>,
    dialect: AnchorDialect,
    hands: nat,
)
    requires
        writable_dialect::<D>(),
        writable_passage::<D>(u),
        quiet::<D>(rest),
    ensures
        parse_part::<D>(rendered_part::<D>(PartView::Illegible(u)) + rest, 0, dialect, hands)
            == Ok::<Parsed<PartView>, Fault>(
            Parsed {
                value: PartView::Illegible(normal_passage(u)),
                next: rendered_part::<D>(PartView::Illegible(u)).len() as int,
            },
        ),
        rendered_part::<D>(PartView::Illegible(u)).len() > 0,
        rendered_part::<D>(PartView::Illegible(u))[0] == D::atg_control_points().illegible,
{
    lemma_distinguished::<D>();
    let points = D::atg_control_points();
    let p = PartView::Illegible(u);
    let s = rendered_part::<D>(p) + rest;
    let head = seq![points.illegible];
    assert(rendered_part::<D>(p) =~= head + passage_parameters::<D>(u));
    assert(s =~= head + (passage_parameters::<D>(u) + rest));
    assert(s[0] == points.illegible);
    lemma_read_bare::<D>(s, 0);
    lemma_passage_written::<D>(u, rest);
    lemma_parse_uncertain_behind::<D>(head, passage_parameters::<D>(u) + rest, 0);
}

/// A lacuna is read back from what was written.
proof fn lemma_lacuna_written<D: AtgDialect>(
    u: Passage,
    rest: Seq<char>,
    dialect: AnchorDialect,
    hands: nat,
)
    requires
        writable_dialect::<D>(),
        writable_passage::<D>(u),
        quiet::<D>(rest),
    ensures
        parse_part::<D>(rendered_part::<D>(PartView::Lacuna(u)) + rest, 0, dialect, hands) == Ok::<
            Parsed<PartView>,
            Fault,
        >(
            Parsed {
                value: PartView::Lacuna(normal_passage(u)),
                next: rendered_part::<D>(PartView::Lacuna(u)).len() as int,
            },
        ),
        rendered_part::<D>(PartView::Lacuna(u)).len() > 0,
        rendered_part::<D>(PartView::Lacuna(u))[0] == D::atg_control_points().lacuna,
{
    lemma_distinguished::<D>();
    let points = D::atg_control_points();
    let p = PartView::Lacuna(u);
    let s = rendered_part::<D>(p) + rest;
    let head = seq![points.lacuna];
    assert(rendered_part::<D>(p) =~= head + passage_parameters::<D>(u));
    assert(s =~= head + (passage_parameters::<D>(u) + rest));
    assert(s[0] == points.lacuna);
    lemma_read_bare::<D>(s, 0);
    lemma_passage_written::<D>(u, rest);
    lemma_parse_uncertain_behind::<D>(head, passage_parameters::<D>(u) + rest, 0);
}

/// A correction is read back from what was written.
proof fn lemma_correction_part_written<D: AtgDialect>(
    versions: Seq<PartView>,
    rest: Seq<char>,
    dialect: AnchorDialect,
)
    requires
        writable_dialect::<D>(),
        writable_versions::<D>(versions),
        versions.len() > 0,
        quiet::<D>(rest),
    ensures
        parse_part::<D>(
            rendered_part::<D>(PartView::Correction(versions)) + rest,
            0,
            dialect,
            versions.len(),
        ) == Ok::<Parsed<PartView>, Fault>(
            Parsed {
                value: PartView::Correction(versions),
                next: rendered_part::<D>(PartView::Correction(versions)).len() as int,
            },
        ),
        rendered_part::<D>(PartView::Correction(versions)).len() > 0,
        rendered_part::<D>(PartView::Correction(versions))[0]
            == D::atg_control_points().correction,
{
    lemma_distinguished::<D>();
    let points = D::atg_control_points();
    let p = PartView::Correction(versions);
    let s = rendered_part::<D>(p) + rest;
    let head = seq![points.correction];
    assert(s =~= head + (rendered_versions::<D>(versions) + rest));
    assert(s[0] == points.correction);
    lemma_read_bare::<D>(s, 0);
    lemma_correction_written::<D>(versions, rest);
    lemma_parse_correction_behind::<D>(
        head,
        rendered_versions::<D>(versions) + rest,
        0,
        versions.len(),
    );
}

/// A format break is read back from what was written.
proof fn lemma_format_break_part_written<D: AtgDialect>(
    b: FormatBreak,
    rest: Seq<char>,
    dialect: AnchorDialect,
    hands: nat,
)
    requires
        writable_dialect::<D>(),
    ensures
        parse_part::<D>(rendered_part::<D>(PartView::FormatBreak(b)) + rest, 0, dialect, hands)
            == Ok::<Parsed<PartView>, Fault>(
            Parsed {
                value: PartView::FormatBreak(b),
                next: rendered_part::<D>(PartView::FormatBreak(b)).len() as int,
            },
        ),
        rendered_part::<D>(PartView::FormatBreak(b)).len() > 0,
        rendered_part::<D>(PartView::FormatBreak(b))[0] == D::atg_control_points().format_break,
{
    lemma_distinguished::<D>();
    let points = D::atg_control_points();
    let p = PartView::FormatBreak(b);
    let s = rendered_part::<D>(p) + rest;
    let head = seq![points.format_break];
    assert(s =~= head + (parameter::<D>(b.name()) + rest));
    assert(s[0] == points.format_break);
    lemma_read_bare::<D>(s, 0);
    lemma_format_break_written::<D>(b, rest);
    lemma_parse_format_break_behind::<D>(head, parameter::<D>(b.name()) + rest, 0);
}

/// An anchor is read back from what was written.
proof fn lemma_anchor_part_written<D: AtgDialect>(a: Anchor, rest: Seq<char>, hands: nat)
    requires
        writable_dialect::<D>(),
        bare::<D>(a.text()),
    ensures
        parse_part::<D>(rendered_part::<D>(PartView::Anchor(a)) + rest, 0, a.dialect(), hands)
            == Ok::<Parsed<PartView>, Fault>(
            Parsed {
                value: PartView::Anchor(a),
                next: rendered_part::<D>(PartView::Anchor(a)).len() as int,
            },
        ),
        rendered_part::<D>(PartView::Anchor(a)).len() > 0,
        rendered_part::<D>(PartView::Anchor(a))[0] == D::atg_control_points().anchor,
{
    lemma_distinguished::<D>();
    let points = D::atg_control_points();
    let p = PartView::Anchor(a);
    let s = rendered_part::<D>(p) + rest;
    let head = seq![points.anchor];
    assert(s =~= head + (parameter::<D>(a.text()) + rest));
    assert(s[0] == points.anchor);
    lemma_read_bare::<D>(s, 0);
    lemma_anchor_written::<D>(a, rest);
    lemma_parse_anchor_behind::<D>(head, parameter::<D>(a.text()) + rest, 0, a.dialect());
}

/// A part that is no native run is read back from what was written,
/// whatever follows, unless a parameter or an escape follows.
pub proof fn lemma_part_written<D: AtgDialect>(
    p: PartView,
    rest: Seq<char>,
    dialect: AnchorDialect,
    hands: nat,
)
    requires
        writable_dialect::<D>(),
        writable_part::<D>(p, dialect, hands),
        !(p is Native),
        quiet::<D>(rest),
    ensures
        rendered_part::<D>(p).len() > 0,
        starts_a_part::<D>(rendered_part::<D>(p)[0]),
        parse_part::<D>(rendered_part::<D>(p) + rest, 0, dialect, hands) == Ok::<
            Parsed<PartView>,
            Fault,
        >(Parsed { value: normal_part(p), next: rendered_part::<D>(p).len() as int }),
{
    match p {
        PartView::Native(_) => {},
        PartView::Illegible(u) => {
            lemma_illegible_written::<D>(u, rest, dialect, hands);
        },
        PartView::Lacuna(u) => {
            lemma_lacuna_written::<D>(u, rest, dialect, hands);
        },
        PartView::Correction(versions) => {
            lemma_correction_part_written::<D>(versions, rest, dialect);
        },
        PartView::FormatBreak(b) => {
            lemma_format_break_part_written::<D>(b, rest, dialect, hands);
        },
        PartView::Anchor(a) => {
            lemma_anchor_part_written::<D>(a, rest, hands);
        },
    }
}

/// The first part of a text is written in front of the others.
pub proof fn lemma_rendered_text_front<D: AtgDialect>(p: PartView, tail: Seq<PartView>)
    ensures
        rendered_text::<D>(seq![p] + tail) == rendered_part::<D>(p) + rendered_text::<D>(tail),
    decreases tail.len(),
{
    let all = seq![p] + tail;
    if tail.len() == 0 {
        assert(all.drop_last() =~= Seq::<PartView>::empty());
        assert(rendered_text::<D>(all.drop_last()) =~= Seq::<char>::empty());
        assert(Seq::<char>::empty() + rendered_part::<D>(p) =~= rendered_part::<D>(p)
            + Seq::<char>::empty());
    } else {
        assert(all.drop_last() =~= seq![p] + tail.drop_last());
        lemma_rendered_text_front::<D>(p, tail.drop_last());
        assert(all.last() == tail.last());
        assert((rendered_part::<D>(p) + rendered_text::<D>(tail.drop_last())) + rendered_part::<D>(
            tail.last(),
        ) =~= rendered_part::<D>(p) + (rendered_text::<D>(tail.drop_last()) + rendered_part::<D>(
            tail.last(),
        )));
    }
}

/// What is written of a text starts neither a parameter nor an escape.
pub proof fn lemma_rendered_text_quiet<D: AtgDialect>(
    t: Seq<PartView>,
    dialect: AnchorDialect,
    hands: nat,
)
    requires
        writable_dialect::<D>(),
        writable_text::<D>(t, dialect, hands),
    ensures
        quiet::<D>(rendered_text::<D>(t)),
    decreases t.len(),
{
    lemma_distinguished::<D>();
    if t.len() > 0 {
        let p = t[0];
        let tail = t.skip(1);
        assert(t =~= seq![p] + tail);
        lemma_rendered_text_front::<D>(p, tail);
        assert forall|i: int| 0 <= i < tail.len() implies writable_part::<D>(
            #[trigger] tail[i],
            dialect,
            hands,
        ) by {
            assert(tail[i] == t[i + 1]);
        }
        lemma_rendered_text_quiet::<D>(tail, dialect, hands);
        let head = rendered_part::<D>(p);
        let all = head + rendered_text::<D>(tail);
        match p {
            PartView::Native(y) => {
                if y.len() > 0 {
                    assert(all[0] == y[0]);
                } else {
                    assert(all =~= rendered_text::<D>(tail));
                }
            },
            _ => {
                lemma_part_written::<D>(p, Seq::empty(), dialect, hands);
                assert(all[0] == head[0]);
            },
        }
    }
}

/// A native run alone is read back from what was written.
proof fn lemma_run_written<D: AtgDialect>(x: Seq<char>, dialect: AnchorDialect, hands: nat)
    requires
        writable_dialect::<D>(),
        plain::<D>(x),
    ensures
        parse_parts::<D>(x, 0, dialect, hands) == Ok::<Seq<PartView>, Fault>(
            coalesced(x, Seq::empty()),
        ),
{
    if x.len() > 0 {
        lemma_native_part_written::<D>(x, Seq::empty(), dialect, hands);
        assert(x + Seq::<char>::empty() =~= x);
        let part = parse_part::<D>(x, 0, dialect, hands);
        assert(part == Ok::<Parsed<PartView>, Fault>(
            Parsed { value: PartView::Native(x), next: x.len() as int },
        ));
        assert(parse_parts::<D>(x, x.len() as int, dialect, hands) == Ok::<Seq<PartView>, Fault>(
            Seq::empty(),
        ));
        assert(seq![PartView::Native(x)] + Seq::<PartView>::empty() =~= seq![PartView::Native(x)]);
    }
}

/// A part that is no native run, with what follows it, is read back from
/// what was written, if what follows is.
proof fn lemma_part_and_rest_written<D: AtgDialect>(
    p: PartView,
    tail: Seq<PartView>,
    dialect: AnchorDialect,
    hands: nat,
)
    requires
        writable_dialect::<D>(),
        writable_part::<D>(p, dialect, hands),
        !(p is Native),
        writable_text::<D>(tail, dialect, hands),
        parse_parts::<D>(rendered_text::<D>(tail), 0, dialect, hands) == Ok::<
            Seq<PartView>,
            Fault,
        >(coalesced(Seq::empty(), tail)),
    ensures
        parse_parts::<D>(
            rendered_part::<D>(p) + rendered_text::<D>(tail),
            0,
            dialect,
            hands,
        ) == Ok::<Seq<PartView>, Fault>(
            seq![normal_part(p)] + coalesced(Seq::empty(), tail),
        ),
        rendered_part::<D>(p).len() > 0,
        starts_a_part::<D>(rendered_part::<D>(p)[0]),
{
    let written = rendered_part::<D>(p);
    let behind = rendered_text::<D>(tail);
    let from_part = written + behind;
    lemma_rendered_text_quiet::<D>(tail, dialect, hands);
    lemma_part_written::<D>(p, behind, dialect, hands);
    lemma_parse_parts_behind::<D>(written, behind, 0, dialect, hands);
    let part = parse_part::<D>(from_part, 0, dialect, hands);
    assert(part == Ok::<Parsed<PartView>, Fault>(
        Parsed { value: normal_part(p), next: written.len() as int },
    ));
    assert(parse_parts::<D>(from_part, written.len() as int, dialect, hands) == Ok::<
        Seq<PartView>,
        Fault,
    >(coalesced(Seq::empty(), tail)));
}

/// A native run that is not empty, with parts behind it that start with
/// one that is no native run, is read back from what was written, if the
/// parts are.
proof fn lemma_run_and_parts_written<D: AtgDialect>(
    x: Seq<char>,
    from_part: Seq<char>,
    parts: Seq<PartView>,
    dialect: AnchorDialect,
    hands: nat,
)
    requires
        writable_dialect::<D>(),
        plain::<D>(x),
        x.len() > 0,
        from_part.len() > 0,
        starts_a_part::<D>(from_part[0]),
        parse_parts::<D>(from_part, 0, dialect, hands) == Ok::<Seq<PartView>, Fault>(parts),
    ensures
        parse_parts::<D>(x + from_part, 0, dialect, hands) == Ok::<Seq<PartView>, Fault>(
            seq![PartView::Native(x)] + parts,
        ),
{
    let s = x + from_part;
    lemma_native_part_written::<D>(x, from_part, dialect, hands);
    lemma_parse_parts_behind::<D>(x, from_part, 0, dialect, hands);
    let part = parse_part::<D>(s, 0, dialect, hands);
    assert(part == Ok::<Parsed<PartView>, Fault>(
        Parsed { value: PartView::Native(x), next: x.len() as int },
    ));
    assert(parse_parts::<D>(s, x.len() as int, dialect, hands) == Ok::<Seq<PartView>, Fault>(
        parts,
    ));
}

/// A native run and a text behind it are read back from what was written,
/// in the form in which the parser gives a text.
pub proof fn lemma_parts_written<D: AtgDialect>(
    x: Seq<char>,
    t: Seq<PartView>,
    dialect: AnchorDialect,
    hands: nat,
)
    requires
        writable_dialect::<D>(),
        plain::<D>(x),
        writable_text::<D>(t, dialect, hands),
    ensures
        parse_parts::<D>(x + rendered_text::<D>(t), 0, dialect, hands) == Ok::<
            Seq<PartView>,
            Fault,
        >(coalesced(x, t)),
    decreases t.len(),
{
    let s = x + rendered_text::<D>(t);
    if t.len() == 0 {
        assert(s =~= x);
        assert(t =~= Seq::<PartView>::empty());
        lemma_run_written::<D>(x, dialect, hands);
    } else {
        let p = t[0];
        let tail = t.skip(1);
        assert(t =~= seq![p] + tail);
        lemma_rendered_text_front::<D>(p, tail);
        assert forall|i: int| 0 <= i < tail.len() implies writable_part::<D>(
            #[trigger] tail[i],
            dialect,
            hands,
        ) by {
            assert(tail[i] == t[i + 1]);
        }
        match p {
            PartView::Native(y) => {
                assert(s =~= (x + y) + rendered_text::<D>(tail));
                assert forall|i: int| 0 <= i < (x + y).len() implies !D::atg_control_points().control_point(
                    #[trigger] (x + y)[i],
                ) by {
                    if i >= x.len() {
                        assert((x + y)[i] == y[i - x.len()]);
                    }
                }
                lemma_parts_written::<D>(x + y, tail, dialect, hands);
            },
            _ => {
                let behind = rendered_text::<D>(tail);
                let from_part = rendered_part::<D>(p) + behind;
                let parts = seq![normal_part(p)] + coalesced(Seq::empty(), tail);
                lemma_parts_written::<D>(Seq::empty(), tail, dialect, hands);
                assert(Seq::<char>::empty() + behind =~= behind);
                lemma_part_and_rest_written::<D>(p, tail, dialect, hands);
                if x.len() == 0 {
                    assert(s =~= from_part);
                    assert(Seq::<PartView>::empty() + seq![normal_part(p)] + coalesced(
                        Seq::empty(),
                        tail,
                    ) =~= parts);
                } else {
                    assert(s =~= x + from_part);
                    assert(from_part[0] == rendered_part::<D>(p)[0]);
                    lemma_run_and_parts_written::<D>(x, from_part, parts, dialect, hands);
                    assert(seq![PartView::Native(x)] + parts =~= seq![PartView::Native(x)] + seq![
                        normal_part(p),
                    ] + coalesced(Seq::empty(), tail));
                }
            },
        }
    }
}

/// A plain stretch that is not empty, before a control point that starts a
/// part or before the end of the input, is read as one native part.
pub proof fn lemma_native_part_written<D: AtgDialect>(
    x: Seq<char>,
    rest: Seq<char>,
    dialect: AnchorDialect,
    hands: nat,
)
    requires
        D::atg_control_points().well_formed(),
        plain::<D>(x),
        x.len() > 0,
        rest.len() > 0 ==> starts_a_part::<D>(rest[0]),
    ensures
        parse_part::<D>(x + rest, 0, dialect, hands) == Ok::<Parsed<PartView>, Fault>(
            Parsed { value: PartView::Native(x), next: x.len() as int },
        ),
{
    lemma_distinguished::<D>();
    let s = x + rest;
    assert(s[0] == x[0]);
    lemma_read_bare::<D>(s, 0);
    lemma_parse_native_written::<D>(x, rest);
}

/// Every text that can be written is read back from what is written of it,
/// in its normal form: native runs that follow each other as one run, no
/// empty run, and no empty proposal. Where nothing is written, the text
/// that is read is one empty native run.
pub proof fn lemma_parse_rendered<D: AtgDialect>(
    t: Seq<PartView>,
    dialect: AnchorDialect,
    hands: nat,
)
    requires
        writable_dialect::<D>(),
        writable_text::<D>(t, dialect, hands),
    ensures
        parse_text::<D>(rendered_text::<D>(t), dialect, hands) == Ok::<Seq<PartView>, Fault>(
            if rendered_text::<D>(t).len() == 0 {
                seq![PartView::Native(Seq::empty())]
            } else {
                normal_text(t)
            },
        ),
        normal_text(parse_text::<D>(rendered_text::<D>(t), dialect, hands)->Ok_0) == normal_text(
            t,
        ),
{
    lemma_parts_written::<D>(Seq::empty(), t, dialect, hands);
    assert(Seq::<char>::empty() + rendered_text::<D>(t) =~= rendered_text::<D>(t));
    if rendered_text::<D>(t).len() == 0 {
        let one = seq![PartView::Native(Seq::<char>::empty())];
        let nothing = Seq::<char>::empty();
        assert(one.skip(1) =~= Seq::<PartView>::empty());
        assert(nothing + nothing =~= nothing);
        assert(one[0] == PartView::Native(nothing));
        assert(coalesced(nothing, one) == coalesced(nothing + nothing, one.skip(1)));
        assert(coalesced(nothing, one.skip(1)) =~= Seq::<PartView>::empty());
        assert(normal_text(one) =~= Seq::<PartView>::empty());
        assert(parse_parts::<D>(rendered_text::<D>(t), 0, dialect, hands) == Ok::<
            Seq<PartView>,
            Fault,
        >(Seq::empty()));
    } else {
        lemma_normal_text_is_normal(Seq::empty(), t);
    }
}

/// The normal form of a text is its own normal form.
pub proof fn lemma_normal_text_is_normal(x: Seq<char>, t: Seq<PartView>)
    ensures
        normal_text(coalesced(x, t)) == coalesced(x, t),
    decreases t.len(),
{
    let empty = Seq::<char>::empty();
    if t.len() == 0 {
        if x.len() > 0 {
            let one = seq![PartView::Native(x)];
            assert(one.skip(1) =~= Seq::<PartView>::empty());
            assert(empty + x =~= x);
            assert(one[0] == PartView::Native(x));
            assert(coalesced(empty, one) == coalesced(empty + x, one.skip(1)));
            assert(coalesced(x, one.skip(1)) == one);
        }
    } else {
        let tail = t.skip(1);
        match t[0] {
            PartView::Native(y) => {
                lemma_normal_text_is_normal(x + y, tail);
            },
            p => {
                lemma_normal_text_is_normal(empty, tail);
                let rest = coalesced(empty, tail);
                let np = normal_part(p);
                assert(normal_part(np) == np);
                assert(!(np is Native));
                let from_part = seq![np] + rest;
                assert(from_part.skip(1) =~= rest);
                assert(from_part[0] == np);
                assert(coalesced(empty, from_part) == Seq::<PartView>::empty() + seq![np]
                    + coalesced(empty, rest));
                assert(coalesced(empty, from_part) =~= from_part);
                if x.len() == 0 {
                    assert(coalesced(x, t) =~= from_part);
                } else {
                    let all = seq![PartView::Native(x)] + seq![np] + rest;
                    assert(coalesced(x, t) =~= all);
                    assert(all[0] == PartView::Native(x));
                    assert(all.skip(1) =~= from_part);
                    assert(empty + x =~= x);
                    assert(coalesced(empty, all) == coalesced(empty + x, all.skip(1)));
                    assert(coalesced(x, from_part) == seq![PartView::Native(x)] + seq![np]
                        + coalesced(empty, rest));
                    assert(coalesced(empty, all) =~= all);
                }
            },
        }
    }
}

} // verus!
