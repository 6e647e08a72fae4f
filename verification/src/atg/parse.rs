//! The parser: from the scalars of a string to the parts of a text.

use vstd::prelude::*;
use crate::anchor::{Anchor, AnchorDialect};
use crate::atg::{native_text, AtgDialect, AtgParseError, AtgParseErrorReason, Fault, Reason};
use crate::atg::escape::{
    lemma_read_until_control_moves, lemma_read_until_moves, located, read_char, read_char_at,
    read_until_control, read_until_control_at, rest_of, Defect, Run,
};
use crate::atg::parameter::{
    body_start, lemma_foreign_from, read_native_parameter, read_native_parameter_at,
    read_parameter, read_parameter_at,
};
use crate::atg::text::{
    versions_view, Correction, FormatBreak, Part, PartView, Passage, Present, Text, Uncertain,
    UncertainReason,
};
use crate::numerals::{parse_u8, parsed_u8};
use crate::scalars::{byte_offset, chars_of, offset_of, same_text};

verus! {

/// What was parsed, and the index at which parsing goes on.
pub struct Parsed<T> {
    pub value: T,
    pub next: int,
}

/// The length that a text denotes: a number from 1 to 255.
pub open spec fn parsed_length(s: Seq<char>) -> Option<u8> {
    match parsed_u8(s) {
        Some(n) => if n > 0 {
            Some(n)
        } else {
            None
        },
        None => None,
    }
}

/// Parses the parameters of an uncertain passage at index `i`: its length, a
/// number from 1 to 255, and then, where a parameter follows, its proposal,
/// which has to be native. An empty proposal is none.
pub open spec fn parse_uncertain<D: AtgDialect>(s: Seq<char>, i: int) -> Result<
    Parsed<Passage>,
    Fault,
> {
    match read_parameter::<D>(s, i) {
        Err(f) => Err(f),
        Ok(first) => match parsed_length(first.text) {
            None => Err(
                Fault {
                    location: body_start::<D>(s, i) as nat,
                    reason: Reason::LengthNotANumber(first.text),
                },
            ),
            Some(len) => match read_native_parameter::<D>(s, first.next) {
                Ok(second) => Ok(
                    Parsed {
                        value: Passage {
                            len,
                            proposal: if second.text.len() == 0 {
                                None
                            } else {
                                Some(second.text)
                            },
                        },
                        next: second.next,
                    },
                ),
                Err(f) => if f.reason is MissingParameterStart {
                    Ok(Parsed { value: Passage { len, proposal: None }, next: first.next })
                } else {
                    Err(f)
                },
            },
        },
    }
}

/// The result that puts the version `v` in front of the versions of `r`.
pub open spec fn versions_after(v: Seq<char>, r: Result<Parsed<Seq<PartView>>, Fault>) -> Result<
    Parsed<Seq<PartView>>,
    Fault,
> {
    match r {
        Ok(p) => Ok(Parsed { value: seq![PartView::Native(v)] + p.value, next: p.next }),
        Err(f) => Err(f),
    }
}

/// Parses native parameters at index `i` for as long as one starts there.
///
/// A parameter always ends behind its start and within the input; the
/// definition asks for it so that it is seen to end.
pub open spec fn parse_versions<D: AtgDialect>(s: Seq<char>, i: int) -> Result<
    Parsed<Seq<PartView>>,
    Fault,
>
    decreases s.len() - i,
{
    match read_native_parameter::<D>(s, i) {
        Ok(run) => if i < run.next <= s.len() {
            versions_after(run.text, parse_versions::<D>(s, run.next))
        } else {
            Ok(Parsed { value: Seq::empty(), next: i })
        },
        Err(f) => if f.reason is MissingParameterStart {
            Ok(Parsed { value: Seq::empty(), next: i })
        } else {
            Err(f)
        },
    }
}

/// Parses the parameters of a correction at index `i`: at least one native
/// parameter, and as many as the witness has hands. Another number is a
/// fault behind the last parameter.
pub open spec fn parse_correction<D: AtgDialect>(s: Seq<char>, i: int, hands: nat) -> Result<
    Parsed<Seq<PartView>>,
    Fault,
> {
    match read_native_parameter::<D>(s, i) {
        Err(f) => Err(f),
        Ok(first) => match versions_after(first.text, parse_versions::<D>(s, first.next)) {
            Err(f) => Err(f),
            Ok(all) => if all.value.len() != hands {
                Err(
                    Fault {
                        location: all.next as nat,
                        reason: Reason::IncorrectNumberOfCorrections(hands, all.value.len()),
                    },
                )
            } else {
                Ok(all)
            },
        },
    }
}

/// The format break that a parameter names.
pub open spec fn format_break_named(name: Seq<char>) -> Option<FormatBreak> {
    if name == "line"@ {
        Some(FormatBreak::Line)
    } else if name == "paragraph"@ {
        Some(FormatBreak::Paragraph)
    } else if name == "column"@ {
        Some(FormatBreak::Column)
    } else if name == "folio"@ {
        Some(FormatBreak::Folio)
    } else {
        None
    }
}

/// Parses the parameter of a format break at index `i`.
pub open spec fn parse_format_break<D: AtgDialect>(s: Seq<char>, i: int) -> Result<
    Parsed<FormatBreak>,
    Fault,
> {
    match read_parameter::<D>(s, i) {
        Err(f) => Err(f),
        Ok(run) => match format_break_named(run.text) {
            Some(b) => Ok(Parsed { value: b, next: run.next }),
            None => Err(
                Fault {
                    location: body_start::<D>(s, i) as nat,
                    reason: Reason::UnknownFormatBreak(run.text),
                },
            ),
        },
    }
}

/// Parses the parameter of an anchor at index `i`, in the given anchor
/// dialect.
pub open spec fn parse_anchor<D: AtgDialect>(s: Seq<char>, i: int, dialect: AnchorDialect) -> Result<
    Parsed<Anchor>,
    Fault,
> {
    match read_parameter::<D>(s, i) {
        Err(f) => Err(f),
        Ok(run) => match dialect.parsed(run.text) {
            Ok(a) => Ok(Parsed { value: a, next: run.next }),
            Err(e) => Err(
                Fault { location: body_start::<D>(s, i) as nat, reason: Reason::Anchor(e) },
            ),
        },
    }
}

/// The result that puts `text` in front of the native run of `r`.
pub open spec fn native_after(text: Seq<char>, r: Result<Parsed<Seq<char>>, Fault>) -> Result<
    Parsed<Seq<char>>,
    Fault,
> {
    match r {
        Ok(p) => Ok(Parsed { value: text + p.value, next: p.next }),
        Err(f) => Err(f),
    }
}

/// Parses a native run at index `i`: all that is read up to the next control
/// point that is neither a comment nor without meaning. A comment is left
/// out with its parameter, a scalar without meaning is left out; parsing
/// goes on at the control point that ended the run.
///
/// A comment and a scalar without meaning always end behind the start of
/// the run and within the input; the definition asks for it so that it is
/// seen to end.
pub open spec fn parse_native<D: AtgDialect>(s: Seq<char>, i: int) -> Result<
    Parsed<Seq<char>>,
    Fault,
>
    decreases s.len() - i,
{
    let points = D::atg_control_points();
    match read_until_control::<D>(s, i) {
        Err(f) => Err(f),
        Ok(h) => match h.control {
            None => Ok(Parsed { value: h.text, next: s.len() as int }),
            Some(c) => if c == points.comment {
                match read_parameter::<D>(s, h.next) {
                    Err(f) => Err(f),
                    Ok(comment) => if i < comment.next <= s.len() {
                        native_after(h.text, parse_native::<D>(s, comment.next))
                    } else {
                        Ok(Parsed { value: h.text, next: h.at })
                    },
                }
            } else if points.non_semantic_point(c) {
                if i < h.next <= s.len() {
                    native_after(h.text, parse_native::<D>(s, h.next))
                } else {
                    Ok(Parsed { value: h.text, next: h.at })
                }
            } else {
                Ok(Parsed { value: h.text, next: h.at })
            },
        },
    }
}

/// The same result with its value turned into a part.
pub open spec fn as_part<T>(r: Result<Parsed<T>, Fault>, f: spec_fn(T) -> PartView) -> Result<
    Parsed<PartView>,
    Fault,
> {
    match r {
        Ok(p) => Ok(Parsed { value: f(p.value), next: p.next }),
        Err(e) => Err(e),
    }
}

/// Parses one part at index `i`. The scalar read there decides: the control
/// point of an illegible passage, of a lacuna, of an anchor, of a format
/// break or of a correction is followed by its parameters; a comment is left
/// out and a native run follows; anything else starts a native run. At the
/// end of the input the part is an empty native run.
pub open spec fn parse_part<D: AtgDialect>(
    s: Seq<char>,
    i: int,
    dialect: AnchorDialect,
    hands: nat,
) -> Result<Parsed<PartView>, Fault> {
    let points = D::atg_control_points();
    if !(0 <= i < s.len()) {
        Ok(Parsed { value: PartView::Native(Seq::empty()), next: i })
    } else {
        match read_char::<D>(s, i) {
            Err(x) => Err(Fault { location: i as nat, reason: Reason::EscapeMalformed(x) }),
            Ok(c) => if c.value == points.illegible {
                as_part(parse_uncertain::<D>(s, c.next), |u: Passage| PartView::Illegible(u))
            } else if c.value == points.lacuna {
                as_part(parse_uncertain::<D>(s, c.next), |u: Passage| PartView::Lacuna(u))
            } else if c.value == points.anchor {
                as_part(parse_anchor::<D>(s, c.next, dialect), |a: Anchor| PartView::Anchor(a))
            } else if c.value == points.format_break {
                as_part(
                    parse_format_break::<D>(s, c.next),
                    |b: FormatBreak| PartView::FormatBreak(b),
                )
            } else if c.value == points.correction {
                as_part(
                    parse_correction::<D>(s, c.next, hands),
                    |v: Seq<PartView>| PartView::Correction(v),
                )
            } else if c.value == points.comment {
                match read_parameter::<D>(s, c.next) {
                    Err(f) => Err(f),
                    Ok(comment) => as_part(
                        parse_native::<D>(s, comment.next),
                        |t: Seq<char>| PartView::Native(t),
                    ),
                }
            } else {
                as_part(parse_native::<D>(s, i), |t: Seq<char>| PartView::Native(t))
            },
        }
    }
}

/// The result that puts the part `p` in front of the parts of `r`.
pub open spec fn parts_after(p: PartView, r: Result<Seq<PartView>, Fault>) -> Result<
    Seq<PartView>,
    Fault,
> {
    match r {
        Ok(parts) => Ok(seq![p] + parts),
        Err(f) => Err(f),
    }
}

/// Parses parts from index `i` on until the input ends. A part that takes
/// nothing of the input stands at a control point with which no part
/// starts: that is a fault.
pub open spec fn parse_parts<D: AtgDialect>(
    s: Seq<char>,
    i: int,
    dialect: AnchorDialect,
    hands: nat,
) -> Result<Seq<PartView>, Fault>
    decreases s.len() - i,
{
    if !(0 <= i < s.len()) {
        Ok(Seq::empty())
    } else {
        match parse_part::<D>(s, i, dialect, hands) {
            Err(f) => Err(f),
            Ok(p) => if i < p.next <= s.len() {
                parts_after(p.value, parse_parts::<D>(s, p.next, dialect, hands))
            } else {
                Err(
                    Fault {
                        location: i as nat,
                        reason: Reason::UnexpectedControlPoint(
                            match read_char::<D>(s, i) {
                                Ok(c) => c.value,
                                Err(_) => s[i],
                            },
                        ),
                    },
                )
            },
        }
    }
}

/// Parses a text: its parts up to the end of the input. The empty input is
/// the text of one empty native run.
pub open spec fn parse_text<D: AtgDialect>(s: Seq<char>, dialect: AnchorDialect, hands: nat) -> Result<
    Seq<PartView>,
    Fault,
> {
    if s.len() == 0 {
        Ok(seq![PartView::Native(Seq::empty())])
    } else {
        parse_parts::<D>(s, 0, dialect, hands)
    }
}

/// Whether an uncertain passage is as the parser gives it: its length is
/// at least 1, and its proposal, if it has one, is not empty and holds
/// native scalars only.
pub open spec fn well_formed_passage<D: AtgDialect>(u: Passage) -> bool {
    u.len > 0 && match u.proposal {
        Some(p) => p.len() > 0 && native_text::<D>(p),
        None => true,
    }
}

/// Whether the versions of a correction are as the parser gives them: each
/// is a native run of native scalars.
pub open spec fn native_versions<D: AtgDialect>(versions: Seq<PartView>) -> bool {
    forall|i: int|
        0 <= i < versions.len() ==> (#[trigger] versions[i]) is Native && native_text::<D>(
            versions[i]->Native_0,
        )
}

/// Whether a part is as the parser gives it for a witness with the given
/// anchor dialect and number of hands: an uncertain passage has a length of
/// at least 1, a proposal is native and not empty, a correction has one
/// native version for each hand, an anchor is of the anchor dialect.
pub open spec fn well_formed_part<D: AtgDialect>(p: PartView, dialect: AnchorDialect, hands: nat) -> bool {
    match p {
        PartView::Native(_) => true,
        PartView::Illegible(u) => well_formed_passage::<D>(u),
        PartView::Lacuna(u) => well_formed_passage::<D>(u),
        PartView::Correction(versions) => versions.len() == hands && native_versions::<D>(
            versions,
        ),
        PartView::FormatBreak(_) => true,
        PartView::Anchor(a) => a.dialect() == dialect,
    }
}

/// Whether every part of a text is as the parser gives it.
pub open spec fn well_formed_text<D: AtgDialect>(t: Seq<PartView>, dialect: AnchorDialect, hands: nat) -> bool {
    forall|i: int| 0 <= i < t.len() ==> well_formed_part::<D>(#[trigger] t[i], dialect, hands)
}

/// A native parameter that is read holds native scalars only.
pub proof fn lemma_native_parameter_is_native<D: AtgDialect>(s: Seq<char>, i: int)
    ensures
        read_native_parameter::<D>(s, i) is Ok ==> native_text::<D>(
            read_native_parameter::<D>(s, i)->Ok_0.text,
        ),
{
    if let Ok(run) = read_parameter::<D>(s, i) {
        lemma_foreign_from::<D>(run.text, 0);
    }
}

/// The versions that are parsed are native runs of native scalars.
pub proof fn lemma_versions_are_native<D: AtgDialect>(s: Seq<char>, i: int)
    ensures
        parse_versions::<D>(s, i) is Ok ==> native_versions::<D>(
            parse_versions::<D>(s, i)->Ok_0.value,
        ),
    decreases s.len() - i,
{
    lemma_native_parameter_is_native::<D>(s, i);
    if let Ok(run) = read_native_parameter::<D>(s, i) {
        if i < run.next <= s.len() {
            lemma_versions_are_native::<D>(s, run.next);
            if let Ok(p) = parse_versions::<D>(s, run.next) {
                let all = seq![PartView::Native(run.text)] + p.value;
                assert forall|k: int| 0 <= k < all.len() implies (#[trigger] all[k]) is Native
                    && native_text::<D>(all[k]->Native_0) by {
                    if k > 0 {
                        assert(all[k] == p.value[k - 1]);
                    }
                }
            }
        }
    }
}

/// Every part that is parsed is well formed.
pub proof fn lemma_parsed_part_is_well_formed<D: AtgDialect>(
    s: Seq<char>,
    i: int,
    dialect: AnchorDialect,
    hands: nat,
)
    ensures
        parse_part::<D>(s, i, dialect, hands) is Ok ==> well_formed_part::<D>(
            parse_part::<D>(s, i, dialect, hands)->Ok_0.value,
            dialect,
            hands,
        ),
{
    if 0 <= i < s.len() {
        if let Ok(c) = read_char::<D>(s, i) {
            if let Ok(first) = read_parameter::<D>(s, c.next) {
                lemma_native_parameter_is_native::<D>(s, first.next);
            }
            lemma_native_parameter_is_native::<D>(s, c.next);
            if let Ok(first) = read_native_parameter::<D>(s, c.next) {
                lemma_versions_are_native::<D>(s, first.next);
                if let Ok(p) = parse_versions::<D>(s, first.next) {
                    let all = seq![PartView::Native(first.text)] + p.value;
                    assert forall|k: int| 0 <= k < all.len() implies (#[trigger] all[k]) is Native
                        && native_text::<D>(all[k]->Native_0) by {
                        if k > 0 {
                            assert(all[k] == p.value[k - 1]);
                        }
                    }
                }
            }
        }
    }
}

/// Every text that is parsed is well formed: its uncertain passages have a
/// length of at least 1, its proposals are native and not empty, its
/// corrections have one native version for each hand of the witness, and
/// its anchors are of the anchor dialect of the witness.
pub proof fn lemma_parsed_text_is_well_formed<D: AtgDialect>(
    s: Seq<char>,
    dialect: AnchorDialect,
    hands: nat,
)
    ensures
        parse_text::<D>(s, dialect, hands) is Ok ==> well_formed_text::<D>(
            parse_text::<D>(s, dialect, hands)->Ok_0,
            dialect,
            hands,
        ),
{
    lemma_parsed_parts_are_well_formed::<D>(s, 0, dialect, hands);
}

/// The parts that are parsed from an index on are well formed.
pub proof fn lemma_parsed_parts_are_well_formed<D: AtgDialect>(
    s: Seq<char>,
    i: int,
    dialect: AnchorDialect,
    hands: nat,
)
    ensures
        parse_parts::<D>(s, i, dialect, hands) is Ok ==> well_formed_text::<D>(
            parse_parts::<D>(s, i, dialect, hands)->Ok_0,
            dialect,
            hands,
        ),
    decreases s.len() - i,
{
    if 0 <= i < s.len() {
        lemma_parsed_part_is_well_formed::<D>(s, i, dialect, hands);
        if let Ok(p) = parse_part::<D>(s, i, dialect, hands) {
            if i < p.next <= s.len() {
                lemma_parsed_parts_are_well_formed::<D>(s, p.next, dialect, hands);
                if let Ok(rest) = parse_parts::<D>(s, p.next, dialect, hands) {
                    let all = seq![p.value] + rest;
                    assert forall|k: int| 0 <= k < all.len() implies well_formed_part::<D>(
                        #[trigger] all[k],
                        dialect,
                        hands,
                    ) by {
                        if k > 0 {
                            assert(all[k] == rest[k - 1]);
                        }
                    }
                }
            }
        }
    }
}

/// Parses the parameters of an uncertain passage at index `i`.
pub fn parse_uncertain_at<D: AtgDialect, T: UncertainReason>(input: &Vec<char>, i: usize) -> (r:
    Result<(Uncertain<T>, usize), Defect>)
    requires
        i <= input.len(),
    ensures
        match (parse_uncertain::<D>(input@, i as int), r) {
            (Ok(p), Ok((u, next))) => u@ == p.value && next == p.next,
            (Err(f), Err(d)) => d@ == f,
            _ => false,
        },
        r is Ok ==> i < r->Ok_0.1 <= input.len(),
        r is Err ==> r->Err_0.at <= input.len(),
{
    let (first, next) = read_parameter_at::<D>(input, i)?;
    let digits = chars_of(first.as_str());
    let len = match parse_u8(&digits) {
        Some(len) if len > 0 => len,
        _ => {
            let body = match read_char_at::<D>(input, i) {
                Ok((_, body)) => body,
                Err(_) => i,
            };
            return Err(Defect { at: body, reason: AtgParseErrorReason::LengthNotANumber(first) });
        },
    };
    match read_native_parameter_at::<D>(input, next) {
        Ok((proposal, after)) => {
            let proposal = if proposal.as_str().unicode_len() == 0 {
                None
            } else {
                Some(proposal)
            };
            Ok((Uncertain::new(len, proposal), after))
        },
        Err(Defect { at, reason }) => match reason {
            AtgParseErrorReason::MissingParameterStart => Ok((Uncertain::new(len, None), next)),
            other => Err(Defect { at, reason: other }),
        },
    }
}

/// One more version read in front of the versions of `r`, behind the
/// versions `acc` that were read before.
proof fn lemma_versions_step(
    acc: Seq<PartView>,
    v: Seq<char>,
    r: Result<Parsed<Seq<PartView>>, Fault>,
)
    ensures
        match (versions_after(v, r), r) {
            (Ok(p), Ok(q)) => acc + p.value == acc.push(PartView::Native(v)) + q.value && p.next
                == q.next,
            (Err(f), Err(g)) => f == g,
            _ => false,
        },
{
    if let Ok(q) = r {
        assert(acc + (seq![PartView::Native(v)] + q.value) =~= acc.push(PartView::Native(v))
            + q.value);
    }
}

/// Parses the parameters of a correction at index `i`.
pub fn parse_correction_at<D: AtgDialect>(input: &Vec<char>, i: usize, hands: usize) -> (r: Result<
    (Correction, usize),
    Defect,
>)
    requires
        i <= input.len(),
    ensures
        match (parse_correction::<D>(input@, i as int, hands as nat), r) {
            (Ok(p), Ok((c, next))) => c@ == p.value && next == p.next,
            (Err(f), Err(d)) => d@ == f,
            _ => false,
        },
        r is Ok ==> i < r->Ok_0.1 <= input.len(),
        r is Err ==> r->Err_0.at <= input.len(),
{
    let (first, start) = read_native_parameter_at::<D>(input, i)?;
    let ghost head = first@;
    let ghost goal = versions_after(head, parse_versions::<D>(input@, start as int));
    let mut versions: Vec<Present> = Vec::new();
    versions.push(Present::Native(first));
    let mut at: usize = start;
    let ghost mut acc: Seq<PartView> = seq![PartView::Native(head)];
    proof {
        assert(versions_view(versions@) =~= acc);
        lemma_versions_step(Seq::empty(), head, parse_versions::<D>(input@, start as int));
        assert(Seq::<PartView>::empty().push(PartView::Native(head)) =~= acc);
        if let Ok(p) = goal {
            assert(Seq::<PartView>::empty() + p.value =~= p.value);
        }
    }
    loop
        invariant
            i < at <= input.len(),
            versions.len() > 0,
            acc == versions_view(versions@),
            read_native_parameter::<D>(input@, i as int) == Ok::<Run, Fault>(
                Run { text: head, next: start as int },
            ),
            goal == versions_after(head, parse_versions::<D>(input@, start as int)),
            match (goal, parse_versions::<D>(input@, at as int)) {
                (Ok(p), Ok(q)) => p.value == acc + q.value && p.next == q.next,
                (Err(f), Err(g)) => f == g,
                _ => false,
            },
        decreases input.len() - at,
    {
        match read_native_parameter_at::<D>(input, at) {
            Ok((parameter, next)) => {
                proof {
                    lemma_versions_step(
                        acc,
                        parameter@,
                        parse_versions::<D>(input@, next as int),
                    );
                    assert(versions_view(versions@.push(Present::Native(parameter)))
                        =~= acc.push(PartView::Native(parameter@)));
                    acc = acc.push(PartView::Native(parameter@));
                }
                versions.push(Present::Native(parameter));
                at = next;
            },
            Err(Defect { at: place, reason }) => match reason {
                AtgParseErrorReason::MissingParameterStart => {
                    proof {
                        assert(acc + Seq::<PartView>::empty() =~= acc);
                    }
                    if versions.len() != hands {
                        return Err(
                            Defect {
                                at,
                                reason: AtgParseErrorReason::IncorrectNumberOfCorrections(
                                    hands,
                                    versions.len(),
                                ),
                            },
                        );
                    }
                    return Ok((Correction { versions }, at));
                },
                other => {
                    return Err(Defect { at: place, reason: other });
                },
            },
        }
    }
}

/// Parses the parameter of a format break at index `i`.
pub fn parse_format_break_at<D: AtgDialect>(input: &Vec<char>, i: usize) -> (r: Result<
    (FormatBreak, usize),
    Defect,
>)
    requires
        i <= input.len(),
    ensures
        match (parse_format_break::<D>(input@, i as int), r) {
            (Ok(p), Ok((b, next))) => b == p.value && next == p.next,
            (Err(f), Err(d)) => d@ == f,
            _ => false,
        },
        r is Ok ==> i < r->Ok_0.1 <= input.len(),
        r is Err ==> r->Err_0.at <= input.len(),
{
    let (parameter, next) = read_parameter_at::<D>(input, i)?;
    let name = chars_of(parameter.as_str());
    if same_text(&name, "line") {
        Ok((FormatBreak::Line, next))
    } else if same_text(&name, "paragraph") {
        Ok((FormatBreak::Paragraph, next))
    } else if same_text(&name, "column") {
        Ok((FormatBreak::Column, next))
    } else if same_text(&name, "folio") {
        Ok((FormatBreak::Folio, next))
    } else {
        let body = match read_char_at::<D>(input, i) {
            Ok((_, body)) => body,
            Err(_) => i,
        };
        Err(Defect { at: body, reason: AtgParseErrorReason::UnknownFormatBreak(parameter) })
    }
}

/// Parses the parameter of an anchor at index `i`.
pub fn parse_anchor_at<D: AtgDialect>(input: &Vec<char>, i: usize, dialect: AnchorDialect) -> (r:
    Result<(Anchor, usize), Defect>)
    requires
        i <= input.len(),
    ensures
        match (parse_anchor::<D>(input@, i as int, dialect), r) {
            (Ok(p), Ok((a, next))) => a == p.value && next == p.next,
            (Err(f), Err(d)) => d@ == f,
            _ => false,
        },
        r is Ok ==> i < r->Ok_0.1 <= input.len(),
        r is Err ==> r->Err_0.at <= input.len(),
{
    let (parameter, next) = read_parameter_at::<D>(input, i)?;
    match dialect.parse(parameter.as_str()) {
        Ok(anchor) => Ok((anchor, next)),
        Err(e) => {
            let body = match read_char_at::<D>(input, i) {
                Ok((_, body)) => body,
                Err(_) => i,
            };
            Err(Defect { at: body, reason: AtgParseErrorReason::Anchor(e) })
        },
    }
}

/// Parses a native run at index `i`.
pub fn parse_native_at<D: AtgDialect>(input: &Vec<char>, i: usize) -> (r: Result<
    (String, usize),
    Defect,
>)
    requires
        i <= input.len(),
    ensures
        match (parse_native::<D>(input@, i as int), r) {
            (Ok(p), Ok((text, next))) => text@ == p.value && next == p.next,
            (Err(f), Err(d)) => d@ == f,
            _ => false,
        },
        r is Ok ==> i <= r->Ok_0.1 <= input.len(),
        r is Err ==> r->Err_0.at <= input.len(),
{
    let points = D::control_points();
    let mut res = String::new();
    let mut at: usize = i;
    proof {
        match parse_native::<D>(input@, i as int) {
            Ok(p) => {
                assert(res@ + p.value =~= p.value);
            },
            Err(_) => {},
        }
    }
    loop
        invariant
            i <= at <= input.len(),
            points == D::atg_control_points(),
            match parse_native::<D>(input@, at as int) {
                Ok(p) => parse_native::<D>(input@, i as int) == Ok::<Parsed<Seq<char>>, Fault>(
                    Parsed { value: res@ + p.value, next: p.next },
                ),
                Err(f) => parse_native::<D>(input@, i as int) == Err::<Parsed<Seq<char>>, Fault>(
                    f,
                ),
            },
        decreases input.len() - at,
    {
        let ghost before = res@;
        proof {
            lemma_read_until_control_moves::<D>(input@, at as int);
        }
        let (text, control, halt, next) = read_until_control_at::<D>(input, at)?;
        res.append(text.as_str());
        let c = match control {
            None => {
                return Ok((res, input.len()));
            },
            Some(c) => c,
        };
        if c == points.comment {
            let (_, after) = read_parameter_at::<D>(input, next)?;
            proof {
                match parse_native::<D>(input@, after as int) {
                    Ok(p) => {
                        assert(before + (text@ + p.value) =~= (before + text@) + p.value);
                    },
                    Err(_) => {},
                }
            }
            at = after;
        } else if points.is_non_semantic(&c) {
            proof {
                match parse_native::<D>(input@, next as int) {
                    Ok(p) => {
                        assert(before + (text@ + p.value) =~= (before + text@) + p.value);
                    },
                    Err(_) => {},
                }
            }
            at = next;
        } else {
            return Ok((res, halt));
        }
    }
}

/// Parses one part at index `i`.
pub fn parse_part_at<D: AtgDialect>(
    input: &Vec<char>,
    i: usize,
    dialect: AnchorDialect,
    hands: usize,
) -> (r: Result<(Part, usize), Defect>)
    requires
        i <= input.len(),
    ensures
        match (parse_part::<D>(input@, i as int, dialect, hands as nat), r) {
            (Ok(p), Ok((part, next))) => part@ == p.value && next == p.next,
            (Err(f), Err(d)) => d@ == f,
            _ => false,
        },
        r is Ok ==> i <= r->Ok_0.1 <= input.len(),
        r is Err ==> r->Err_0.at <= input.len(),
{
    let points = D::control_points();
    if i >= input.len() {
        return Ok((Part::Native(String::new()), i));
    }
    let (c, next) = match read_char_at::<D>(input, i) {
        Ok(read) => read,
        Err(x) => {
            return Err(Defect { at: i, reason: AtgParseErrorReason::EscapeMalformed(x) });
        },
    };
    if c == points.illegible {
        let (illegible, after) = parse_uncertain_at::<D, crate::atg::text::Illegible>(
            input,
            next,
        )?;
        Ok((Part::Illegible(illegible), after))
    } else if c == points.lacuna {
        let (lacuna, after) = parse_uncertain_at::<D, crate::atg::text::Lacuna>(input, next)?;
        Ok((Part::Lacuna(lacuna), after))
    } else if c == points.anchor {
        let (anchor, after) = parse_anchor_at::<D>(input, next, dialect)?;
        Ok((Part::Anchor(anchor), after))
    } else if c == points.format_break {
        let (format_break, after) = parse_format_break_at::<D>(input, next)?;
        Ok((Part::FormatBreak(format_break), after))
    } else if c == points.correction {
        let (correction, after) = parse_correction_at::<D>(input, next, hands)?;
        Ok((Part::Correction(correction), after))
    } else if c == points.comment {
        let (_, body) = read_parameter_at::<D>(input, next)?;
        let (text, after) = parse_native_at::<D>(input, body)?;
        Ok((Part::Native(text), after))
    } else {
        let (text, after) = parse_native_at::<D>(input, i)?;
        Ok((Part::Native(text), after))
    }
}

/// Parses a text from its scalars.
pub fn parse_text_at<D: AtgDialect>(input: &Vec<char>, dialect: AnchorDialect, hands: usize) -> (r:
    Result<Text, Defect>)
    ensures
        match (parse_text::<D>(input@, dialect, hands as nat), r) {
            (Ok(parts), Ok(text)) => text@ == parts,
            (Err(f), Err(d)) => d@ == f,
            _ => false,
        },
        r is Err ==> r->Err_0.at <= input.len(),
{
    let mut parts: Vec<Part> = Vec::new();
    if input.len() == 0 {
        parts.push(Part::Native(String::new()));
        let text = Text { parts };
        proof {
            assert(text@ =~= seq![PartView::Native(Seq::empty())]);
        }
        return Ok(text);
    }
    let mut at: usize = 0;
    proof {
        assert(Text { parts }@ =~= Seq::<PartView>::empty());
        match parse_parts::<D>(input@, 0, dialect, hands as nat) {
            Ok(rest) => {
                assert(Seq::<PartView>::empty() + rest =~= rest);
            },
            Err(_) => {},
        }
    }
    while at < input.len()
        invariant
            at <= input.len(),
            input.len() > 0,
            match parse_parts::<D>(input@, at as int, dialect, hands as nat) {
                Ok(rest) => parse_text::<D>(input@, dialect, hands as nat) == Ok::<
                    Seq<PartView>,
                    Fault,
                >(Text { parts }@ + rest),
                Err(f) => parse_text::<D>(input@, dialect, hands as nat) == Err::<
                    Seq<PartView>,
                    Fault,
                >(f),
            },
        decreases input.len() - at,
    {
        let ghost before = Text { parts }@;
        let (part, next) = parse_part_at::<D>(input, at, dialect, hands)?;
        if next <= at {
            let c = match read_char_at::<D>(input, at) {
                Ok((c, _)) => c,
                Err(_) => input[at],
            };
            return Err(
                Defect { at, reason: AtgParseErrorReason::UnexpectedControlPoint(c) },
            );
        }
        proof {
            match parse_parts::<D>(input@, next as int, dialect, hands as nat) {
                Ok(rest) => {
                    assert(before + (seq![part@] + rest) =~= before.push(part@) + rest);
                },
                Err(_) => {},
            }
        }
        parts.push(part);
        proof {
            assert(Text { parts }@ =~= before.push(part@));
        }
        at = next;
    }
    proof {
        assert(Text { parts }@ + Seq::<PartView>::empty() =~= Text { parts }@);
    }
    Ok(Text { parts })
}

impl<T: UncertainReason> Uncertain<T> {
    /// Parses the parameters of an uncertain passage from the start of `s`,
    /// which follows the control point of the passage.
    ///
    /// Gives the passage and the rest of the input behind it.
    pub fn parse<D: AtgDialect>(s: &str) -> (r: Result<(Self, &str), AtgParseError>)
        ensures
            match (parse_uncertain::<D>(s@, 0), r) {
                (Ok(p), Ok((u, rest))) => u@ == p.value && rest@ == s@.skip(p.next),
                (Err(f), Err(e)) => e@ == f.in_bytes(s@),
                _ => false,
            },
    {
        let chars = chars_of(s);
        match parse_uncertain_at::<D, T>(&chars, 0) {
            Ok((u, next)) => Ok((u, rest_of(s, &chars, next))),
            Err(d) => Err(located(&chars, d)),
        }
    }
}

impl Correction {
    /// Parses the parameters of a correction from the start of `s`, which
    /// follows the control point of the correction.
    ///
    /// Gives the correction and the rest of the input behind it.
    pub fn parse<D: AtgDialect>(s: &str, number_of_corrections: usize) -> (r: Result<
        (Self, &str),
        AtgParseError,
    >)
        ensures
            match (parse_correction::<D>(s@, 0, number_of_corrections as nat), r) {
                (Ok(p), Ok((c, rest))) => c@ == p.value && rest@ == s@.skip(p.next),
                (Err(f), Err(e)) => e@ == f.in_bytes(s@),
                _ => false,
            },
    {
        let chars = chars_of(s);
        match parse_correction_at::<D>(&chars, 0, number_of_corrections) {
            Ok((c, next)) => Ok((c, rest_of(s, &chars, next))),
            Err(d) => Err(located(&chars, d)),
        }
    }
}

impl FormatBreak {
    /// Parses the parameter of a format break from the start of `s`, which
    /// follows the control point of the break.
    ///
    /// Gives the break and the rest of the input behind it.
    pub fn parse<D: AtgDialect>(s: &str) -> (r: Result<(Self, &str), AtgParseError>)
        ensures
            match (parse_format_break::<D>(s@, 0), r) {
                (Ok(p), Ok((b, rest))) => b == p.value && rest@ == s@.skip(p.next),
                (Err(f), Err(e)) => e@ == f.in_bytes(s@),
                _ => false,
            },
    {
        let chars = chars_of(s);
        match parse_format_break_at::<D>(&chars, 0) {
            Ok((b, next)) => Ok((b, rest_of(s, &chars, next))),
            Err(d) => Err(located(&chars, d)),
        }
    }
}

impl Part {
    /// Parses the parameter of an anchor from the start of `s`, which
    /// follows the control point of the anchor.
    ///
    /// Gives the anchor and the rest of the input behind it.
    pub fn parse_anchor<D: AtgDialect>(s: &str, anchor_dialect: AnchorDialect) -> (r: Result<
        (Anchor, &str),
        AtgParseError,
    >)
        ensures
            match (parse_anchor::<D>(s@, 0, anchor_dialect), r) {
                (Ok(p), Ok((a, rest))) => a == p.value && rest@ == s@.skip(p.next),
                (Err(f), Err(e)) => e@ == f.in_bytes(s@),
                _ => false,
            },
    {
        let chars = chars_of(s);
        match parse_anchor_at::<D>(&chars, 0, anchor_dialect) {
            Ok((a, next)) => Ok((a, rest_of(s, &chars, next))),
            Err(d) => Err(located(&chars, d)),
        }
    }

    /// Reads the parameter of a comment from the start of `s`, which
    /// follows the control point of the comment.
    ///
    /// Gives the number of bytes read and the rest of the input behind the
    /// comment.
    pub fn parse_comment<D: AtgDialect>(s: &str) -> (r: Result<(usize, &str), AtgParseError>)
        ensures
            match (read_parameter::<D>(s@, 0), r) {
                (Ok(run), Ok((offset, rest))) => {
                    &&& offset == byte_offset(s@, run.next)
                    &&& rest@ == s@.skip(run.next)
                },
                (Err(f), Err(e)) => e@ == f.in_bytes(s@),
                _ => false,
            },
    {
        let chars = chars_of(s);
        match read_parameter_at::<D>(&chars, 0) {
            Ok((_, next)) => Ok((offset_of(&chars, next), rest_of(s, &chars, next))),
            Err(d) => Err(located(&chars, d)),
        }
    }

    /// Parses a native run from the start of `s`.
    ///
    /// Gives the run as a part, and the rest of the input from the control
    /// point on that ended the run.
    pub fn parse_native<D: AtgDialect>(s: &str) -> (r: Result<(Self, &str), AtgParseError>)
        ensures
            match (parse_native::<D>(s@, 0), r) {
                (Ok(p), Ok((part, rest))) => {
                    &&& part@ == PartView::Native(p.value)
                    &&& rest@ == s@.skip(p.next)
                },
                (Err(f), Err(e)) => e@ == f.in_bytes(s@),
                _ => false,
            },
    {
        let chars = chars_of(s);
        match parse_native_at::<D>(&chars, 0) {
            Ok((text, next)) => Ok((Part::Native(text), rest_of(s, &chars, next))),
            Err(d) => Err(located(&chars, d)),
        }
    }

    /// Parses one part from the start of `s`.
    ///
    /// Gives the part and the rest of the input behind it.
    pub fn parse<D: AtgDialect>(
        s: &str,
        anchor_dialect: AnchorDialect,
        number_of_corrections: usize,
    ) -> (r: Result<(Self, &str), AtgParseError>)
        ensures
            match (parse_part::<D>(s@, 0, anchor_dialect, number_of_corrections as nat), r) {
                (Ok(p), Ok((part, rest))) => part@ == p.value && rest@ == s@.skip(p.next),
                (Err(f), Err(e)) => e@ == f.in_bytes(s@),
                _ => false,
            },
    {
        let chars = chars_of(s);
        match parse_part_at::<D>(&chars, 0, anchor_dialect, number_of_corrections) {
            Ok((part, next)) => Ok((part, rest_of(s, &chars, next))),
            Err(d) => Err(located(&chars, d)),
        }
    }
}

impl Text {
    /// Parses a string into a text.
    ///
    /// Anchors are read in `anchor_dialect`. Every correction has to have
    /// `number_of_corrections` versions, one for each hand of the witness.
    /// The first problem ends the parsing; it is placed by its byte offset
    /// into `s`.
    pub fn parse<D: AtgDialect>(
        s: &str,
        anchor_dialect: AnchorDialect,
        number_of_corrections: usize,
    ) -> (r: Result<Self, AtgParseError>)
        ensures
            match (parse_text::<D>(s@, anchor_dialect, number_of_corrections as nat), r) {
                (Ok(parts), Ok(text)) => text@ == parts,
                (Err(f), Err(e)) => e@ == f.in_bytes(s@),
                _ => false,
            },
            r is Ok ==> well_formed_text::<D>(
                r->Ok_0@,
                anchor_dialect,
                number_of_corrections as nat,
            ),
    {
        proof {
            lemma_parsed_text_is_well_formed::<D>(s@, anchor_dialect, number_of_corrections as nat);
        }
        let chars = chars_of(s);
        match parse_text_at::<D>(&chars, anchor_dialect, number_of_corrections) {
            Ok(text) => Ok(text),
            Err(d) => Err(located(&chars, d)),
        }
    }
}

} // verus!
