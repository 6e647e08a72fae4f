//! Comments and scalars without meaning change nothing: a text is read the
//! same with them as without them.

use vstd::prelude::*;
use crate::anchor::AnchorDialect;
use crate::atg::{AtgDialect, Fault, Reason};
use crate::atg::escape::{
    lemma_read_char_moves, lemma_read_until_control_moves, lemma_read_until_moves, read_char,
    read_until, read_until_control, Halt, Run, Scalar,
};
use crate::atg::locality::{
    lemma_parse_native_behind, lemma_parse_parts_behind, lemma_parse_versions_moves,
    lemma_read_parameter_behind, lemma_read_until_behind, moved,
};
use crate::atg::render::parameter;
use crate::atg::roundtrip::{
    bare, coalesced, lemma_distinguished, lemma_read_bare, lemma_read_until_bare, normal_text,
};
use crate::atg::text::PartView;
use crate::atg::parameter::{read_native_parameter, read_parameter};
use crate::atg::parse::{
    as_part, native_after, parse_anchor, parse_correction, parse_format_break, parse_native,
    parse_part, parse_parts, parse_text, parse_uncertain, parse_versions, Parsed,
};
use crate::numerals::{hex_run, is_hex_digit};

verus! {

/// Whether a scalar ends whatever is read before it: it is neither the
/// escape nor the start of a parameter nor a hexadecimal digit.
pub open spec fn neutral<D: AtgDialect>(c: char) -> bool {
    &&& c != D::atg_control_points().escape
    &&& c != D::atg_control_points().start_param
    &&& !is_hex_digit(c)
}

/// Whether two inputs are the same before index `k`, where the first goes
/// on with a neutral scalar.
pub open spec fn same_before<D: AtgDialect>(filled: Seq<char>, given: Seq<char>, k: int) -> bool {
    &&& 0 <= k <= given.len()
    &&& k < filled.len()
    &&& forall|j: int| 0 <= j < k ==> filled[j] == given[j]
    &&& neutral::<D>(filled[k])
}

/// Whether what is read at index `e` ends before index `k` or starts
/// there.
pub open spec fn clear<D: AtgDialect>(s: Seq<char>, e: int, k: int) -> bool {
    e == k || (e < k && read_char::<D>(s, e) is Ok && read_char::<D>(s, e)->Ok_0.next <= k)
}

/// A run of hexadecimal digits before index `k` is one in every input that
/// is the same before `k`.
proof fn lemma_hex_run_same(filled: Seq<char>, given: Seq<char>, k: int, j: int, w: int)
    requires
        0 <= j,
        0 <= w,
        j + w <= k <= given.len(),
        k <= filled.len(),
        forall|m: int| 0 <= m < k ==> filled[m] == given[m],
    ensures
        hex_run(filled, j, w) == hex_run(given, j, w),
        filled.subrange(j, j + w) == given.subrange(j, j + w),
{
    assert(filled.subrange(j, j + w) =~= given.subrange(j, j + w));
    if hex_run(given, j, w) {
        assert forall|m: int| j <= m < j + w implies is_hex_digit(#[trigger] filled[m]) by {
            assert(filled[m] == given[m]);
        }
    }
    if hex_run(filled, j, w) {
        assert forall|m: int| j <= m < j + w implies is_hex_digit(#[trigger] given[m]) by {
            assert(filled[m] == given[m]);
        }
    }
}

/// A scalar that is read before index `k` is read the same in an input
/// that is the same before `k` and goes on with a neutral scalar.
pub proof fn lemma_read_char_same<D: AtgDialect>(filled: Seq<char>, given: Seq<char>, k: int, i: int)
    requires
        same_before::<D>(filled, given, k),
        0 <= i,
        read_char::<D>(given, i) is Ok,
        read_char::<D>(given, i)->Ok_0.next <= k,
    ensures
        read_char::<D>(filled, i) == read_char::<D>(given, i),
{
    reveal(read_char);
    let points = D::atg_control_points();
    assert(i < k);
    assert(filled[i] == given[i]);
    if given[i] == points.escape {
        assert(i + 1 < k);
        assert(filled[i + 1] == given[i + 1]);
        if !points.control_point(given[i + 1]) {
            if i + 7 <= k {
                lemma_hex_run_same(filled, given, k, i + 1, 6);
                assert(filled.subrange(i, i + 7) =~= given.subrange(i, i + 7));
            } else {
                assert(!hex_run(given, i + 1, 6));
                assert(!hex_run(filled, i + 1, 6)) by {
                    if hex_run(filled, i + 1, 6) {
                        assert(is_hex_digit(filled[k]));
                    }
                }
            }
            if i + 5 <= k {
                lemma_hex_run_same(filled, given, k, i + 1, 4);
                assert(filled.subrange(i, i + 5) =~= given.subrange(i, i + 5));
            } else {
                assert(!hex_run(given, i + 1, 4));
                assert(!hex_run(filled, i + 1, 4)) by {
                    if hex_run(filled, i + 1, 4) {
                        assert(is_hex_digit(filled[k]));
                    }
                }
            }
            lemma_hex_run_same(filled, given, k, i + 1, 2);
            assert(filled.subrange(i, i + 3) =~= given.subrange(i, i + 3));
        }
    }
}

/// A text that is read up to a scalar before index `k` is read the same in
/// an input that is the same before `k`.
pub proof fn lemma_read_until_same<D: AtgDialect>(
    filled: Seq<char>,
    given: Seq<char>,
    k: int,
    i: int,
    stop: char,
)
    requires
        same_before::<D>(filled, given, k),
        0 <= i,
        read_until::<D>(given, i, stop) is Ok,
        read_until::<D>(given, i, stop)->Ok_0.next <= k,
    ensures
        read_until::<D>(filled, i, stop) == read_until::<D>(given, i, stop),
    decreases given.len() - i,
{
    lemma_read_char_moves::<D>(given, i);
    let c = read_char::<D>(given, i)->Ok_0;
    if c.value != stop {
        lemma_read_until_moves::<D>(given, c.next, stop);
        lemma_read_char_same::<D>(filled, given, k, i);
        lemma_read_until_same::<D>(filled, given, k, c.next, stop);
    } else {
        lemma_read_char_same::<D>(filled, given, k, i);
    }
}

/// A parameter that ends before index `k` is read the same in an input
/// that is the same before `k`.
pub proof fn lemma_read_parameter_same<D: AtgDialect>(filled: Seq<char>, given: Seq<char>, k: int, i: int)
    requires
        same_before::<D>(filled, given, k),
        0 <= i,
        read_parameter::<D>(given, i) is Ok,
        read_parameter::<D>(given, i)->Ok_0.next <= k,
    ensures
        read_parameter::<D>(filled, i) == read_parameter::<D>(given, i),
        read_native_parameter::<D>(given, i) is Ok ==> read_native_parameter::<D>(filled, i)
            == read_native_parameter::<D>(given, i),
{
    lemma_read_char_moves::<D>(given, i);
    let c = read_char::<D>(given, i)->Ok_0;
    lemma_read_until_moves::<D>(given, c.next, D::atg_control_points().stop_param);
    lemma_read_char_same::<D>(filled, given, k, i);
    lemma_read_until_same::<D>(filled, given, k, c.next, D::atg_control_points().stop_param);
}

/// Reading up to a scalar fails for the end of the input or for an escape
/// only.
pub proof fn lemma_read_until_faults<D: AtgDialect>(s: Seq<char>, i: int, stop: char)
    ensures
        read_until::<D>(s, i, stop) is Err ==> !(read_until::<D>(
            s,
            i,
            stop,
        )->Err_0.reason is MissingParameterStart),
    decreases s.len() - i,
{
    if 0 <= i < s.len() {
        if let Ok(c) = read_char::<D>(s, i) {
            if c.value != stop && i < c.next <= s.len() {
                lemma_read_until_faults::<D>(s, c.next, stop);
            }
        }
    }
}

/// Where no parameter starts at an index that is clear of `k`, none starts
/// in an input that is the same before `k`.
pub proof fn lemma_no_parameter_same<D: AtgDialect>(filled: Seq<char>, given: Seq<char>, k: int, e: int)
    requires
        same_before::<D>(filled, given, k),
        0 <= e,
        clear::<D>(given, e, k),
        read_native_parameter::<D>(given, e) is Err,
        read_native_parameter::<D>(given, e)->Err_0.reason is MissingParameterStart,
    ensures
        read_native_parameter::<D>(filled, e) == Err::<Run, Fault>(
            Fault { location: e as nat, reason: Reason::MissingParameterStart },
        ),
        read_native_parameter::<D>(given, e) == Err::<Run, Fault>(
            Fault { location: e as nat, reason: Reason::MissingParameterStart },
        ),
{
    let stop = D::atg_control_points().stop_param;
    if e < given.len() {
        if let Ok(c) = read_char::<D>(given, e) {
            lemma_read_until_faults::<D>(given, c.next, stop);
        }
    }
    if e == k {
        reveal(read_char);
    } else {
        lemma_read_char_same::<D>(filled, given, k, e);
    }
}

/// An uncertain passage that ends clear of index `k` is read the same in
/// an input that is the same before `k`.
pub proof fn lemma_parse_uncertain_same<D: AtgDialect>(
    filled: Seq<char>,
    given: Seq<char>,
    k: int,
    i: int,
)
    requires
        same_before::<D>(filled, given, k),
        0 <= i,
        parse_uncertain::<D>(given, i) is Ok,
        parse_uncertain::<D>(given, i)->Ok_0.next <= k,
        clear::<D>(given, parse_uncertain::<D>(given, i)->Ok_0.next, k),
    ensures
        parse_uncertain::<D>(filled, i) == parse_uncertain::<D>(given, i),
{
    let stop = D::atg_control_points().stop_param;
    let first = read_parameter::<D>(given, i)->Ok_0;
    lemma_read_char_moves::<D>(given, i);
    lemma_read_until_moves::<D>(given, read_char::<D>(given, i)->Ok_0.next, stop);
    match read_native_parameter::<D>(given, first.next) {
        Ok(second) => {
            lemma_read_char_moves::<D>(given, first.next);
            lemma_read_until_moves::<D>(given, read_char::<D>(given, first.next)->Ok_0.next, stop);
            lemma_read_parameter_same::<D>(filled, given, k, i);
            lemma_read_parameter_same::<D>(filled, given, k, first.next);
        },
        Err(f) => {
            lemma_read_parameter_same::<D>(filled, given, k, i);
            lemma_no_parameter_same::<D>(filled, given, k, first.next);
        },
    }
}

/// The versions of a correction that end clear of index `k` are read the
/// same in an input that is the same before `k`.
pub proof fn lemma_parse_versions_same<D: AtgDialect>(
    filled: Seq<char>,
    given: Seq<char>,
    k: int,
    i: int,
)
    requires
        same_before::<D>(filled, given, k),
        0 <= i,
        parse_versions::<D>(given, i) is Ok,
        parse_versions::<D>(given, i)->Ok_0.next <= k,
        clear::<D>(given, parse_versions::<D>(given, i)->Ok_0.next, k),
    ensures
        parse_versions::<D>(filled, i) == parse_versions::<D>(given, i),
    decreases given.len() - i,
{
    let stop = D::atg_control_points().stop_param;
    match read_native_parameter::<D>(given, i) {
        Ok(run) => {
            lemma_read_char_moves::<D>(given, i);
            lemma_read_until_moves::<D>(given, read_char::<D>(given, i)->Ok_0.next, stop);
            lemma_parse_versions_moves::<D>(given, run.next);
            lemma_read_parameter_same::<D>(filled, given, k, i);
            lemma_parse_versions_same::<D>(filled, given, k, run.next);
        },
        Err(f) => {
            lemma_no_parameter_same::<D>(filled, given, k, i);
        },
    }
}

/// A correction that ends clear of index `k` is read the same in an input
/// that is the same before `k`.
pub proof fn lemma_parse_correction_same<D: AtgDialect>(
    filled: Seq<char>,
    given: Seq<char>,
    k: int,
    i: int,
    hands: nat,
)
    requires
        same_before::<D>(filled, given, k),
        0 <= i,
        parse_correction::<D>(given, i, hands) is Ok,
        parse_correction::<D>(given, i, hands)->Ok_0.next <= k,
        clear::<D>(given, parse_correction::<D>(given, i, hands)->Ok_0.next, k),
    ensures
        parse_correction::<D>(filled, i, hands) == parse_correction::<D>(given, i, hands),
{
    let stop = D::atg_control_points().stop_param;
    let first = read_native_parameter::<D>(given, i)->Ok_0;
    lemma_read_char_moves::<D>(given, i);
    lemma_read_until_moves::<D>(given, read_char::<D>(given, i)->Ok_0.next, stop);
    lemma_parse_versions_moves::<D>(given, first.next);
    lemma_read_parameter_same::<D>(filled, given, k, i);
    lemma_parse_versions_same::<D>(filled, given, k, first.next);
}

/// A format break and an anchor that end before index `k` are read the same
/// in an input that is the same before `k`.
pub proof fn lemma_parse_literal_same<D: AtgDialect>(
    filled: Seq<char>,
    given: Seq<char>,
    k: int,
    i: int,
    dialect: AnchorDialect,
)
    requires
        same_before::<D>(filled, given, k),
        0 <= i,
    ensures
        parse_format_break::<D>(given, i) is Ok && parse_format_break::<D>(given, i)->Ok_0.next <= k
            ==> parse_format_break::<D>(filled, i) == parse_format_break::<D>(given, i),
        parse_anchor::<D>(given, i, dialect) is Ok && parse_anchor::<D>(given, i, dialect)->Ok_0.next
            <= k ==> parse_anchor::<D>(filled, i, dialect) == parse_anchor::<D>(given, i, dialect),
{
    if read_parameter::<D>(given, i) is Ok && read_parameter::<D>(given, i)->Ok_0.next <= k {
        lemma_read_parameter_same::<D>(filled, given, k, i);
    }
}

/// A text that is read up to a control point, the control point read before
/// index `k`, is read the same in an input that is the same before `k`.
pub proof fn lemma_read_until_control_same<D: AtgDialect>(
    filled: Seq<char>,
    given: Seq<char>,
    k: int,
    i: int,
)
    requires
        same_before::<D>(filled, given, k),
        0 <= i <= given.len(),
        read_until_control::<D>(given, i) is Ok,
        read_until_control::<D>(given, i)->Ok_0.control is Some,
        read_until_control::<D>(given, i)->Ok_0.next <= k,
    ensures
        read_until_control::<D>(filled, i) == read_until_control::<D>(given, i),
    decreases given.len() - i,
{
    lemma_read_char_moves::<D>(given, i);
    lemma_read_until_control_moves::<D>(given, i);
    let c = read_char::<D>(given, i)->Ok_0;
    if !D::atg_control_points().control_point(c.value) {
        lemma_read_until_control_moves::<D>(given, c.next);
        lemma_read_char_same::<D>(filled, given, k, i);
        lemma_read_until_control_same::<D>(filled, given, k, c.next);
    } else {
        lemma_read_char_same::<D>(filled, given, k, i);
    }
}

/// A native run ends within the input, at or behind its start.
pub proof fn lemma_parse_native_moves<D: AtgDialect>(s: Seq<char>, i: int)
    requires
        0 <= i <= s.len(),
    ensures
        parse_native::<D>(s, i) is Ok ==> i <= parse_native::<D>(s, i)->Ok_0.next <= s.len(),
    decreases s.len() - i,
{
    let points = D::atg_control_points();
    lemma_read_until_control_moves::<D>(s, i);
    if let Ok(h) = read_until_control::<D>(s, i) {
        if let Some(c) = h.control {
            if c == points.comment {
                if let Ok(comment) = read_parameter::<D>(s, h.next) {
                    lemma_read_char_moves::<D>(s, h.next);
                    lemma_read_until_moves::<D>(
                        s,
                        read_char::<D>(s, h.next)->Ok_0.next,
                        points.stop_param,
                    );
                    lemma_parse_native_moves::<D>(s, comment.next);
                }
            } else if points.non_semantic_point(c) {
                lemma_parse_native_moves::<D>(s, h.next);
            }
        }
    }
}

/// A native run that ends before index `k`, at a control point that is
/// read before `k`, is read the same in an input that is the same before
/// `k`.
pub proof fn lemma_parse_native_same<D: AtgDialect>(filled: Seq<char>, given: Seq<char>, k: int, i: int)
    requires
        same_before::<D>(filled, given, k),
        0 <= i <= given.len(),
        parse_native::<D>(given, i) is Ok,
        parse_native::<D>(given, i)->Ok_0.next < k,
        clear::<D>(given, parse_native::<D>(given, i)->Ok_0.next, k),
    ensures
        parse_native::<D>(filled, i) == parse_native::<D>(given, i),
    decreases given.len() - i,
{
    let points = D::atg_control_points();
    lemma_read_until_control_moves::<D>(given, i);
    let h = read_until_control::<D>(given, i)->Ok_0;
    let c = h.control->0;
    if c == points.comment {
        let comment = read_parameter::<D>(given, h.next)->Ok_0;
        lemma_read_char_moves::<D>(given, h.next);
        lemma_read_until_moves::<D>(given, read_char::<D>(given, h.next)->Ok_0.next, points.stop_param);
        lemma_parse_native_moves::<D>(given, comment.next);
        lemma_read_until_control_same::<D>(filled, given, k, i);
        lemma_read_parameter_same::<D>(filled, given, k, h.next);
        lemma_parse_native_same::<D>(filled, given, k, comment.next);
    } else if points.non_semantic_point(c) {
        lemma_parse_native_moves::<D>(given, h.next);
        lemma_read_until_control_same::<D>(filled, given, k, i);
        lemma_parse_native_same::<D>(filled, given, k, h.next);
    } else {
        lemma_read_until_control_same::<D>(filled, given, k, i);
    }
}

/// A part that ends clear of index `k`, a native run before `k`, is read
/// the same in an input that is the same before `k`.
pub proof fn lemma_parse_part_same<D: AtgDialect>(
    filled: Seq<char>,
    given: Seq<char>,
    k: int,
    i: int,
    dialect: AnchorDialect,
    hands: nat,
)
    requires
        same_before::<D>(filled, given, k),
        0 <= i < k,
        clear::<D>(given, i, k),
        parse_part::<D>(given, i, dialect, hands) is Ok,
        parse_part::<D>(given, i, dialect, hands)->Ok_0.next <= k,
        clear::<D>(given, parse_part::<D>(given, i, dialect, hands)->Ok_0.next, k),
        parse_part::<D>(given, i, dialect, hands)->Ok_0.value is Native ==> parse_part::<D>(
            given,
            i,
            dialect,
            hands,
        )->Ok_0.next < k,
    ensures
        parse_part::<D>(filled, i, dialect, hands) == parse_part::<D>(given, i, dialect, hands),
{
    let points = D::atg_control_points();
    lemma_read_char_moves::<D>(given, i);
    lemma_read_char_same::<D>(filled, given, k, i);
    let c = read_char::<D>(given, i)->Ok_0;
    if c.value == points.illegible || c.value == points.lacuna {
        lemma_parse_uncertain_same::<D>(filled, given, k, c.next);
    } else if c.value == points.anchor || c.value == points.format_break {
        lemma_parse_literal_same::<D>(filled, given, k, c.next, dialect);
    } else if c.value == points.correction {
        lemma_parse_correction_same::<D>(filled, given, k, c.next, hands);
    } else if c.value == points.comment {
        let comment = read_parameter::<D>(given, c.next)->Ok_0;
        lemma_read_char_moves::<D>(given, c.next);
        lemma_read_until_moves::<D>(given, read_char::<D>(given, c.next)->Ok_0.next, points.stop_param);
        lemma_parse_native_moves::<D>(given, comment.next);
        lemma_read_parameter_same::<D>(filled, given, k, c.next);
        lemma_parse_native_same::<D>(filled, given, k, comment.next);
    } else {
        lemma_parse_native_same::<D>(filled, given, k, i);
    }
}

/// Whether the dialect keeps what is without meaning apart from escapes:
/// it is well formed, and neither a scalar without meaning nor the control
/// point of a comment is a hexadecimal digit. Such a digit, put behind an
/// escape of two or four digits or behind digits that follow one, would be
/// read as part of the escape.
pub open spec fn transparent_dialect<D: AtgDialect>() -> bool {
    &&& D::atg_control_points().well_formed()
    &&& forall|c: char| D::atg_control_points().non_semantic_point(c) ==> !is_hex_digit(c)
    &&& !is_hex_digit(D::atg_control_points().comment)
}

/// What can stand in a text without being part of it.
pub enum Filler {
    /// Scalars without meaning, at least one.
    Blanks(Seq<char>),
    /// A comment with the given body.
    Comment(Seq<char>),
}

/// Whether every scalar of `run` is without meaning.
pub open spec fn meaningless<D: AtgDialect>(run: Seq<char>) -> bool {
    forall|i: int|
        0 <= i < run.len() ==> D::atg_control_points().non_semantic_point(#[trigger] run[i])
}

/// Whether a text is the body of a comment of its own: whatever follows
/// the stop behind it, the parameter is read up to that stop.
pub open spec fn closed_comment<D: AtgDialect>(body: Seq<char>) -> bool {
    forall|rest: Seq<char>|
        (#[trigger] read_until::<D>(
            body + seq![D::atg_control_points().stop_param] + rest,
            0,
            D::atg_control_points().stop_param,
        )) is Ok && read_until::<D>(
            body + seq![D::atg_control_points().stop_param] + rest,
            0,
            D::atg_control_points().stop_param,
        )->Ok_0.next == body.len() + 1
}

/// Whether a filler is one of the dialect: the scalars are without
/// meaning; the comment is closed by its own stop.
pub open spec fn filler_of<D: AtgDialect>(f: Filler) -> bool {
    match f {
        Filler::Blanks(run) => run.len() > 0 && meaningless::<D>(run),
        Filler::Comment(body) => closed_comment::<D>(body),
    }
}

/// A text without escape and without the stop of a parameter is the body
/// of a comment of its own.
pub proof fn lemma_bare_is_closed<D: AtgDialect>(body: Seq<char>)
    requires
        D::atg_control_points().well_formed(),
        bare::<D>(body),
    ensures
        closed_comment::<D>(body),
{
    lemma_distinguished::<D>();
    let stop = D::atg_control_points().stop_param;
    assert forall|rest: Seq<char>|
        (#[trigger] read_until::<D>(body + seq![stop] + rest, 0, stop)) is Ok && read_until::<D>(
            body + seq![stop] + rest,
            0,
            stop,
        )->Ok_0.next == body.len() + 1 by {
        let s = body + seq![stop] + rest;
        assert forall|j: int| 0 <= j < body.len() implies (#[trigger] s[j])
            != D::atg_control_points().escape && s[j] != stop by {
            assert(s[j] == body[j]);
        }
        assert(s[body.len() as int] == stop);
        lemma_read_until_bare::<D>(s, 0, body.len() as int, stop);
    }
}

/// Whether every filler is one of the dialect.
pub open spec fn fillers_of<D: AtgDialect>(fs: Seq<Filler>) -> bool {
    forall|i: int| 0 <= i < fs.len() ==> filler_of::<D>(#[trigger] fs[i])
}

/// A filler as it is written.
pub open spec fn written_filler<D: AtgDialect>(f: Filler) -> Seq<char> {
    match f {
        Filler::Blanks(run) => run,
        Filler::Comment(body) => seq![D::atg_control_points().comment] + parameter::<D>(body),
    }
}

/// Fillers as they are written, one after the other.
pub open spec fn written_fillers<D: AtgDialect>(fs: Seq<Filler>) -> Seq<char>
    decreases fs.len(),
{
    if fs.len() == 0 {
        Seq::empty()
    } else {
        written_filler::<D>(fs[0]) + written_fillers::<D>(fs.skip(1))
    }
}

/// One step of the scan of a native run: a scalar that is no control point
/// is taken into the run, a scalar without meaning is left out, and so is a
/// comment.
pub proof fn lemma_parse_native_step<D: AtgDialect>(s: Seq<char>, j: int)
    requires
        D::atg_control_points().well_formed(),
        0 <= j < s.len(),
        read_char::<D>(s, j) is Ok,
    ensures
        ({
            let c = read_char::<D>(s, j)->Ok_0;
            let points = D::atg_control_points();
            &&& !points.control_point(c.value) ==> parse_native::<D>(s, j) == native_after(
                seq![c.value],
                parse_native::<D>(s, c.next),
            )
            &&& points.non_semantic_point(c.value) ==> parse_native::<D>(s, j) == parse_native::<D>(
                s,
                c.next,
            )
            &&& c.value == points.comment && read_parameter::<D>(s, c.next) is Ok
                ==> parse_native::<D>(s, j) == parse_native::<D>(
                s,
                read_parameter::<D>(s, c.next)->Ok_0.next,
            )
        }),
{
    lemma_distinguished::<D>();
    let points = D::atg_control_points();
    let c = read_char::<D>(s, j)->Ok_0;
    lemma_read_char_moves::<D>(s, j);
    if !points.control_point(c.value) {
        lemma_read_until_control_moves::<D>(s, c.next);
        match read_until_control::<D>(s, c.next) {
            Err(_) => {},
            Ok(h) => {
                let text = seq![c.value] + h.text;
                match h.control {
                    None => {},
                    Some(x) => {
                        if x == points.comment {
                            if let Ok(comment) = read_parameter::<D>(s, h.next) {
                                lemma_read_char_moves::<D>(s, h.next);
                                lemma_read_until_moves::<D>(
                                    s,
                                    read_char::<D>(s, h.next)->Ok_0.next,
                                    points.stop_param,
                                );
                                if let Ok(p) = parse_native::<D>(s, comment.next) {
                                    assert(text + p.value =~= seq![c.value] + (h.text + p.value));
                                }
                            }
                        } else if points.non_semantic_point(x) {
                            if let Ok(p) = parse_native::<D>(s, h.next) {
                                assert(text + p.value =~= seq![c.value] + (h.text + p.value));
                            }
                        }
                    },
                }
            },
        }
    } else if points.non_semantic_point(c.value) {
        if let Ok(p) = parse_native::<D>(s, c.next) {
            assert(Seq::<char>::empty() + p.value =~= p.value);
        }
    } else if c.value == points.comment {
        if let Ok(comment) = read_parameter::<D>(s, c.next) {
            lemma_read_char_moves::<D>(s, c.next);
            lemma_read_until_moves::<D>(
                s,
                read_char::<D>(s, c.next)->Ok_0.next,
                points.stop_param,
            );
            if let Ok(p) = parse_native::<D>(s, comment.next) {
                assert(Seq::<char>::empty() + p.value =~= p.value);
            }
        }
    }
}

/// The parameter of a comment is read up to its own stop, whatever
/// follows.
pub proof fn lemma_read_comment<D: AtgDialect>(body: Seq<char>, rest: Seq<char>)
    requires
        D::atg_control_points().well_formed(),
        closed_comment::<D>(body),
    ensures
        read_parameter::<D>(parameter::<D>(body) + rest, 0) is Ok,
        read_parameter::<D>(parameter::<D>(body) + rest, 0)->Ok_0.next == body.len() + 2,
{
    lemma_distinguished::<D>();
    let points = D::atg_control_points();
    let s = parameter::<D>(body) + rest;
    let open = seq![points.start_param];
    let inner = body + seq![points.stop_param] + rest;
    assert(s =~= open + inner);
    assert(s[0] == points.start_param);
    lemma_read_bare::<D>(s, 0);
    assert(read_until::<D>(inner, 0, points.stop_param) is Ok);
    lemma_read_until_behind::<D>(open, inner, 0, points.stop_param);
}

/// Scalars without meaning in front of an input are left out of the native
/// run that is read there.
pub proof fn lemma_blanks_skipped<D: AtgDialect>(run: Seq<char>, rest: Seq<char>)
    requires
        D::atg_control_points().well_formed(),
        meaningless::<D>(run),
    ensures
        parse_native::<D>(run + rest, 0) == moved(parse_native::<D>(rest, 0), run.len() as int),
    decreases run.len(),
{
    lemma_distinguished::<D>();
    let s = run + rest;
    if run.len() == 0 {
        assert(s =~= rest);
    } else {
        let head = seq![run[0]];
        let tail = run.skip(1);
        assert forall|i: int| 0 <= i < tail.len() implies D::atg_control_points().non_semantic_point(
            #[trigger] tail[i],
        ) by {
            assert(tail[i] == run[i + 1]);
        }
        lemma_blanks_skipped::<D>(tail, rest);
        assert(s =~= head + (tail + rest));
        assert(s[0] == run[0]);
        lemma_read_bare::<D>(s, 0);
        lemma_parse_native_step::<D>(s, 0);
        lemma_parse_native_behind::<D>(head, tail + rest, 0);
    }
}

/// Fillers in front of an input are left out of the native run that is
/// read there: the run is that of the input without them, and ends as many
/// scalars later as the fillers have.
pub proof fn lemma_fillers_skipped<D: AtgDialect>(fs: Seq<Filler>, rest: Seq<char>)
    requires
        D::atg_control_points().well_formed(),
        fillers_of::<D>(fs),
    ensures
        parse_native::<D>(written_fillers::<D>(fs) + rest, 0) == moved(
            parse_native::<D>(rest, 0),
            written_fillers::<D>(fs).len() as int,
        ),
    decreases fs.len(),
{
    lemma_distinguished::<D>();
    let points = D::atg_control_points();
    let w = written_fillers::<D>(fs);
    let s = w + rest;
    if fs.len() == 0 {
        assert(s =~= rest);
    } else {
        let tail = fs.skip(1);
        let others = written_fillers::<D>(tail);
        assert forall|i: int| 0 <= i < tail.len() implies filler_of::<D>(#[trigger] tail[i]) by {
            assert(tail[i] == fs[i + 1]);
        }
        lemma_fillers_skipped::<D>(tail, rest);
        match fs[0] {
            Filler::Blanks(run) => {
                assert(s =~= run + (others + rest));
                lemma_blanks_skipped::<D>(run, others + rest);
            },
            Filler::Comment(body) => {
                let mark = seq![points.comment];
                let head = mark + parameter::<D>(body);
                assert(s =~= head + (others + rest));
                assert(s =~= mark + (parameter::<D>(body) + (others + rest)));
                assert(s[0] == points.comment);
                lemma_read_bare::<D>(s, 0);
                lemma_read_comment::<D>(body, others + rest);
                lemma_read_parameter_behind::<D>(mark, parameter::<D>(body) + (others + rest), 0);
                lemma_parse_native_step::<D>(s, 0);
                lemma_parse_native_behind::<D>(head, others + rest, 0);
            },
        }
    }
}

/// Whether the scan of a native run that starts at index `j` stands at
/// index `k` at some time: between two scalars that it reads, or behind a
/// comment.
pub open spec fn scans_to<D: AtgDialect>(s: Seq<char>, j: int, k: int) -> bool
    decreases k - j,
{
    let points = D::atg_control_points();
    j == k || (0 <= j < k && match read_char::<D>(s, j) {
        Ok(c) => j < c.next <= k && if !points.control_point(c.value)
            || points.non_semantic_point(c.value) {
            scans_to::<D>(s, c.next, k)
        } else if c.value == points.comment {
            match read_parameter::<D>(s, c.next) {
                Ok(comment) => c.next < comment.next <= k && scans_to::<D>(s, comment.next, k),
                Err(_) => false,
            }
        } else {
            false
        },
        Err(_) => false,
    })
}

/// The index at which the native run of the part at index `i` starts, if
/// the part is one: the index itself, or that behind the comment with which
/// the part starts.
pub open spec fn native_start<D: AtgDialect>(s: Seq<char>, i: int) -> Option<int> {
    let points = D::atg_control_points();
    match read_char::<D>(s, i) {
        Ok(c) => if c.value == points.illegible || c.value == points.lacuna || c.value
            == points.anchor || c.value == points.format_break || c.value == points.correction {
            None
        } else if c.value == points.comment {
            match read_parameter::<D>(s, c.next) {
                Ok(comment) => Some(comment.next),
                Err(_) => None,
            }
        } else {
            Some(i)
        },
        Err(_) => None,
    }
}

/// Whether the parser, on its way through the parts from index `i` on,
/// stands at index `k` at some time outside of any parameter: between two
/// parts, or in the scan of a native run.
pub open spec fn open_at<D: AtgDialect>(
    s: Seq<char>,
    i: int,
    k: int,
    dialect: AnchorDialect,
    hands: nat,
) -> bool
    decreases k - i,
{
    i == k || (0 <= i < k && clear::<D>(s, i, k) && match parse_part::<D>(s, i, dialect, hands) {
        Ok(p) => {
            ||| {
                &&& i < p.next <= k
                &&& p.value is Native ==> p.next < k
                &&& clear::<D>(s, p.next, k)
                &&& open_at::<D>(s, p.next, k, dialect, hands)
            }
            ||| match native_start::<D>(s, i) {
                Some(j) => j <= k && scans_to::<D>(s, j, k),
                None => false,
            }
        },
        Err(_) => false,
    })
}

/// A native run whose scan stands at index `k` at some time ends at `k` or
/// behind it.
pub proof fn lemma_scan_reaches<D: AtgDialect>(s: Seq<char>, j: int, k: int)
    requires
        D::atg_control_points().well_formed(),
        0 <= j <= k <= s.len(),
        scans_to::<D>(s, j, k),
        parse_native::<D>(s, j) is Ok,
    ensures
        k <= parse_native::<D>(s, j)->Ok_0.next <= s.len(),
    decreases k - j,
{
    lemma_parse_native_moves::<D>(s, j);
    if j < k {
        lemma_parse_native_step::<D>(s, j);
        let points = D::atg_control_points();
        let c = read_char::<D>(s, j)->Ok_0;
        if !points.control_point(c.value) || points.non_semantic_point(c.value) {
            lemma_scan_reaches::<D>(s, c.next, k);
        } else {
            let comment = read_parameter::<D>(s, c.next)->Ok_0;
            lemma_scan_reaches::<D>(s, comment.next, k);
        }
    }
}

/// Fillers at an index at which the scan of a native run stands at some
/// time are left out of the run: the run is the same, and ends as many
/// scalars later as the fillers have.
pub proof fn lemma_scan_skips_fillers<D: AtgDialect>(
    a: Seq<char>,
    fs: Seq<Filler>,
    b: Seq<char>,
    j: int,
)
    requires
        transparent_dialect::<D>(),
        fillers_of::<D>(fs),
        fs.len() > 0,
        0 <= j <= a.len(),
        scans_to::<D>(a + b, j, a.len() as int),
        parse_native::<D>(a + b, j) is Ok,
    ensures
        parse_native::<D>(a + written_fillers::<D>(fs) + b, j) == moved(
            parse_native::<D>(a + b, j),
            written_fillers::<D>(fs).len() as int,
        ),
    decreases a.len() - j,
{
    let points = D::atg_control_points();
    let w = written_fillers::<D>(fs);
    let k = a.len() as int;
    let filled = a + w + b;
    let given = a + b;
    if j == k {
        assert(filled =~= a + (w + b));
        lemma_parse_native_behind::<D>(a, w + b, 0);
        lemma_parse_native_behind::<D>(a, b, 0);
        lemma_fillers_skipped::<D>(fs, b);
    } else {
        lemma_fillers_start::<D>(fs);
        lemma_same_before::<D>(a, w, b);
        lemma_parse_native_step::<D>(given, j);
        let c = read_char::<D>(given, j)->Ok_0;
        lemma_read_char_same::<D>(filled, given, k, j);
        lemma_parse_native_step::<D>(filled, j);
        if !points.control_point(c.value) || points.non_semantic_point(c.value) {
            lemma_scan_skips_fillers::<D>(a, fs, b, c.next);
        } else {
            let comment = read_parameter::<D>(given, c.next)->Ok_0;
            lemma_read_parameter_same::<D>(filled, given, k, c.next);
            lemma_scan_skips_fillers::<D>(a, fs, b, comment.next);
        }
    }
}

/// What is written of fillers starts with a neutral scalar.
pub proof fn lemma_fillers_start<D: AtgDialect>(fs: Seq<Filler>)
    requires
        transparent_dialect::<D>(),
        fillers_of::<D>(fs),
        fs.len() > 0,
    ensures
        written_fillers::<D>(fs).len() > 0,
        neutral::<D>(written_fillers::<D>(fs)[0]),
        D::atg_control_points().non_semantic_point(written_fillers::<D>(fs)[0])
            || written_fillers::<D>(fs)[0] == D::atg_control_points().comment,
{
    lemma_distinguished::<D>();
    let w = written_fillers::<D>(fs);
    let head = written_filler::<D>(fs[0]);
    assert(w == head + written_fillers::<D>(fs.skip(1)));
    assert(w[0] == head[0]);
}

/// An input with fillers put in at an index is the same before that index
/// as the input without them, and goes on with a neutral scalar.
pub proof fn lemma_same_before<D: AtgDialect>(a: Seq<char>, w: Seq<char>, b: Seq<char>)
    requires
        w.len() > 0,
        neutral::<D>(w[0]),
    ensures
        same_before::<D>(a + w + b, a + b, a.len() as int),
{
    let filled = a + w + b;
    let given = a + b;
    assert(filled[a.len() as int] == w[0]);
    assert forall|j: int| 0 <= j < a.len() implies filled[j] == given[j] by {}
}

/// Whether two texts have the same normal form, behind whatever native
/// run.
pub open spec fn alike(left: Seq<PartView>, right: Seq<PartView>) -> bool {
    forall|x: Seq<char>| #[trigger] coalesced(x, left) == coalesced(x, right)
}

/// Texts that are alike are alike behind the same part.
pub proof fn lemma_alike_behind(p: PartView, left: Seq<PartView>, right: Seq<PartView>)
    requires
        alike(left, right),
    ensures
        alike(seq![p] + left, seq![p] + right),
{
    assert forall|x: Seq<char>| #[trigger]
        coalesced(x, seq![p] + left) == coalesced(x, seq![p] + right) by {
        let first_text = seq![p] + left;
        let second_text = seq![p] + right;
        assert(first_text.skip(1) =~= left);
        assert(second_text.skip(1) =~= right);
        assert(first_text[0] == p && second_text[0] == p);
        match p {
            PartView::Native(y) => {
                assert(coalesced(x + y, left) == coalesced(x + y, right));
            },
            _ => {
                assert(coalesced(Seq::<char>::empty(), left) == coalesced(Seq::<char>::empty(), right));
            },
        }
    }
}

/// An empty native run in front of a text leaves the text alike.
pub proof fn lemma_alike_empty_run(t: Seq<PartView>)
    ensures
        alike(seq![PartView::Native(Seq::empty())] + t, t),
{
    assert forall|x: Seq<char>| #[trigger]
        coalesced(x, seq![PartView::Native(Seq::empty())] + t) == coalesced(x, t) by {
        let u = seq![PartView::Native(Seq::<char>::empty())] + t;
        assert(u.skip(1) =~= t);
        assert(u[0] == PartView::Native(Seq::<char>::empty()));
        assert(x + Seq::<char>::empty() =~= x);
    }
}

/// Fillers in front of an input leave the text that is read alike.
pub proof fn lemma_fillers_in_front<D: AtgDialect>(
    fs: Seq<Filler>,
    b: Seq<char>,
    dialect: AnchorDialect,
    hands: nat,
)
    requires
        transparent_dialect::<D>(),
        fillers_of::<D>(fs),
        fs.len() > 0,
        parse_parts::<D>(b, 0, dialect, hands) is Ok,
    ensures
        parse_parts::<D>(written_fillers::<D>(fs) + b, 0, dialect, hands) is Ok,
        alike(
            parse_parts::<D>(written_fillers::<D>(fs) + b, 0, dialect, hands)->Ok_0,
            parse_parts::<D>(b, 0, dialect, hands)->Ok_0,
        ),
{
    lemma_distinguished::<D>();
    let points = D::atg_control_points();
    let w = written_fillers::<D>(fs);
    let u = w + b;
    let n = w.len() as int;
    lemma_fillers_start::<D>(fs);
    lemma_fillers_skipped::<D>(fs, b);
    assert(u[0] == w[0]);
    lemma_read_bare::<D>(u, 0);
    lemma_parse_native_step::<D>(u, 0);
    if w[0] == points.comment {
        match fs[0] {
            Filler::Blanks(run) => {
                assert(written_filler::<D>(fs[0])[0] == run[0]);
                assert(w == written_filler::<D>(fs[0]) + written_fillers::<D>(fs.skip(1)));
                assert(false);
            },
            Filler::Comment(body) => {
                let mark = seq![points.comment];
                let others = written_fillers::<D>(fs.skip(1));
                assert(u =~= mark + (parameter::<D>(body) + (others + b)));
                lemma_read_comment::<D>(body, others + b);
                lemma_read_parameter_behind::<D>(mark, parameter::<D>(body) + (others + b), 0);
            },
        }
    }
    // the part that is read at the start is the native run behind the fillers
    let run = parse_native::<D>(b, 0);
    assert(parse_part::<D>(u, 0, dialect, hands) == as_part(
        parse_native::<D>(u, 0),
        |t: Seq<char>| PartView::Native(t),
    ));
    let parts = parse_parts::<D>(b, 0, dialect, hands)->Ok_0;
    if b.len() == 0 {
        assert(u =~= w);
        assert(parts =~= Seq::<PartView>::empty());
        lemma_alike_empty_run(parts);
        assert(seq![PartView::Native(Seq::<char>::empty())] + Seq::<PartView>::empty() =~= seq![
            PartView::Native(Seq::<char>::empty()),
        ] + parts);
    } else {
        let first = read_char::<D>(b, 0)->Ok_0;
        lemma_read_char_moves::<D>(b, 0);
        lemma_parse_native_step::<D>(b, 0);
        lemma_read_until_control_moves::<D>(b, 0);
        if first.value == points.illegible || first.value == points.lacuna || first.value
            == points.anchor || first.value == points.format_break || first.value
            == points.correction {
            assert(run == Ok::<Parsed<Seq<char>>, Fault>(Parsed { value: Seq::empty(), next: 0 }));
            lemma_parse_parts_behind::<D>(w, b, 0, dialect, hands);
            lemma_alike_empty_run(parts);
        } else {
            if first.value == points.comment {
                let comment = read_parameter::<D>(b, first.next)->Ok_0;
                lemma_read_char_moves::<D>(b, first.next);
                lemma_read_until_moves::<D>(
                    b,
                    read_char::<D>(b, first.next)->Ok_0.next,
                    points.stop_param,
                );
            }
            assert(parse_part::<D>(b, 0, dialect, hands) == as_part(
                run,
                |t: Seq<char>| PartView::Native(t),
            ));
            let p = run->Ok_0;
            lemma_parse_native_moves::<D>(b, 0);
            lemma_parse_parts_behind::<D>(w, b, p.next, dialect, hands);
            assert(parse_parts::<D>(u, 0, dialect, hands) == parse_parts::<D>(
                b,
                0,
                dialect,
                hands,
            ));
        }
    }
}

/// Fillers at an index at which the parser stands at some time outside of
/// any parameter leave the text that is read from index `i` on alike.
pub proof fn lemma_fillers_between<D: AtgDialect>(
    a: Seq<char>,
    fs: Seq<Filler>,
    b: Seq<char>,
    i: int,
    dialect: AnchorDialect,
    hands: nat,
)
    requires
        transparent_dialect::<D>(),
        fillers_of::<D>(fs),
        fs.len() > 0,
        0 <= i <= a.len(),
        open_at::<D>(a + b, i, a.len() as int, dialect, hands),
        parse_parts::<D>(a + b, i, dialect, hands) is Ok,
    ensures
        parse_parts::<D>(a + written_fillers::<D>(fs) + b, i, dialect, hands) is Ok,
        alike(
            parse_parts::<D>(a + written_fillers::<D>(fs) + b, i, dialect, hands)->Ok_0,
            parse_parts::<D>(a + b, i, dialect, hands)->Ok_0,
        ),
    decreases a.len() - i,
{
    lemma_distinguished::<D>();
    let points = D::atg_control_points();
    let w = written_fillers::<D>(fs);
    let n = w.len() as int;
    let k = a.len() as int;
    let filled = a + w + b;
    let given = a + b;
    lemma_fillers_start::<D>(fs);
    if i == k {
        assert(filled =~= a + (w + b));
        lemma_parse_parts_behind::<D>(a, w + b, 0, dialect, hands);
        lemma_parse_parts_behind::<D>(a, b, 0, dialect, hands);
        lemma_fillers_in_front::<D>(fs, b, dialect, hands);
    } else {
        lemma_same_before::<D>(a, w, b);
        let p = parse_part::<D>(given, i, dialect, hands)->Ok_0;
        let rest2 = parse_parts::<D>(given, p.next, dialect, hands)->Ok_0;
        if i < p.next <= k && (p.value is Native ==> p.next < k) && clear::<D>(given, p.next, k)
            && open_at::<D>(given, p.next, k, dialect, hands) {
            lemma_parse_part_same::<D>(filled, given, k, i, dialect, hands);
            lemma_fillers_between::<D>(a, fs, b, p.next, dialect, hands);
            let rest1 = parse_parts::<D>(filled, p.next, dialect, hands)->Ok_0;
            lemma_alike_behind(p.value, rest1, rest2);
        } else {
            let j = native_start::<D>(given, i)->0;
            let c = read_char::<D>(given, i)->Ok_0;
            lemma_read_char_moves::<D>(given, i);
            lemma_read_char_same::<D>(filled, given, k, i);
            if c.value == points.comment {
                lemma_read_char_moves::<D>(given, c.next);
                lemma_read_until_moves::<D>(
                    given,
                    read_char::<D>(given, c.next)->Ok_0.next,
                    points.stop_param,
                );
                lemma_read_parameter_same::<D>(filled, given, k, c.next);
            }
            assert(native_start::<D>(filled, i) == Some(j));
            lemma_scan_reaches::<D>(given, j, k);
            lemma_scan_skips_fillers::<D>(a, fs, b, j);
            assert(filled =~= (a + w) + b);
            lemma_parse_parts_behind::<D>(a, b, p.next - k, dialect, hands);
            lemma_parse_parts_behind::<D>(a + w, b, p.next - k, dialect, hands);
            assert(parse_parts::<D>(filled, p.next + n, dialect, hands) == Ok::<Seq<PartView>, Fault>(
                rest2,
            ));
            assert(parse_parts::<D>(filled, i, dialect, hands) == parse_parts::<D>(
                given,
                i,
                dialect,
                hands,
            ));
        }
    }
}

/// Fillers change nothing. Where they are put into an input at an index at
/// which the parser stands at some time outside of any parameter, between
/// two parts or in the scan of a native run, the text that is read has the
/// same normal form as the text that is read without them.
pub proof fn lemma_fillers_are_transparent<D: AtgDialect>(
    a: Seq<char>,
    fs: Seq<Filler>,
    b: Seq<char>,
    dialect: AnchorDialect,
    hands: nat,
)
    requires
        transparent_dialect::<D>(),
        fillers_of::<D>(fs),
        open_at::<D>(a + b, 0, a.len() as int, dialect, hands),
        parse_text::<D>(a + b, dialect, hands) is Ok,
    ensures
        parse_text::<D>(a + written_fillers::<D>(fs) + b, dialect, hands) is Ok,
        normal_text(parse_text::<D>(a + written_fillers::<D>(fs) + b, dialect, hands)->Ok_0)
            == normal_text(parse_text::<D>(a + b, dialect, hands)->Ok_0),
{
    let w = written_fillers::<D>(fs);
    let filled = a + w + b;
    let given = a + b;
    if fs.len() == 0 {
        assert(filled =~= given);
    } else {
        lemma_fillers_start::<D>(fs);
        if given.len() == 0 {
            assert(a =~= Seq::<char>::empty() && b =~= Seq::<char>::empty());
            assert(filled =~= w + b);
            lemma_fillers_in_front::<D>(fs, b, dialect, hands);
            let parts = parse_parts::<D>(filled, 0, dialect, hands)->Ok_0;
            let nothing = Seq::<PartView>::empty();
            assert(coalesced(Seq::<char>::empty(), parts) == coalesced(
                Seq::<char>::empty(),
                nothing,
            ));
            lemma_alike_empty_run(nothing);
            assert(seq![PartView::Native(Seq::<char>::empty())] + nothing =~= seq![
                PartView::Native(Seq::<char>::empty()),
            ]);
            assert(coalesced(
                Seq::<char>::empty(),
                seq![PartView::Native(Seq::<char>::empty())],
            ) == coalesced(Seq::<char>::empty(), nothing));
        } else {
            lemma_fillers_between::<D>(a, fs, b, 0, dialect, hands);
            let parts_filled = parse_parts::<D>(filled, 0, dialect, hands)->Ok_0;
            let parts_given = parse_parts::<D>(given, 0, dialect, hands)->Ok_0;
            assert(coalesced(Seq::<char>::empty(), parts_filled) == coalesced(Seq::<char>::empty(), parts_given));
        }
    }
}

/// Scalars without meaning change nothing. Where any number of them is put
/// into an input at an index at which the parser stands at some time
/// outside of any parameter, the text that is read has the same normal form
/// as the text that is read without them.
pub proof fn lemma_blanks_are_transparent<D: AtgDialect>(
    a: Seq<char>,
    ns: Seq<char>,
    b: Seq<char>,
    dialect: AnchorDialect,
    hands: nat,
)
    requires
        transparent_dialect::<D>(),
        meaningless::<D>(ns),
        open_at::<D>(a + b, 0, a.len() as int, dialect, hands),
        parse_text::<D>(a + b, dialect, hands) is Ok,
    ensures
        parse_text::<D>(a + ns + b, dialect, hands) is Ok,
        normal_text(parse_text::<D>(a + ns + b, dialect, hands)->Ok_0) == normal_text(
            parse_text::<D>(a + b, dialect, hands)->Ok_0,
        ),
{
    if ns.len() == 0 {
        assert(a + ns + b =~= a + b);
    } else {
        let fs = seq![Filler::Blanks(ns)];
        assert(fs.skip(1) =~= Seq::<Filler>::empty());
        assert(written_fillers::<D>(fs.skip(1)) =~= Seq::<char>::empty());
        assert(written_fillers::<D>(fs) =~= ns);
        lemma_fillers_are_transparent::<D>(a, fs, b, dialect, hands);
    }
}

/// A comment changes nothing. Where a comment is put into an input at an
/// index at which the parser stands at some time outside of any parameter,
/// the text that is read has the same normal form as the text that is read
/// without it.
pub proof fn lemma_comment_is_transparent<D: AtgDialect>(
    a: Seq<char>,
    body: Seq<char>,
    b: Seq<char>,
    dialect: AnchorDialect,
    hands: nat,
)
    requires
        transparent_dialect::<D>(),
        closed_comment::<D>(body),
        open_at::<D>(a + b, 0, a.len() as int, dialect, hands),
        parse_text::<D>(a + b, dialect, hands) is Ok,
    ensures
        parse_text::<D>(
            a + (seq![D::atg_control_points().comment] + parameter::<D>(body)) + b,
            dialect,
            hands,
        ) is Ok,
        normal_text(
            parse_text::<D>(
                a + (seq![D::atg_control_points().comment] + parameter::<D>(body)) + b,
                dialect,
                hands,
            )->Ok_0,
        ) == normal_text(parse_text::<D>(a + b, dialect, hands)->Ok_0),
{
    let fs = seq![Filler::Comment(body)];
    let comment = seq![D::atg_control_points().comment] + parameter::<D>(body);
    assert(fs.skip(1) =~= Seq::<Filler>::empty());
    assert(written_fillers::<D>(fs.skip(1)) =~= Seq::<char>::empty());
    assert(written_fillers::<D>(fs) =~= comment);
    lemma_fillers_are_transparent::<D>(a, fs, b, dialect, hands);
}

/// The parser stands at the start of the input before it reads anything.
pub proof fn lemma_open_at_start<D: AtgDialect>(s: Seq<char>, dialect: AnchorDialect, hands: nat)
    ensures
        open_at::<D>(s, 0, 0, dialect, hands),
{
}

/// The parser stands at every index of a plain stretch with which the
/// input starts, and at its end.
pub proof fn lemma_open_in_plain<D: AtgDialect>(
    s: Seq<char>,
    k: int,
    dialect: AnchorDialect,
    hands: nat,
)
    requires
        D::atg_control_points().well_formed(),
        0 <= k <= s.len(),
        forall|j: int| 0 <= j < k ==> !D::atg_control_points().control_point(#[trigger] s[j]),
        parse_text::<D>(s, dialect, hands) is Ok,
    ensures
        open_at::<D>(s, 0, k, dialect, hands),
{
    lemma_distinguished::<D>();
    if k > 0 {
        lemma_scans_plain::<D>(s, 0, k);
        lemma_read_bare::<D>(s, 0);
        assert(native_start::<D>(s, 0) == Some(0int));
    }
}

/// The scan of a native run stands at every index of a plain stretch.
pub proof fn lemma_scans_plain<D: AtgDialect>(s: Seq<char>, j: int, k: int)
    requires
        0 <= j <= k <= s.len(),
        forall|m: int| j <= m < k ==> !D::atg_control_points().control_point(#[trigger] s[m]),
    ensures
        scans_to::<D>(s, j, k),
    decreases k - j,
{
    if j < k {
        lemma_read_bare::<D>(s, j);
        lemma_scans_plain::<D>(s, j + 1, k);
    }
}

} // verus!
