//! The readers look at nothing that stands before the index at which they
//! start: what they read behind a prefix is what they read without it, moved
//! by the length of the prefix.

use vstd::prelude::*;
use crate::anchor::AnchorDialect;
use crate::atg::{AtgDialect, Fault};
use crate::atg::escape::{
    lemma_read_char_moves, lemma_read_until_control_moves, lemma_read_until_moves, read_char,
    read_until, read_until_control, Halt, Run, Scalar,
};
use crate::atg::parameter::{
    body_start, foreign_from, lemma_foreign_from, origin, read_native_parameter, read_parameter,
};
use crate::atg::parse::{
    parse_anchor, parse_correction, parse_format_break, parse_native, parse_part, parse_parts,
    parse_uncertain, parse_versions, Parsed,
};
use crate::atg::text::PartView;
use crate::numerals::hex_run;

verus! {

/// The scalar read `n` scalars further on.
pub open spec fn moved_scalar(r: Result<Scalar, Seq<char>>, n: int) -> Result<Scalar, Seq<char>> {
    match r {
        Ok(c) => Ok(Scalar { value: c.value, next: c.next + n }),
        Err(x) => Err(x),
    }
}

/// The fault `n` scalars further on.
pub open spec fn moved_fault(f: Fault, n: int) -> Fault {
    Fault { location: (f.location + n) as nat, reason: f.reason }
}

/// The text read `n` scalars further on.
pub open spec fn moved_run(r: Result<Run, Fault>, n: int) -> Result<Run, Fault> {
    match r {
        Ok(run) => Ok(Run { text: run.text, next: run.next + n }),
        Err(f) => Err(moved_fault(f, n)),
    }
}

/// The text read up to a control point `n` scalars further on.
pub open spec fn moved_halt(r: Result<Halt, Fault>, n: int) -> Result<Halt, Fault> {
    match r {
        Ok(h) => Ok(Halt { text: h.text, control: h.control, at: h.at + n, next: h.next + n }),
        Err(f) => Err(moved_fault(f, n)),
    }
}

/// What was parsed `n` scalars further on.
pub open spec fn moved<T>(r: Result<Parsed<T>, Fault>, n: int) -> Result<Parsed<T>, Fault> {
    match r {
        Ok(p) => Ok(Parsed { value: p.value, next: p.next + n }),
        Err(f) => Err(moved_fault(f, n)),
    }
}

/// The parts parsed `n` scalars further on.
pub open spec fn moved_parts(r: Result<Seq<PartView>, Fault>, n: int) -> Result<
    Seq<PartView>,
    Fault,
> {
    match r {
        Ok(p) => Ok(p),
        Err(f) => Err(moved_fault(f, n)),
    }
}

/// A run of hexadecimal digits behind a prefix is one without it.
proof fn lemma_hex_run_behind(a: Seq<char>, s: Seq<char>, j: int, w: int)
    requires
        0 <= j,
        0 <= w,
    ensures
        hex_run(a + s, a.len() + j, w) == hex_run(s, j, w),
{
    let n = a.len() as int;
    let t = a + s;
    if j + w <= s.len() {
        if hex_run(s, j, w) {
            assert forall|k: int| n + j <= k < n + j + w implies crate::numerals::is_hex_digit(
                #[trigger] t[k],
            ) by {
                assert(t[k] == s[k - n]);
            }
        }
        if hex_run(t, n + j, w) {
            assert forall|k: int| j <= k < j + w implies crate::numerals::is_hex_digit(
                #[trigger] s[k],
            ) by {
                assert(t[n + k] == s[k]);
            }
        }
    }
}

/// A scalar is read behind a prefix as it is read without it.
pub proof fn lemma_read_char_behind<D: AtgDialect>(a: Seq<char>, s: Seq<char>, i: int)
    requires
        0 <= i,
    ensures
        read_char::<D>(a + s, a.len() + i) == moved_scalar(read_char::<D>(s, i), a.len() as int),
{
    reveal(read_char);
    let n = a.len() as int;
    let t = a + s;
    if i < s.len() {
        assert(t[n + i] == s[i]);
        assert(t.skip(n + i) =~= s.skip(i));
        if i + 1 < s.len() {
            assert(t[n + i + 1] == s[i + 1]);
            lemma_hex_run_behind(a, s, i + 1, 6);
            lemma_hex_run_behind(a, s, i + 1, 4);
            lemma_hex_run_behind(a, s, i + 1, 2);
            if i + 7 <= s.len() {
                assert(t.subrange(n + i + 1, n + i + 7) =~= s.subrange(i + 1, i + 7));
                assert(t.subrange(n + i, n + i + 7) =~= s.subrange(i, i + 7));
            }
            if i + 5 <= s.len() {
                assert(t.subrange(n + i + 1, n + i + 5) =~= s.subrange(i + 1, i + 5));
                assert(t.subrange(n + i, n + i + 5) =~= s.subrange(i, i + 5));
            }
            if i + 3 <= s.len() {
                assert(t.subrange(n + i + 1, n + i + 3) =~= s.subrange(i + 1, i + 3));
                assert(t.subrange(n + i, n + i + 3) =~= s.subrange(i, i + 3));
            }
        }
    }
}

/// A text is read up to a scalar behind a prefix as it is read without it.
pub proof fn lemma_read_until_behind<D: AtgDialect>(a: Seq<char>, s: Seq<char>, i: int, stop: char)
    requires
        0 <= i,
    ensures
        read_until::<D>(a + s, a.len() + i, stop) == moved_run(
            read_until::<D>(s, i, stop),
            a.len() as int,
        ),
    decreases s.len() - i,
{
    lemma_read_char_behind::<D>(a, s, i);
    lemma_read_char_moves::<D>(s, i);
    if i < s.len() {
        if let Ok(c) = read_char::<D>(s, i) {
            if c.value != stop {
                lemma_read_until_behind::<D>(a, s, c.next, stop);
            }
        }
    }
}

/// A text is read up to a control point behind a prefix as it is read
/// without it.
pub proof fn lemma_read_until_control_behind<D: AtgDialect>(a: Seq<char>, s: Seq<char>, i: int)
    requires
        0 <= i,
    ensures
        read_until_control::<D>(a + s, a.len() + i) == moved_halt(
            read_until_control::<D>(s, i),
            a.len() as int,
        ),
    decreases s.len() - i,
{
    lemma_read_char_behind::<D>(a, s, i);
    lemma_read_char_moves::<D>(s, i);
    if i < s.len() {
        if let Ok(c) = read_char::<D>(s, i) {
            if !D::atg_control_points().control_point(c.value) {
                lemma_read_until_control_behind::<D>(a, s, c.next);
            }
        }
    }
}

/// A parameter is read behind a prefix as it is read without it, and its
/// body starts as many scalars later as the prefix has.
pub proof fn lemma_read_parameter_behind<D: AtgDialect>(a: Seq<char>, s: Seq<char>, i: int)
    requires
        0 <= i,
    ensures
        read_parameter::<D>(a + s, a.len() + i) == moved_run(
            read_parameter::<D>(s, i),
            a.len() as int,
        ),
        read_char::<D>(s, i) is Ok ==> body_start::<D>(a + s, a.len() + i) == body_start::<D>(s, i)
            + a.len(),
{
    lemma_read_char_behind::<D>(a, s, i);
    lemma_read_char_moves::<D>(s, i);
    if let Ok(c) = read_char::<D>(s, i) {
        lemma_read_until_behind::<D>(a, s, c.next, D::atg_control_points().stop_param);
    }
}

/// The scalars of a text that was read behind a prefix were read as many
/// scalars later as the prefix has.
pub proof fn lemma_origin_behind<D: AtgDialect>(
    a: Seq<char>,
    s: Seq<char>,
    i: int,
    stop: char,
    k: nat,
)
    requires
        0 <= i <= s.len(),
        read_until::<D>(s, i, stop) is Ok,
        k <= read_until::<D>(s, i, stop)->Ok_0.text.len(),
    ensures
        origin::<D>(a + s, a.len() + i, k) == origin::<D>(s, i, k) + a.len(),
    decreases k,
{
    if k > 0 {
        lemma_origin_behind::<D>(a, s, i, stop, (k - 1) as nat);
        crate::atg::parameter::lemma_origin::<D>(s, i, stop, (k - 1) as nat);
        let p = origin::<D>(s, i, (k - 1) as nat);
        lemma_read_char_behind::<D>(a, s, p);
        let here = read_until::<D>(s, p, stop)->Ok_0;
        assert(here.text.len() > 0);
    }
}

/// A native parameter is read behind a prefix as it is read without it.
pub proof fn lemma_read_native_parameter_behind<D: AtgDialect>(a: Seq<char>, s: Seq<char>, i: int)
    requires
        0 <= i,
    ensures
        read_native_parameter::<D>(a + s, a.len() + i) == moved_run(
            read_native_parameter::<D>(s, i),
            a.len() as int,
        ),
{
    lemma_read_parameter_behind::<D>(a, s, i);
    lemma_read_char_moves::<D>(s, i);
    if i < s.len() {
        if let Ok(run) = read_parameter::<D>(s, i) {
            let k = foreign_from::<D>(run.text, 0);
            lemma_foreign_from::<D>(run.text, 0);
            if k < run.text.len() {
                let c = read_char::<D>(s, i)->Ok_0;
                crate::atg::parameter::lemma_origin::<D>(
                    s,
                    c.next,
                    D::atg_control_points().stop_param,
                    k as nat,
                );
                assert(body_start::<D>(s, i) == c.next);
                assert(body_start::<D>(a + s, a.len() + i) == c.next + a.len());
                lemma_origin_behind::<D>(
                    a,
                    s,
                    c.next,
                    D::atg_control_points().stop_param,
                    k as nat,
                );
            }
        }
    }
}

/// An uncertain passage is parsed behind a prefix as it is parsed without
/// it.
pub proof fn lemma_parse_uncertain_behind<D: AtgDialect>(a: Seq<char>, s: Seq<char>, i: int)
    requires
        0 <= i,
    ensures
        parse_uncertain::<D>(a + s, a.len() + i) == moved(
            parse_uncertain::<D>(s, i),
            a.len() as int,
        ),
{
    lemma_read_parameter_behind::<D>(a, s, i);
    lemma_read_char_moves::<D>(s, i);
    if let Ok(first) = read_parameter::<D>(s, i) {
        let c = read_char::<D>(s, i)->Ok_0;
        lemma_read_until_moves::<D>(s, c.next, D::atg_control_points().stop_param);
        lemma_read_native_parameter_behind::<D>(a, s, first.next);
    }
}

/// The versions of a correction are parsed behind a prefix as they are
/// parsed without it.
pub proof fn lemma_parse_versions_behind<D: AtgDialect>(a: Seq<char>, s: Seq<char>, i: int)
    requires
        0 <= i,
    ensures
        parse_versions::<D>(a + s, a.len() + i) == moved(
            parse_versions::<D>(s, i),
            a.len() as int,
        ),
    decreases s.len() - i,
{
    lemma_read_native_parameter_behind::<D>(a, s, i);
    if let Ok(run) = read_native_parameter::<D>(s, i) {
        if i < run.next <= s.len() {
            lemma_parse_versions_behind::<D>(a, s, run.next);
        }
    }
}

/// The versions of a correction end within the input.
pub proof fn lemma_parse_versions_moves<D: AtgDialect>(s: Seq<char>, i: int)
    requires
        0 <= i,
    ensures
        parse_versions::<D>(s, i) is Ok ==> i <= parse_versions::<D>(s, i)->Ok_0.next,
    decreases s.len() - i,
{
    if let Ok(run) = read_native_parameter::<D>(s, i) {
        if i < run.next <= s.len() {
            lemma_parse_versions_moves::<D>(s, run.next);
        }
    }
}

/// A correction is parsed behind a prefix as it is parsed without it.
pub proof fn lemma_parse_correction_behind<D: AtgDialect>(
    a: Seq<char>,
    s: Seq<char>,
    i: int,
    hands: nat,
)
    requires
        0 <= i,
    ensures
        parse_correction::<D>(a + s, a.len() + i, hands) == moved(
            parse_correction::<D>(s, i, hands),
            a.len() as int,
        ),
{
    lemma_read_native_parameter_behind::<D>(a, s, i);
    if let Ok(first) = read_native_parameter::<D>(s, i) {
        lemma_read_parameter_behind::<D>(a, s, i);
        lemma_read_char_moves::<D>(s, i);
        let c = read_char::<D>(s, i)->Ok_0;
        lemma_read_until_moves::<D>(s, c.next, D::atg_control_points().stop_param);
        lemma_parse_versions_behind::<D>(a, s, first.next);
        lemma_parse_versions_moves::<D>(s, first.next);
    }
}

/// A format break is parsed behind a prefix as it is parsed without it.
pub proof fn lemma_parse_format_break_behind<D: AtgDialect>(a: Seq<char>, s: Seq<char>, i: int)
    requires
        0 <= i,
    ensures
        parse_format_break::<D>(a + s, a.len() + i) == moved(
            parse_format_break::<D>(s, i),
            a.len() as int,
        ),
{
    lemma_read_parameter_behind::<D>(a, s, i);
}

/// An anchor is parsed behind a prefix as it is parsed without it.
pub proof fn lemma_parse_anchor_behind<D: AtgDialect>(
    a: Seq<char>,
    s: Seq<char>,
    i: int,
    dialect: AnchorDialect,
)
    requires
        0 <= i,
    ensures
        parse_anchor::<D>(a + s, a.len() + i, dialect) == moved(
            parse_anchor::<D>(s, i, dialect),
            a.len() as int,
        ),
{
    lemma_read_parameter_behind::<D>(a, s, i);
}

/// A native run is parsed behind a prefix as it is parsed without it.
pub proof fn lemma_parse_native_behind<D: AtgDialect>(a: Seq<char>, s: Seq<char>, i: int)
    requires
        0 <= i <= s.len(),
    ensures
        parse_native::<D>(a + s, a.len() + i) == moved(parse_native::<D>(s, i), a.len() as int),
    decreases s.len() - i,
{
    let points = D::atg_control_points();
    lemma_read_until_control_behind::<D>(a, s, i);
    lemma_read_until_control_moves::<D>(s, i);
    if let Ok(h) = read_until_control::<D>(s, i) {
        if let Some(c) = h.control {
            if c == points.comment {
                lemma_read_parameter_behind::<D>(a, s, h.next);
                if let Ok(comment) = read_parameter::<D>(s, h.next) {
                    lemma_read_char_moves::<D>(s, h.next);
                    let start = read_char::<D>(s, h.next)->Ok_0;
                    lemma_read_until_moves::<D>(s, start.next, points.stop_param);
                    lemma_parse_native_behind::<D>(a, s, comment.next);
                }
            } else if points.non_semantic_point(c) {
                lemma_parse_native_behind::<D>(a, s, h.next);
            }
        }
    }
}

/// A part is parsed behind a prefix as it is parsed without it.
pub proof fn lemma_parse_part_behind<D: AtgDialect>(
    a: Seq<char>,
    s: Seq<char>,
    i: int,
    dialect: AnchorDialect,
    hands: nat,
)
    requires
        0 <= i <= s.len(),
    ensures
        parse_part::<D>(a + s, a.len() + i, dialect, hands) == moved(
            parse_part::<D>(s, i, dialect, hands),
            a.len() as int,
        ),
{
    let points = D::atg_control_points();
    lemma_read_char_behind::<D>(a, s, i);
    lemma_read_char_moves::<D>(s, i);
    if i < s.len() {
        if let Ok(c) = read_char::<D>(s, i) {
            lemma_parse_uncertain_behind::<D>(a, s, c.next);
            lemma_parse_anchor_behind::<D>(a, s, c.next, dialect);
            lemma_parse_format_break_behind::<D>(a, s, c.next);
            lemma_parse_correction_behind::<D>(a, s, c.next, hands);
            lemma_read_parameter_behind::<D>(a, s, c.next);
            lemma_parse_native_behind::<D>(a, s, i);
            if let Ok(comment) = read_parameter::<D>(s, c.next) {
                lemma_read_char_moves::<D>(s, c.next);
                let start = read_char::<D>(s, c.next)->Ok_0;
                lemma_read_until_moves::<D>(s, start.next, points.stop_param);
                lemma_parse_native_behind::<D>(a, s, comment.next);
            }
        }
    }
}

/// The parts that are parsed behind a prefix are those that are parsed
/// without it.
pub proof fn lemma_parse_parts_behind<D: AtgDialect>(
    a: Seq<char>,
    s: Seq<char>,
    i: int,
    dialect: AnchorDialect,
    hands: nat,
)
    requires
        0 <= i <= s.len(),
    ensures
        parse_parts::<D>(a + s, a.len() + i, dialect, hands) == moved_parts(
            parse_parts::<D>(s, i, dialect, hands),
            a.len() as int,
        ),
    decreases s.len() - i,
{
    lemma_parse_part_behind::<D>(a, s, i, dialect, hands);
    lemma_read_char_behind::<D>(a, s, i);
    if i < s.len() {
        assert((a + s)[a.len() + i] == s[i]);
        if let Ok(p) = parse_part::<D>(s, i, dialect, hands) {
            if i < p.next <= s.len() {
                lemma_parse_parts_behind::<D>(a, s, p.next, dialect, hands);
            }
        }
    }
}

} // verus!
