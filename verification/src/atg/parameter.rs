//! The parameter reader: one parameter between its start and its stop, and
//! the same for a parameter that has to be native.

use vstd::prelude::*;
use crate::atg::{native_point, AtgDialect, AtgParseError, AtgParseErrorReason, Fault, Reason};
use crate::atg::escape::{
    lemma_read_until_moves, located, read_char, read_char_at, read_until, read_until_at, rest_of,
    Defect, Run,
};
use crate::scalars::{byte_offset, chars_of, contains_char, offset_of};

verus! {

/// Reads one parameter at index `i`: the scalar read there has to be the
/// start of a parameter, and the parameter runs up to the next stop.
pub open spec fn read_parameter<D: AtgDialect>(s: Seq<char>, i: int) -> Result<Run, Fault> {
    match read_char::<D>(s, i) {
        Err(x) => Err(Fault { location: i as nat, reason: Reason::EscapeMalformed(x) }),
        Ok(c) => if c.value != D::atg_control_points().start_param {
            Err(Fault { location: i as nat, reason: Reason::MissingParameterStart })
        } else {
            read_until::<D>(s, c.next, D::atg_control_points().stop_param)
        },
    }
}

/// The index behind the scalar read at index `i`: where the body of a
/// parameter starts, if the parameter starts at `i`.
pub open spec fn body_start<D: AtgDialect>(s: Seq<char>, i: int) -> int {
    match read_char::<D>(s, i) {
        Ok(c) => c.next,
        Err(_) => i,
    }
}

/// The index of the first scalar of `t`, from index `k` on, that is not
/// native; the length of `t` if there is none.
pub open spec fn foreign_from<D: AtgDialect>(t: Seq<char>, k: int) -> int
    decreases t.len() - k,
{
    if 0 <= k < t.len() && native_point::<D>(t[k]) {
        foreign_from::<D>(t, k + 1)
    } else {
        k
    }
}

/// The index in the input at which the scalar with index `k` of the text
/// read from index `i` on was read.
pub open spec fn origin<D: AtgDialect>(s: Seq<char>, i: int, k: nat) -> int
    decreases k,
{
    if k == 0 {
        i
    } else {
        body_start::<D>(s, origin::<D>(s, i, (k - 1) as nat))
    }
}

/// Reads one parameter at index `i` that has to be native. Where the input
/// has ended the start of the parameter is missing. A scalar that is not
/// native is a fault at the index at which it was read.
pub open spec fn read_native_parameter<D: AtgDialect>(s: Seq<char>, i: int) -> Result<Run, Fault> {
    if !(0 <= i < s.len()) {
        Err(Fault { location: i as nat, reason: Reason::MissingParameterStart })
    } else {
        match read_parameter::<D>(s, i) {
            Err(f) => Err(f),
            Ok(run) => {
                let k = foreign_from::<D>(run.text, 0);
                if k < run.text.len() {
                    Err(
                        Fault {
                            location: origin::<D>(s, body_start::<D>(s, i), k as nat) as nat,
                            reason: Reason::NotNative(run.text),
                        },
                    )
                } else {
                    Ok(run)
                }
            },
        }
    }
}

/// The first scalar that is not native is within the text or at its end,
/// and before it every scalar is native.
pub proof fn lemma_foreign_from<D: AtgDialect>(t: Seq<char>, k: int)
    requires
        0 <= k <= t.len(),
    ensures
        k <= foreign_from::<D>(t, k) <= t.len(),
        forall|j: int| k <= j < foreign_from::<D>(t, k) ==> native_point::<D>(#[trigger] t[j]),
        foreign_from::<D>(t, k) < t.len() ==> !native_point::<D>(t[foreign_from::<D>(t, k)]),
    decreases t.len() - k,
{
    if k < t.len() && native_point::<D>(t[k]) {
        lemma_foreign_from::<D>(t, k + 1);
    }
}

/// Within a text that was read up to `stop`, every scalar has an index at
/// which it was read, and from there the rest of the text is read.
pub proof fn lemma_origin<D: AtgDialect>(s: Seq<char>, i: int, stop: char, k: nat)
    requires
        0 <= i <= s.len(),
        read_until::<D>(s, i, stop) is Ok,
        k <= read_until::<D>(s, i, stop)->Ok_0.text.len(),
    ensures
        i <= origin::<D>(s, i, k) < s.len(),
        read_until::<D>(s, origin::<D>(s, i, k), stop) == Ok::<Run, Fault>(
            Run {
                text: read_until::<D>(s, i, stop)->Ok_0.text.skip(k as int),
                next: read_until::<D>(s, i, stop)->Ok_0.next,
            },
        ),
    decreases k,
{
    let run = read_until::<D>(s, i, stop)->Ok_0;
    if k == 0 {
        assert(run.text.skip(0) =~= run.text);
    } else {
        lemma_origin::<D>(s, i, stop, (k - 1) as nat);
        let p = origin::<D>(s, i, (k - 1) as nat);
        let here = read_until::<D>(s, p, stop)->Ok_0;
        assert(here.text == run.text.skip(k - 1));
        assert(here.text.len() > 0);
        let c = read_char::<D>(s, p)->Ok_0;
        let there = read_until::<D>(s, c.next, stop)->Ok_0;
        assert(here.text == seq![c.value] + there.text);
        assert(there.text =~= run.text.skip(k as int)) by {
            assert((seq![c.value] + there.text).skip(1) =~= there.text);
            assert(run.text.skip(k - 1).skip(1) =~= run.text.skip(k as int));
        }
        lemma_read_until_moves::<D>(s, c.next, stop);
    }
}

/// Reads one parameter at index `i`.
pub fn read_parameter_at<D: AtgDialect>(input: &Vec<char>, i: usize) -> (r: Result<
    (String, usize),
    Defect,
>)
    requires
        i <= input.len(),
    ensures
        match (read_parameter::<D>(input@, i as int), r) {
            (Ok(run), Ok((text, next))) => text@ == run.text && next == run.next,
            (Err(f), Err(d)) => d@ == f,
            _ => false,
        },
        r is Ok ==> i < r->Ok_0.1 <= input.len(),
        r is Err ==> r->Err_0.at <= input.len(),
{
    match read_char_at::<D>(input, i) {
        Err(x) => Err(Defect { at: i, reason: AtgParseErrorReason::EscapeMalformed(x) }),
        Ok((first, next)) => {
            if first != D::control_points().start_param {
                return Err(Defect { at: i, reason: AtgParseErrorReason::MissingParameterStart });
            }
            read_until_at::<D>(input, next, D::control_points().stop_param)
        },
    }
}

/// Reads one parameter at index `i` that has to be native.
pub fn read_native_parameter_at<D: AtgDialect>(input: &Vec<char>, i: usize) -> (r: Result<
    (String, usize),
    Defect,
>)
    requires
        i <= input.len(),
    ensures
        match (read_native_parameter::<D>(input@, i as int), r) {
            (Ok(run), Ok((text, next))) => text@ == run.text && next == run.next,
            (Err(f), Err(d)) => d@ == f,
            _ => false,
        },
        r is Ok ==> i < r->Ok_0.1 <= input.len(),
        r is Err ==> r->Err_0.at <= input.len(),
{
    if i >= input.len() {
        return Err(Defect { at: i, reason: AtgParseErrorReason::MissingParameterStart });
    }
    let (parameter, next) = read_parameter_at::<D>(input, i)?;
    let scalars = chars_of(parameter.as_str());
    let mut k: usize = 0;
    while k < scalars.len() && contains_char(D::NATIVE_POINTS, scalars[k])
        invariant
            k <= scalars.len(),
            foreign_from::<D>(scalars@, 0) == foreign_from::<D>(scalars@, k as int),
        decreases scalars.len() - k,
    {
        k += 1;
    }
    if k >= scalars.len() {
        return Ok((parameter, next));
    }
    let ghost start = body_start::<D>(input@, i as int);
    let ghost stop = D::atg_control_points().stop_param;
    let mut at: usize = match read_char_at::<D>(input, i) {
        Ok((_, body)) => body,
        Err(_) => i,
    };
    let mut j: usize = 0;
    while j < k
        invariant
            j <= k < scalars.len(),
            at == origin::<D>(input@, start, j as nat),
            start <= input.len(),
            read_until::<D>(input@, start, stop) is Ok,
            read_until::<D>(input@, start, stop)->Ok_0.text == scalars@,
            at <= input.len(),
        decreases k - j,
    {
        proof {
            lemma_origin::<D>(input@, start, stop, j as nat);
            lemma_origin::<D>(input@, start, stop, (j + 1) as nat);
        }
        at = match read_char_at::<D>(input, at) {
            Ok((_, after)) => after,
            Err(_) => at,
        };
        j += 1;
    }
    Err(Defect { at, reason: AtgParseErrorReason::NotNative(parameter) })
}

/// Reads one parameter from the start of `s`.
///
/// Gives the parameter, the rest of the input behind it and the number of
/// bytes read.
pub fn collect_parameter<D: AtgDialect>(s: &str) -> (r: Result<
    (String, &str, usize),
    AtgParseError,
>)
    ensures
        match (read_parameter::<D>(s@, 0), r) {
            (Ok(run), Ok((text, rest, offset))) => {
                &&& text@ == run.text
                &&& rest@ == s@.skip(run.next)
                &&& offset == byte_offset(s@, run.next)
            },
            (Err(f), Err(e)) => e@ == f.in_bytes(s@),
            _ => false,
        },
{
    let chars = chars_of(s);
    match read_parameter_at::<D>(&chars, 0) {
        Ok((text, next)) => Ok((text, rest_of(s, &chars, next), offset_of(&chars, next))),
        Err(d) => Err(located(&chars, d)),
    }
}

/// Reads one parameter that has to be native from the start of `s`.
///
/// Gives the parameter, the rest of the input behind it and the number of
/// bytes read.
pub fn collect_native_parameter<D: AtgDialect>(s: &str) -> (r: Result<
    (String, &str, usize),
    AtgParseError,
>)
    ensures
        match (read_native_parameter::<D>(s@, 0), r) {
            (Ok(run), Ok((text, rest, offset))) => {
                &&& text@ == run.text
                &&& rest@ == s@.skip(run.next)
                &&& offset == byte_offset(s@, run.next)
            },
            (Err(f), Err(e)) => e@ == f.in_bytes(s@),
            _ => false,
        },
{
    let chars = chars_of(s);
    match read_native_parameter_at::<D>(&chars, 0) {
        Ok((text, next)) => Ok((text, rest_of(s, &chars, next), offset_of(&chars, next))),
        Err(d) => Err(located(&chars, d)),
    }
}

} // verus!
