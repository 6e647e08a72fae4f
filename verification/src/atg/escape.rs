//! The escape engine: reading one scalar with its escape resolved, and
//! reading on up to a given scalar or up to the next control point.
//!
//! The functions on `(input, i)` work on the scalars of the input and place
//! everything by scalar index. The functions on `&str` are the same readers
//! from the start of a string; they place everything by byte offset.

use vstd::prelude::*;
use vstd::string::StrSliceExecFns;
use vstd::utf8::is_scalar;
use crate::atg::{AtgDialect, AtgParseError, AtgParseErrorReason, Fault, Reason};
use crate::numerals::{has_hex_run, hex_run, hex_value, read_hex};
use crate::scalars::{byte_offset, chars_of, offset_of, string_of, utf8_len};

verus! {

/// A scalar that was read, and the index at which reading goes on.
pub struct Scalar {
    pub value: char,
    pub next: int,
}

/// The scalar numbered by the `n` hexadecimal digits behind the escape at
/// index `i`; the escape and the digits where they number no scalar value.
pub open spec fn numbered(s: Seq<char>, i: int, n: int) -> Result<Scalar, Seq<char>> {
    let v = hex_value(s.subrange(i + 1, i + 1 + n));
    if is_scalar(v as u32) {
        Ok(Scalar { value: v as u32 as char, next: i + 1 + n })
    } else {
        Err(s.subrange(i, i + 1 + n))
    }
}

/// Reads one scalar at index `i`, resolving an escape.
///
/// A scalar other than the escape is read as it is. Behind the escape a
/// control point is read as itself; otherwise six hexadecimal digits, or else
/// four, or else two, number the scalar. Where nothing can be read the
/// result is the text that should have been an escape: the rest of the
/// input, or the escape with its digits where they number no scalar value.
#[verifier::opaque]
pub open spec fn read_char<D: AtgDialect>(s: Seq<char>, i: int) -> Result<Scalar, Seq<char>> {
    let points = D::atg_control_points();
    if !(0 <= i < s.len()) {
        Err(Seq::empty())
    } else if s[i] != points.escape {
        Ok(Scalar { value: s[i], next: i + 1 })
    } else if i + 1 >= s.len() {
        Err(s.skip(i))
    } else if points.control_point(s[i + 1]) {
        Ok(Scalar { value: s[i + 1], next: i + 2 })
    } else if hex_run(s, i + 1, 6) {
        numbered(s, i, 6)
    } else if hex_run(s, i + 1, 4) {
        numbered(s, i, 4)
    } else if hex_run(s, i + 1, 2) {
        numbered(s, i, 2)
    } else {
        Err(s.skip(i))
    }
}

/// A scalar that is read takes at least one scalar of the input and at most
/// seven.
pub proof fn lemma_read_char_moves<D: AtgDialect>(s: Seq<char>, i: int)
    ensures
        read_char::<D>(s, i) is Ok ==> 0 <= i < read_char::<D>(s, i)->Ok_0.next <= s.len(),
        read_char::<D>(s, i) is Ok ==> read_char::<D>(s, i)->Ok_0.next <= i + 7,
{
    reveal(read_char);
}

/// A problem of the input, placed by the index of the scalar at which it
/// starts.
#[derive(Debug, PartialEq, Eq)]
pub struct Defect {
    pub at: usize,
    pub reason: AtgParseErrorReason,
}

impl View for Defect {
    type V = Fault;

    open spec fn view(&self) -> Fault {
        Fault { location: self.at as nat, reason: self.reason@ }
    }
}

impl Fault {
    /// The fault placed by byte offset, for a fault placed by scalar index
    /// in `s`.
    pub open spec fn in_bytes(self, s: Seq<char>) -> Fault {
        Fault { location: byte_offset(s, self.location as int), reason: self.reason }
    }
}

/// A text that was read, and the index at which reading goes on.
pub struct Run {
    pub text: Seq<char>,
    pub next: int,
}

/// The result that puts `c` in front of the text of `r`.
pub open spec fn run_after(c: char, r: Result<Run, Fault>) -> Result<Run, Fault> {
    match r {
        Ok(run) => Ok(Run { text: seq![c] + run.text, next: run.next }),
        Err(f) => Err(f),
    }
}

/// Reads scalars from index `i` on until `stop` is read. The text is what
/// was read before `stop`; reading goes on behind it. The end of the input
/// is a fault there, an unreadable scalar a fault at its index.
///
/// A scalar that is read always ends behind its start and within the input
/// (see [`lemma_read_char_moves`]); the definition asks for it so that it is
/// seen to end.
pub open spec fn read_until<D: AtgDialect>(s: Seq<char>, i: int, stop: char) -> Result<Run, Fault>
    decreases s.len() - i,
{
    if !(0 <= i < s.len()) {
        Err(Fault { location: s.len(), reason: Reason::EOF(stop) })
    } else {
        match read_char::<D>(s, i) {
            Err(x) => Err(Fault { location: i as nat, reason: Reason::EscapeMalformed(x) }),
            Ok(c) => if c.value == stop {
                Ok(Run { text: Seq::empty(), next: c.next })
            } else if i < c.next <= s.len() {
                run_after(c.value, read_until::<D>(s, c.next, stop))
            } else {
                Err(Fault { location: s.len(), reason: Reason::EOF(stop) })
            },
        }
    }
}

/// A text that was read up to a control point.
pub struct Halt {
    /// The scalars before the control point.
    pub text: Seq<char>,
    /// The control point, unless the input ended.
    pub control: Option<char>,
    /// The index at which the control point stands, with its escape if it
    /// has one; the end of the input if the input ended.
    pub at: int,
    /// The index behind the control point.
    pub next: int,
}

/// The result that puts `c` in front of the text of `r`.
pub open spec fn halt_after(c: char, r: Result<Halt, Fault>) -> Result<Halt, Fault> {
    match r {
        Ok(h) => Ok(Halt { text: seq![c] + h.text, control: h.control, at: h.at, next: h.next }),
        Err(f) => Err(f),
    }
}

/// Reads scalars from index `i` on until a control point is read or the
/// input ends. An escaped control point halts the reading as a bare one
/// does.
///
/// As in [`read_until`], the definition asks that a scalar ends behind its
/// start, which it always does.
pub open spec fn read_until_control<D: AtgDialect>(s: Seq<char>, i: int) -> Result<Halt, Fault>
    decreases s.len() - i,
{
    if !(0 <= i < s.len()) {
        Ok(Halt { text: Seq::empty(), control: None, at: s.len() as int, next: s.len() as int })
    } else {
        match read_char::<D>(s, i) {
            Err(x) => Err(Fault { location: i as nat, reason: Reason::EscapeMalformed(x) }),
            Ok(c) => if D::atg_control_points().control_point(c.value) {
                Ok(Halt { text: Seq::empty(), control: Some(c.value), at: i, next: c.next })
            } else if i < c.next <= s.len() {
                halt_after(c.value, read_until_control::<D>(s, c.next))
            } else {
                Ok(Halt { text: Seq::empty(), control: None, at: i, next: i })
            },
        }
    }
}

/// Reading up to a scalar ends within the input, behind where it started;
/// a fault is placed within the input or at its end.
pub proof fn lemma_read_until_moves<D: AtgDialect>(s: Seq<char>, i: int, stop: char)
    ensures
        match read_until::<D>(s, i, stop) {
            Ok(run) => 0 <= i < run.next <= s.len(),
            Err(f) => f.location <= s.len(),
        },
    decreases s.len() - i,
{
    lemma_read_char_moves::<D>(s, i);
    if 0 <= i < s.len() {
        if let Ok(c) = read_char::<D>(s, i) {
            if c.value != stop {
                lemma_read_until_moves::<D>(s, c.next, stop);
            }
        }
    }
}

/// Reading up to a control point ends within the input, at or behind where
/// it started, and its text holds no control point.
pub proof fn lemma_read_until_control_moves<D: AtgDialect>(s: Seq<char>, i: int)
    requires
        0 <= i <= s.len(),
    ensures
        match read_until_control::<D>(s, i) {
            Ok(h) => {
                &&& i <= h.at <= h.next <= s.len()
                &&& h.control is Some ==> h.at < h.next && read_char::<D>(s, h.at) == Ok::<
                    Scalar,
                    Seq<char>,
                >(Scalar { value: h.control->0, next: h.next })
                &&& h.control is None ==> h.at == s.len()
                &&& forall|k: int|
                    0 <= k < h.text.len() ==> !D::atg_control_points().control_point(
                        #[trigger] h.text[k],
                    )
            },
            Err(f) => i <= f.location < s.len(),
        },
    decreases s.len() - i,
{
    lemma_read_char_moves::<D>(s, i);
    if i < s.len() {
        if let Ok(c) = read_char::<D>(s, i) {
            if !D::atg_control_points().control_point(c.value) {
                lemma_read_until_control_moves::<D>(s, c.next);
                if let Ok(h) = read_until_control::<D>(s, c.next) {
                    let text = seq![c.value] + h.text;
                    assert forall|k: int| 0 <= k < text.len() implies !D::atg_control_points().control_point(
                    #[trigger] text[k]) by {
                        if k > 0 {
                            assert(text[k] == h.text[k - 1]);
                        }
                    }
                }
            }
        }
    }
}

/// Reads one scalar at index `i`, resolving an escape.
pub fn read_char_at<D: AtgDialect>(input: &Vec<char>, i: usize) -> (r: Result<(char, usize), String>)
    requires
        i <= input.len(),
    ensures
        match (read_char::<D>(input@, i as int), r) {
            (Ok(c), Ok((value, next))) => value == c.value && next == c.next,
            (Err(x), Err(text)) => text@ == x,
            _ => false,
        },
        r is Ok ==> i < r->Ok_0.1 <= input.len(),
{
    proof {
        reveal(read_char);
    }
    let points = D::control_points();
    let len = input.len();
    if i >= len {
        return Err(String::new());
    }
    let c = input[i];
    if c != points.escape {
        return Ok((c, i + 1));
    }
    if len - i < 2 {
        let rest = string_of(input, i, len);
        proof {
            assert(input@.subrange(i as int, len as int) =~= input@.skip(i as int));
        }
        return Err(rest);
    }
    let next = input[i + 1];
    if points.is_control_point(&next) {
        return Ok((next, i + 2));
    }
    let digits: usize = if has_hex_run(input, i + 1, 6) {
        6
    } else if has_hex_run(input, i + 1, 4) {
        4
    } else if has_hex_run(input, i + 1, 2) {
        2
    } else {
        0
    };
    if digits == 0 {
        let rest = string_of(input, i, len);
        proof {
            assert(input@.subrange(i as int, len as int) =~= input@.skip(i as int));
        }
        return Err(rest);
    }
    let number = read_hex(input, i + 1, digits);
    match char::from_u32(number) {
        Some(value) => Ok((value, i + 1 + digits)),
        None => Err(string_of(input, i, i + 1 + digits)),
    }
}

/// Reads scalars from index `i` on until `stop` is read.
pub fn read_until_at<D: AtgDialect>(input: &Vec<char>, i: usize, stop: char) -> (r: Result<
    (String, usize),
    Defect,
>)
    requires
        i <= input.len(),
    ensures
        match (read_until::<D>(input@, i as int, stop), r) {
            (Ok(run), Ok((text, next))) => text@ == run.text && next == run.next,
            (Err(f), Err(d)) => d@ == f,
            _ => false,
        },
        r is Ok ==> i < r->Ok_0.1 <= input.len(),
        r is Err ==> r->Err_0.at <= input.len(),
{
    let mut res = String::new();
    let mut at: usize = i;
    loop
        invariant
            i <= at <= input.len(),
            match read_until::<D>(input@, at as int, stop) {
                Ok(run) => read_until::<D>(input@, i as int, stop) == Ok::<Run, Fault>(
                    Run { text: res@ + run.text, next: run.next },
                ),
                Err(f) => read_until::<D>(input@, i as int, stop) == Err::<Run, Fault>(f),
            },
        decreases input.len() - at,
    {
        if at >= input.len() {
            return Err(Defect { at: input.len(), reason: AtgParseErrorReason::EOF(stop) });
        }
        match read_char_at::<D>(input, at) {
            Err(x) => {
                return Err(Defect { at, reason: AtgParseErrorReason::EscapeMalformed(x) });
            },
            Ok((current, next)) => {
                if current == stop {
                    proof {
                        assert(res@ + Seq::<char>::empty() =~= res@);
                    }
                    return Ok((res, next));
                }
                proof {
                    let before = res@;
                    match read_until::<D>(input@, next as int, stop) {
                        Ok(run) => {
                            assert(before + (seq![current] + run.text) =~= before.push(current)
                                + run.text);
                        },
                        Err(_) => {},
                    }
                }
                res.push(current);
                at = next;
            },
        }
    }
}

/// Reads scalars from index `i` on until a control point is read or the
/// input ends.
pub fn read_until_control_at<D: AtgDialect>(input: &Vec<char>, i: usize) -> (r: Result<
    (String, Option<char>, usize, usize),
    Defect,
>)
    requires
        i <= input.len(),
    ensures
        match (read_until_control::<D>(input@, i as int), r) {
            (Ok(h), Ok((text, control, at, next))) => {
                &&& text@ == h.text
                &&& control == h.control
                &&& at == h.at
                &&& next == h.next
            },
            (Err(f), Err(d)) => d@ == f,
            _ => false,
        },
        match r {
            Ok((_, _, at, next)) => i <= at <= next <= input.len(),
            Err(d) => d.at < input.len(),
        },
{
    let mut res = String::new();
    let mut at: usize = i;
    proof {
        lemma_read_until_control_moves::<D>(input@, i as int);
    }
    loop
        invariant
            i <= at <= input.len(),
            match read_until_control::<D>(input@, at as int) {
                Ok(h) => read_until_control::<D>(input@, i as int) == Ok::<Halt, Fault>(
                    Halt { text: res@ + h.text, control: h.control, at: h.at, next: h.next },
                ),
                Err(f) => read_until_control::<D>(input@, i as int) == Err::<Halt, Fault>(f),
            },
        decreases input.len() - at,
    {
        if at >= input.len() {
            proof {
                assert(res@ + Seq::<char>::empty() =~= res@);
            }
            return Ok((res, None, at, at));
        }
        match read_char_at::<D>(input, at) {
            Err(x) => {
                return Err(Defect { at, reason: AtgParseErrorReason::EscapeMalformed(x) });
            },
            Ok((current, next)) => {
                if D::is_control_point(&current) {
                    proof {
                        assert(res@ + Seq::<char>::empty() =~= res@);
                    }
                    return Ok((res, Some(current), at, next));
                }
                proof {
                    let before = res@;
                    match read_until_control::<D>(input@, next as int) {
                        Ok(h) => {
                            assert(before + (seq![current] + h.text) =~= before.push(current)
                                + h.text);
                        },
                        Err(_) => {},
                    }
                }
                res.push(current);
                at = next;
            },
        }
    }
}

/// The rest of `s` from the scalar with index `next` on.
pub fn rest_of<'a>(s: &'a str, chars: &Vec<char>, next: usize) -> (r: &'a str)
    requires
        chars@ == s@,
        next <= chars.len(),
    ensures
        r@ == s@.skip(next as int),
{
    let r = s.substring_char(next, chars.len());
    proof {
        assert(s@.subrange(next as int, chars.len() as int) =~= s@.skip(next as int));
    }
    r
}

/// The error placed by byte offset, for a problem placed by scalar index.
pub fn located(chars: &Vec<char>, d: Defect) -> (e: AtgParseError)
    requires
        d.at <= chars.len(),
        utf8_len(chars@) <= usize::MAX,
    ensures
        e@ == d@.in_bytes(chars@),
{
    AtgParseError::new(offset_of(chars, d.at), d.reason)
}

/// Reads the first scalar of `s`, resolving an escape.
///
/// Gives the scalar, the rest of the input and the number of bytes read; or
/// the text that should have been an escape and is none.
pub fn escape_one_if_required<D: AtgDialect>(s: &str) -> (r: Result<(char, &str, usize), String>)
    ensures
        match (read_char::<D>(s@, 0), r) {
            (Ok(c), Ok((value, rest, offset))) => {
                &&& value == c.value
                &&& rest@ == s@.skip(c.next)
                &&& offset == byte_offset(s@, c.next)
            },
            (Err(x), Err(text)) => text@ == x,
            _ => false,
        },
{
    let chars = chars_of(s);
    match read_char_at::<D>(&chars, 0) {
        Ok((value, next)) => Ok((value, rest_of(s, &chars, next), offset_of(&chars, next))),
        Err(text) => Err(text),
    }
}

/// Reads scalars, resolving escapes, until `c` is read.
///
/// Gives what was read before `c`, the rest of the input behind `c` and the
/// number of bytes read. The end of the input is an error.
pub fn escape_until_next<D: AtgDialect>(c: char, s: &str) -> (r: Result<
    (String, &str, usize),
    AtgParseError,
>)
    ensures
        match (read_until::<D>(s@, 0, c), r) {
            (Ok(run), Ok((text, rest, offset))) => {
                &&& text@ == run.text
                &&& rest@ == s@.skip(run.next)
                &&& offset == byte_offset(s@, run.next)
            },
            (Err(f), Err(e)) => e@ == f.in_bytes(s@),
            _ => false,
        },
{
    let chars = chars_of(s);
    match read_until_at::<D>(&chars, 0, c) {
        Ok((text, next)) => Ok((text, rest_of(s, &chars, next), offset_of(&chars, next))),
        Err(d) => Err(located(&chars, d)),
    }
}

/// Reads scalars, resolving escapes, until a control point is read or the
/// input ends.
///
/// Gives what was read before the control point, the control point if there
/// is one, the rest of the input from the control point on, and the number
/// of bytes read, those of the control point included.
pub fn escape_until_control_point<D: AtgDialect>(s: &str) -> (r: Result<
    (String, Option<char>, &str, usize),
    AtgParseError,
>)
    ensures
        match (read_until_control::<D>(s@, 0), r) {
            (Ok(h), Ok((text, control, rest, offset))) => {
                &&& text@ == h.text
                &&& control == h.control
                &&& rest@ == s@.skip(h.at)
                &&& offset == byte_offset(s@, h.next)
            },
            (Err(f), Err(e)) => e@ == f.in_bytes(s@),
            _ => false,
        },
{
    let chars = chars_of(s);
    match read_until_control_at::<D>(&chars, 0) {
        Ok((text, control, at, next)) => Ok(
            (text, control, rest_of(s, &chars, at), offset_of(&chars, next)),
        ),
        Err(d) => Err(located(&chars, d)),
    }
}

} // verus!
