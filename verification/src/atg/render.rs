//! The renderer: from the parts of a text to its canonical string.
//!
//! The canonical string holds no comment and no scalar without meaning.
//! Native runs are written as they are.

use vstd::prelude::*;
use crate::atg::AtgDialect;
use crate::atg::text::{
    Correction, FormatBreak, Illegible, Lacuna, Part, PartView, Passage, Present, Text, Uncertain,
};
use crate::numerals::{decimal, push_decimal};

verus! {

/// A parameter with the given body.
pub open spec fn parameter<D: AtgDialect>(body: Seq<char>) -> Seq<char> {
    seq![D::atg_control_points().start_param] + body + seq![D::atg_control_points().stop_param]
}

/// An uncertain passage behind its control point: its length and, where it
/// has one, its proposal.
pub open spec fn rendered_passage<D: AtgDialect>(control: char, u: Passage) -> Seq<char> {
    seq![control] + parameter::<D>(decimal(u.len as nat)) + match u.proposal {
        Some(p) => parameter::<D>(p),
        None => Seq::empty(),
    }
}

impl FormatBreak {
    /// The name of the break, as its parameter holds it.
    pub open spec fn name(self) -> Seq<char> {
        match self {
            FormatBreak::Line => "line"@,
            FormatBreak::Column => "column"@,
            FormatBreak::Paragraph => "paragraph"@,
            FormatBreak::Folio => "folio"@,
        }
    }
}

/// A version of a correction as it stands in its parameter.
pub open spec fn rendered_present<D: AtgDialect>(p: PartView) -> Seq<char> {
    match p {
        PartView::Native(s) => s,
        PartView::Illegible(u) => rendered_passage::<D>(D::atg_control_points().illegible, u),
        _ => Seq::empty(),
    }
}

/// The versions of a correction, each as one parameter.
pub open spec fn rendered_versions<D: AtgDialect>(versions: Seq<PartView>) -> Seq<char>
    decreases versions.len(),
{
    if versions.len() == 0 {
        Seq::empty()
    } else {
        rendered_versions::<D>(versions.drop_last()) + parameter::<D>(
            rendered_present::<D>(versions.last()),
        )
    }
}

/// The canonical string of one part.
pub open spec fn rendered_part<D: AtgDialect>(p: PartView) -> Seq<char> {
    let points = D::atg_control_points();
    match p {
        PartView::Native(s) => s,
        PartView::Illegible(u) => rendered_passage::<D>(points.illegible, u),
        PartView::Lacuna(u) => rendered_passage::<D>(points.lacuna, u),
        PartView::Correction(versions) => seq![points.correction] + rendered_versions::<D>(
            versions,
        ),
        PartView::FormatBreak(b) => seq![points.format_break] + parameter::<D>(b.name()),
        PartView::Anchor(a) => seq![points.anchor] + parameter::<D>(a.text()),
    }
}

/// The canonical string of a text: those of its parts, one after the other.
pub open spec fn rendered_text<D: AtgDialect>(parts: Seq<PartView>) -> Seq<char>
    decreases parts.len(),
{
    if parts.len() == 0 {
        Seq::empty()
    } else {
        rendered_text::<D>(parts.drop_last()) + rendered_part::<D>(parts.last())
    }
}

/// Appends a parameter with the given body.
fn push_parameter<D: AtgDialect>(res: &mut String, body: &str)
    ensures
        final(res)@ == old(res)@ + parameter::<D>(body@),
{
    let points = D::control_points();
    res.push(points.start_param);
    res.append(body);
    res.push(points.stop_param);
    proof {
        assert(res@ =~= old(res)@ + parameter::<D>(body@));
    }
}

/// The string of an uncertain passage behind its control point.
fn render_passage<D: AtgDialect>(control: char, len: u8, proposal: &Option<String>) -> (r: String)
    ensures
        r@ == rendered_passage::<D>(
            control,
            Passage { len, proposal: crate::atg::text::text_of(*proposal) },
        ),
{
    let mut res = String::new();
    res.push(control);
    let mut digits = String::new();
    push_decimal(&mut digits, len as usize);
    proof {
        assert(digits@ =~= decimal(len as nat));
    }
    push_parameter::<D>(&mut res, digits.as_str());
    match proposal {
        None => {
            proof {
                assert(res@ =~= seq![control] + parameter::<D>(decimal(len as nat))
                    + Seq::<char>::empty());
            }
        },
        Some(p) => {
            push_parameter::<D>(&mut res, p.as_str());
            proof {
                assert(res@ =~= seq![control] + parameter::<D>(decimal(len as nat))
                    + parameter::<D>(p@));
            }
        },
    }
    res
}

impl Uncertain<Illegible> {
    /// The canonical string of the illegible passage.
    pub fn render<D: AtgDialect>(&self) -> (r: String)
        ensures
            r@ == rendered_passage::<D>(D::atg_control_points().illegible, self@),
    {
        render_passage::<D>(D::control_points().illegible, self.len, &self.proposal)
    }
}

impl Uncertain<Lacuna> {
    /// The canonical string of the lacuna.
    pub fn render<D: AtgDialect>(&self) -> (r: String)
        ensures
            r@ == rendered_passage::<D>(D::atg_control_points().lacuna, self@),
    {
        render_passage::<D>(D::control_points().lacuna, self.len, &self.proposal)
    }
}

impl Present {
    /// The version as it stands in the parameter of a correction.
    pub fn render<D: AtgDialect>(&self) -> (r: String)
        ensures
            r@ == rendered_present::<D>(self@),
    {
        match self {
            Present::Native(x) => x.clone(),
            Present::Illegible(x) => x.render::<D>(),
        }
    }
}

impl Correction {
    /// The canonical string of the correction.
    pub fn render<D: AtgDialect>(&self) -> (r: String)
        ensures
            r@ == seq![D::atg_control_points().correction] + rendered_versions::<D>(self@),
    {
        let mut res = String::new();
        res.push(D::control_points().correction);
        let mut i: usize = 0;
        proof {
            assert(res@ =~= seq![D::atg_control_points().correction] + rendered_versions::<D>(
                self@.take(0),
            ));
        }
        while i < self.versions.len()
            invariant
                i <= self.versions.len(),
                res@ == seq![D::atg_control_points().correction] + rendered_versions::<D>(
                    self@.take(i as int),
                ),
            decreases self.versions.len() - i,
        {
            let version = self.versions[i].render::<D>();
            push_parameter::<D>(&mut res, version.as_str());
            proof {
                assert(self@.take(i + 1).drop_last() =~= self@.take(i as int));
                assert(self@.take(i + 1).last() == self.versions@[i as int]@);
                assert(res@ =~= seq![D::atg_control_points().correction] + rendered_versions::<D>(
                    self@.take(i + 1),
                ));
            }
            i += 1;
        }
        proof {
            assert(self@.take(self.versions.len() as int) =~= self@);
        }
        res
    }
}

impl FormatBreak {
    /// The canonical string of the break.
    pub fn render<D: AtgDialect>(&self) -> (r: String)
        ensures
            r@ == seq![D::atg_control_points().format_break] + parameter::<D>(self.name()),
    {
        let mut res = String::new();
        res.push(D::control_points().format_break);
        match self {
            FormatBreak::Line => push_parameter::<D>(&mut res, "line"),
            FormatBreak::Column => push_parameter::<D>(&mut res, "column"),
            FormatBreak::Paragraph => push_parameter::<D>(&mut res, "paragraph"),
            FormatBreak::Folio => push_parameter::<D>(&mut res, "folio"),
        }
        res
    }
}

impl Part {
    /// The canonical string of the part.
    pub fn render<D: AtgDialect>(&self) -> (r: String)
        ensures
            r@ == rendered_part::<D>(self@),
    {
        match self {
            Part::Native(x) => x.clone(),
            Part::Illegible(x) => x.render::<D>(),
            Part::Lacuna(x) => x.render::<D>(),
            Part::Correction(x) => x.render::<D>(),
            Part::FormatBreak(x) => x.render::<D>(),
            Part::Anchor(x) => {
                let mut res = String::new();
                res.push(D::control_points().anchor);
                let literal = x.to_string();
                push_parameter::<D>(&mut res, literal.as_str());
                res
            },
        }
    }
}

impl Text {
    /// The canonical string of the text.
    pub fn render<D: AtgDialect>(&self) -> (r: String)
        ensures
            r@ == rendered_text::<D>(self@),
    {
        let mut res = String::new();
        let mut i: usize = 0;
        while i < self.parts.len()
            invariant
                i <= self.parts.len(),
                res@ == rendered_text::<D>(self@.take(i as int)),
            decreases self.parts.len() - i,
        {
            let part = self.parts[i].render::<D>();
            res.append(part.as_str());
            proof {
                assert(self@.take(i + 1).drop_last() =~= self@.take(i as int));
                assert(self@.take(i + 1).last() == self.parts@[i as int]@);
            }
            i += 1;
        }
        proof {
            assert(self@.take(self.parts.len() as int) =~= self@);
        }
        res
    }
}

} // verus!
