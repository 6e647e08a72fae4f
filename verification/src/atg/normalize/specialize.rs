//! The normal forms of words, as a language defines them, and the template
//! in which a human annotates them.

use vstd::prelude::*;
use crate::anchor::Anchor;
use crate::atg::normalize::Word;
use crate::atg::text::{text_of, PartView};
use crate::numerals::{decimal, push_decimal};

verus! {

/// The normal form of a word.
#[derive(Debug, PartialEq, Eq)]
pub struct WordNormalForm {
    /// The word as it was transcribed.
    pub annotated_form: Word,
    /// The form in which the word is shown without annotations.
    pub display_form: String,
    /// The form by which the word is compared with others, where that is
    /// not the display form.
    pub compare_form: Option<String>,
}

/// The model of a [`WordNormalForm`].
pub struct NormalForm {
    pub annotated: Seq<PartView>,
    pub display: Seq<char>,
    pub compare: Option<Seq<char>>,
}

impl View for WordNormalForm {
    type V = NormalForm;

    open spec fn view(&self) -> NormalForm {
        NormalForm {
            annotated: self.annotated_form@,
            display: self.display_form@,
            compare: text_of(self.compare_form),
        }
    }
}

impl NormalForm {
    /// The section of the template in which the word is annotated. `block`
    /// and `index` count from one.
    pub open spec fn lex_entry(self, block: nat, index: nat) -> Seq<char> {
        seq!['['] + decimal(block) + ".word"@ + decimal(index) + "]\n"@ + "display_form = \""@
            + self.display + "\"\n"@ + match self.compare {
            Some(c) => "compare_form = \""@ + c + "\"\n"@,
            None => Seq::empty(),
        } + "lex = \"--TODO--\"\n"@ + "morph = \"--TODO--\"\n"@
    }
}

impl WordNormalForm {
    /// The normal form of `annotated_form`.
    pub fn new(annotated_form: Word, display_form: String, compare_form: Option<String>) -> (r:
        Self)
        ensures
            r.annotated_form == annotated_form,
            r.display_form == display_form,
            r.compare_form == compare_form,
    {
        Self { annotated_form, display_form, compare_form }
    }

    /// The form in which the word is shown.
    pub fn display_form(&self) -> (r: &str)
        ensures
            r@ == self@.display,
    {
        self.display_form.as_str()
    }

    /// The section of the template in which the word is annotated.
    /// `as_block_nr` and `word_idx` count from one.
    pub fn render_for_lex_file(&self, as_block_nr: usize, word_idx: usize) -> (r: String)
        ensures
            r@ == self@.lex_entry(as_block_nr as nat, word_idx as nat),
    {
        let mut res = String::new();
        res.push('[');
        push_decimal(&mut res, as_block_nr);
        res.append(".word");
        push_decimal(&mut res, word_idx);
        res.append("]\n");
        res.append("display_form = \"");
        res.append(self.display_form.as_str());
        res.append("\"\n");
        proof {
            assert(res@ =~= seq!['['] + decimal(as_block_nr as nat) + ".word"@ + decimal(
                word_idx as nat,
            ) + "]\n"@ + "display_form = \""@ + self@.display + "\"\n"@);
        }
        let ghost head = res@;
        match &self.compare_form {
            Some(form) => {
                res.append("compare_form = \"");
                res.append(form.as_str());
                res.append("\"\n");
                proof {
                    assert(res@ =~= head + ("compare_form = \""@ + form@ + "\"\n"@));
                }
            },
            None => {
                proof {
                    assert(res@ =~= head + Seq::<char>::empty());
                }
            },
        }
        res.append("lex = \"--TODO--\"\n");
        res.append("morph = \"--TODO--\"\n");
        res
    }
}

/// The models of a sequence of normal forms.
pub open spec fn forms_view(v: Seq<WordNormalForm>) -> Seq<NormalForm> {
    Seq::new(v.len(), |i: int| v[i]@)
}

/// A text whose words were normalised as their language asks.
#[derive(Debug, PartialEq, Eq)]
pub struct NonAgnosticAnchoredText {
    pub text: Vec<WordNormalForm>,
    pub anchor_positions: Vec<(Anchor, usize)>,
}

/// The display forms of the words from index `from` up to index `to`, each
/// followed by a space.
pub open spec fn shown_words(words: Seq<NormalForm>, from: int, to: int) -> Seq<char>
    decreases to - from,
{
    if to <= from || to > words.len() || from < 0 {
        Seq::empty()
    } else {
        shown_words(words, from, to - 1) + words[to - 1].display + seq![' ']
    }
}

/// The sections of the words from index `from` up to index `to`, each
/// followed by an empty line.
pub open spec fn lex_entries(words: Seq<NormalForm>, from: int, to: int, block: nat) -> Seq<char>
    decreases to - from,
{
    if to <= from || to > words.len() || from < 0 {
        Seq::empty()
    } else {
        lex_entries(words, from, to - 1, block) + words[to - 1].lex_entry(block, to as nat)
            + seq!['\n']
    }
}

/// The run of words from index `from` up to index `to`: a comment line that
/// shows them, then their sections.
pub open spec fn lex_run(words: Seq<NormalForm>, from: int, to: int, block: nat) -> Seq<char> {
    "# "@ + shown_words(words, from, to) + seq!['\n'] + lex_entries(words, from, to, block)
}

/// The number of words that are written when the first `k` anchors are:
/// the largest place among them.
pub open spec fn lex_cursor(anchors: Seq<(Anchor, usize)>, k: int) -> int
    decreases k,
{
    if k <= 0 || k > anchors.len() {
        0
    } else {
        let before = lex_cursor(anchors, k - 1);
        if anchors[k - 1].1 > before {
            anchors[k - 1].1 as int
        } else {
            before
        }
    }
}

/// The template up to the anchor with index `k - 1`: for each anchor the
/// run of words that stand before it and were not written yet, an empty
/// line, and the section of the anchor.
pub open spec fn lex_anchored(
    words: Seq<NormalForm>,
    anchors: Seq<(Anchor, usize)>,
    k: int,
    block: nat,
) -> Seq<char>
    decreases k,
{
    if k <= 0 || k > anchors.len() {
        Seq::empty()
    } else {
        lex_anchored(words, anchors, k - 1, block) + lex_run(
            words,
            lex_cursor(anchors, k - 1),
            lex_cursor(anchors, k),
            block,
        ) + seq!['\n'] + "[anchor."@ + anchors[k - 1].0.text() + "]\n"@
    }
}

/// The template of a text: the anchors with the words before them, then
/// the run of the words behind the last anchor.
pub open spec fn lex_text(words: Seq<NormalForm>, anchors: Seq<(Anchor, usize)>, block: nat) -> Seq<
    char,
> {
    lex_anchored(words, anchors, anchors.len() as int, block) + lex_run(
        words,
        lex_cursor(anchors, anchors.len() as int),
        words.len() as int,
        block,
    )
}

impl NonAgnosticAnchoredText {
    /// The words of the text.
    pub open spec fn words(&self) -> Seq<NormalForm> {
        forms_view(self.text@)
    }

    /// Every anchor stands at a place among the words.
    pub open spec fn well_formed(&self) -> bool {
        forall|i: int|
            0 <= i < self.anchor_positions.len() ==> (#[trigger] self.anchor_positions[i]).1
                <= self.text.len()
    }

    /// Whether every anchor stands at a place among the words.
    pub fn is_well_formed(&self) -> (b: bool)
        ensures
            b == self.well_formed(),
    {
        let mut i: usize = 0;
        while i < self.anchor_positions.len()
            invariant
                i <= self.anchor_positions.len(),
                forall|k: int|
                    0 <= k < i ==> (#[trigger] self.anchor_positions[k]).1 <= self.text.len(),
            decreases self.anchor_positions.len() - i,
        {
            if self.anchor_positions[i].1 > self.text.len() {
                return false;
            }
            i += 1;
        }
        true
    }

    /// A text of the given words and anchors.
    pub fn new(text: Vec<WordNormalForm>, anchor_positions: Vec<(Anchor, usize)>) -> (r: Self)
        ensures
            r.text == text,
            r.anchor_positions == anchor_positions,
    {
        Self { text, anchor_positions }
    }

    /// Appends the run of the words from `from` up to `to`.
    fn push_run(&self, res: &mut String, from: usize, to: usize, as_block_nr: usize)
        requires
            from <= to <= self.text.len(),
        ensures
            final(res)@ == old(res)@ + lex_run(self.words(), from as int, to as int, as_block_nr as nat),
    {
        let ghost words = self.words();
        let ghost block = as_block_nr as nat;
        let mut line = "# ".to_owned();
        let mut entries = String::new();
        let mut i: usize = from;
        while i < to
            invariant
                from <= i <= to <= self.text.len(),
                words == self.words(),
                line@ == "# "@ + shown_words(words, from as int, i as int),
                entries@ == lex_entries(words, from as int, i as int, block),
                block == as_block_nr as nat,
            decreases to - i,
        {
            let word = &self.text[i];
            proof {
                assert(words[i as int] == word@);
            }
            line.append(word.display_form());
            line.push(' ');
            let entry = word.render_for_lex_file(as_block_nr, i + 1);
            entries.append(entry.as_str());
            entries.push('\n');
            i += 1;
            proof {
                assert(line@ =~= "# "@ + shown_words(words, from as int, i as int));
                assert(entries@ =~= lex_entries(words, from as int, i as int, block));
            }
        }
        line.push('\n');
        res.append(line.as_str());
        res.append(entries.as_str());
        proof {
            assert(res@ =~= old(res)@ + lex_run(words, from as int, to as int, block));
        }
    }

    /// The template in which a human annotates the words of the text.
    /// `as_block_nr` counts from one.
    pub fn render_for_lex_file(&self, as_block_nr: usize) -> (r: String)
        requires
            self.well_formed(),
        ensures
            r@ == lex_text(self.words(), self.anchor_positions@, as_block_nr as nat),
    {
        let ghost words = self.words();
        let ghost anchors = self.anchor_positions@;
        let ghost block = as_block_nr as nat;
        let mut res = String::new();
        let mut word_idx: usize = 0;
        let mut k: usize = 0;
        while k < self.anchor_positions.len()
            invariant
                k <= self.anchor_positions.len(),
                self.well_formed(),
                words == self.words(),
                anchors == self.anchor_positions@,
                block == as_block_nr as nat,
                word_idx == lex_cursor(anchors, k as int),
                word_idx <= self.text.len(),
                res@ == lex_anchored(words, anchors, k as int, block),
            decreases self.anchor_positions.len() - k,
        {
            let (anchor, anchor_idx) = self.anchor_positions[k];
            let to = if anchor_idx > word_idx {
                anchor_idx
            } else {
                word_idx
            };
            let ghost before = res@;
            self.push_run(&mut res, word_idx, to, as_block_nr);
            res.push('\n');
            res.append("[anchor.");
            let literal = anchor.to_string();
            res.append(literal.as_str());
            res.append("]\n");
            proof {
                assert(to == lex_cursor(anchors, k + 1));
                assert(res@ =~= before + lex_run(words, word_idx as int, to as int, block)
                    + seq!['\n'] + "[anchor."@ + anchor.text() + "]\n"@);
            }
            word_idx = to;
            k += 1;
        }
        self.push_run(&mut res, word_idx, self.text.len(), as_block_nr);
        res
    }
}

} // verus!
