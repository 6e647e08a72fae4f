//! Tokenising: from a text without corrections to its words.
//!
//! Words are divided by the word divisor of the dialect and by its
//! punctuation, each punctuation scalar being a word of its own. A word may
//! reach over several parts of the text. An anchor is taken out of the text
//! and remembered with the number of words that stand before it.

use vstd::prelude::*;
use std::marker::PhantomData;
use crate::anchor::Anchor;
use crate::atg::{punctuation_point, well_formed_dialect, AtgDialect};
use crate::atg::normalize::{
    word_surface, words_view, UniqueSurfacePart, Word,
};
use crate::atg::normalize::flatten::{UniquePart, UniqueText};
use crate::atg::text::{PartView, Passage, Uncertain};
use crate::scalars::{chars_of, contains_char, string_of};

verus! {

/// Whether `c` divides words: the word divisor does, and so does
/// punctuation.
pub open spec fn divides<D: AtgDialect>(c: char) -> bool {
    c == D::WORD_DIVISOR || punctuation_point::<D>(c)
}

/// Where the run of scalars that do not divide, from index `i` on, ends.
pub open spec fn run_end<D: AtgDialect>(s: Seq<char>, i: int) -> int
    decreases s.len() - i,
{
    if 0 <= i < s.len() && !divides::<D>(s[i]) {
        run_end::<D>(s, i + 1)
    } else {
        i
    }
}

/// One step of the scan of a native stream.
pub struct Event {
    /// The scalars of the word, none where the step met a divisor.
    pub text: Seq<char>,
    /// Whether the word is known to end here.
    pub closed: bool,
    /// Where the scan goes on.
    pub next: int,
}

/// The step that the scan of `s` takes at index `i`: a divisor gives an
/// empty word; a punctuation scalar is a word of its own; any other scalar
/// starts a word that runs up to the next divisor, which is taken with it,
/// up to the next punctuation scalar, which is left, or up to the end.
pub open spec fn event_at<D: AtgDialect>(s: Seq<char>, i: int) -> Option<Event> {
    if !(0 <= i < s.len()) {
        None
    } else if s[i] == D::WORD_DIVISOR {
        Some(Event { text: Seq::empty(), closed: true, next: i + 1 })
    } else if punctuation_point::<D>(s[i]) {
        Some(Event { text: seq![s[i]], closed: true, next: i + 1 })
    } else {
        let e = run_end::<D>(s, i);
        if e >= s.len() {
            Some(Event { text: s.subrange(i, e), closed: false, next: e })
        } else if s[e] == D::WORD_DIVISOR {
            Some(Event { text: s.subrange(i, e), closed: true, next: e + 1 })
        } else {
            Some(Event { text: s.subrange(i, e), closed: true, next: e })
        }
    }
}

/// The words that the scan of `s` finds from index `i` on.
///
/// Every step of the scan moves on and stays within the stream (see
/// [`lemma_event`]); the definition asks for it so that it is seen to end.
pub open spec fn runs_from<D: AtgDialect>(s: Seq<char>, i: int) -> Seq<Seq<char>>
    decreases s.len() - i,
{
    match event_at::<D>(s, i) {
        Some(e) => if i < e.next <= s.len() {
            (if e.text.len() > 0 {
                seq![e.text]
            } else {
                Seq::empty()
            }) + runs_from::<D>(s, e.next)
        } else {
            Seq::empty()
        },
        None => Seq::empty(),
    }
}

/// The words of a native stream.
pub open spec fn runs<D: AtgDialect>(s: Seq<char>) -> Seq<Seq<char>> {
    runs_from::<D>(s, 0)
}

/// A run ends within the stream, behind its start where that does not
/// divide, and holds no scalar that divides.
pub proof fn lemma_run_end<D: AtgDialect>(s: Seq<char>, i: int)
    requires
        0 <= i <= s.len(),
    ensures
        i <= run_end::<D>(s, i) <= s.len(),
        i < s.len() && !divides::<D>(s[i]) ==> i < run_end::<D>(s, i),
        forall|j: int| i <= j < run_end::<D>(s, i) ==> !divides::<D>(#[trigger] s[j]),
        run_end::<D>(s, i) < s.len() ==> divides::<D>(s[run_end::<D>(s, i)]),
    decreases s.len() - i,
{
    if i < s.len() && !divides::<D>(s[i]) {
        lemma_run_end::<D>(s, i + 1);
    }
}

/// Every step of the scan moves on, stays within the stream, and a word
/// that has scalars has none that divides, unless it is one punctuation
/// scalar.
pub proof fn lemma_event<D: AtgDialect>(s: Seq<char>, i: int)
    requires
        0 <= i < s.len(),
    ensures
        event_at::<D>(s, i) is Some,
        i < event_at::<D>(s, i)->0.next <= s.len(),
{
    lemma_run_end::<D>(s, i);
}

/// The words that the scan finds are never empty.
pub proof fn lemma_runs_nonempty<D: AtgDialect>(s: Seq<char>, i: int)
    requires
        0 <= i <= s.len(),
    ensures
        forall|k: int| 0 <= k < runs_from::<D>(s, i).len() ==> (#[trigger] runs_from::<D>(s, i)[k]).len() > 0,
    decreases s.len() - i,
{
    if i < s.len() {
        lemma_event::<D>(s, i);
        lemma_run_end::<D>(s, i);
        let e = event_at::<D>(s, i)->0;
        lemma_runs_nonempty::<D>(s, e.next);
        let head = if e.text.len() > 0 {
            seq![e.text]
        } else {
            Seq::empty()
        };
        let tail = runs_from::<D>(s, e.next);
        assert(runs_from::<D>(s, i) == head + tail);
        assert forall|k: int| 0 <= k < (head + tail).len() implies (#[trigger] (head + tail)[k]).len()
            > 0 by {
            if k >= head.len() {
                assert((head + tail)[k] == tail[k - head.len()]);
            }
        }
    }
}

/// The punctuation scalar at index `k` is one of the words that the scan
/// finds from any index up to `k` on.
pub proof fn lemma_punctuation_is_a_run<D: AtgDialect>(s: Seq<char>, i: int, k: int)
    requires
        0 <= i <= k < s.len(),
        punctuation_point::<D>(s[k]),
        s[k] != D::WORD_DIVISOR,
    ensures
        runs_from::<D>(s, i).contains(seq![s[k]]),
    decreases s.len() - i,
{
    lemma_event::<D>(s, i);
    lemma_run_end::<D>(s, i);
    let e = event_at::<D>(s, i)->0;
    let head = if e.text.len() > 0 {
        seq![e.text]
    } else {
        Seq::empty()
    };
    let tail = runs_from::<D>(s, e.next);
    assert(runs_from::<D>(s, i) == head + tail);
    if i == k {
        assert(head[0] == seq![s[k]]);
        assert((head + tail)[0] == seq![s[k]]);
    } else {
        assert(e.next <= k) by {
            if !divides::<D>(s[i]) {
                let end = run_end::<D>(s, i);
                if end > k {
                    assert(!divides::<D>(s[k]));
                }
            }
        }
        lemma_punctuation_is_a_run::<D>(s, e.next, k);
        let j = choose|j: int| 0 <= j < tail.len() && tail[j] == seq![s[k]];
        assert((head + tail)[head.len() + j] == seq![s[k]]);
    }
}

/// The words of one part, with what is known of its two ends.
pub struct Chain {
    /// Whether a word ends where the part starts.
    pub left: bool,
    /// The words of the part.
    pub words: Seq<Seq<PartView>>,
    /// Whether a word ends where the part ends.
    pub right: bool,
}

/// The stream that is split for a part: a native run itself, and of an
/// uncertain passage its proposal.
pub open spec fn stream_of(p: PartView) -> Option<Seq<char>> {
    match p {
        PartView::Native(s) => Some(s),
        PartView::Illegible(u) => u.proposal,
        PartView::Lacuna(u) => u.proposal,
        _ => None,
    }
}

/// The part that carries one word of the stream of `p`: native for a native
/// part; for an uncertain passage a passage of the same kind, with the word
/// as its proposal and the number of its scalars as its length.
pub open spec fn carried(p: PartView, run: Seq<char>) -> PartView {
    match p {
        PartView::Illegible(_) => PartView::Illegible(
            Passage { len: run.len() as u8, proposal: Some(run) },
        ),
        PartView::Lacuna(_) => PartView::Lacuna(
            Passage { len: run.len() as u8, proposal: Some(run) },
        ),
        _ => PartView::Native(run),
    }
}

/// The words of a surface part. A part with a stream has the words of the
/// stream, one part each; it is divided at an end where the stream has a
/// scalar that divides. An uncertain passage without a proposal is one word,
/// divided at both ends.
pub open spec fn split_part<D: AtgDialect>(p: PartView) -> Chain {
    match stream_of(p) {
        Some(s) => Chain {
            left: s.len() > 0 && divides::<D>(s[0]),
            words: Seq::new(runs::<D>(s).len(), |i: int| seq![carried(p, runs::<D>(s)[i])]),
            right: s.len() > 0 && divides::<D>(s.last()),
        },
        None => Chain { left: true, words: seq![seq![p]], right: true },
    }
}

/// Whether the length of each word of the part can be kept: a word of a
/// proposal has at most 255 scalars.
pub open spec fn splittable<D: AtgDialect>(p: PartView) -> bool {
    p is Native || match stream_of(p) {
        Some(s) => forall|i: int|
            0 <= i < runs::<D>(s).len() ==> (#[trigger] runs::<D>(s)[i]).len() <= u8::MAX,
        None => true,
    }
}

/// The words of a text, and where its anchors stand.
pub struct Tokens {
    /// The words, in order.
    pub words: Seq<Seq<PartView>>,
    /// The anchors, in order, each with the number of words before it.
    pub anchors: Seq<(Anchor, nat)>,
    /// Whether the last word may go on in the next part.
    pub open: bool,
}

/// The words and anchors of a text without corrections.
///
/// An anchor is recorded with the number of words so far, and ends a word. A
/// format break changes nothing. The words of a surface part are added; the
/// first of them goes on the last word so far where neither that word has
/// ended nor the part starts divided.
pub open spec fn tokens<D: AtgDialect>(parts: Seq<PartView>) -> Tokens
    decreases parts.len(),
{
    if parts.len() == 0 {
        Tokens { words: Seq::empty(), anchors: Seq::empty(), open: false }
    } else {
        let t = tokens::<D>(parts.drop_last());
        let p = parts.last();
        match p {
            PartView::Anchor(a) => Tokens {
                words: t.words,
                anchors: t.anchors.push((a, t.words.len())),
                open: false,
            },
            PartView::FormatBreak(_) => t,
            PartView::Correction(_) => t,
            _ => {
                let c = split_part::<D>(p);
                if c.words.len() == 0 {
                    Tokens {
                        words: t.words,
                        anchors: t.anchors,
                        open: t.open && !c.left && !c.right,
                    }
                } else if !t.open || c.left || t.words.len() == 0 {
                    Tokens { words: t.words + c.words, anchors: t.anchors, open: !c.right }
                } else {
                    Tokens {
                        words: t.words.drop_last().push(t.words.last() + c.words[0])
                            + c.words.skip(1),
                        anchors: t.anchors,
                        open: !c.right,
                    }
                }
            },
        }
    }
}

/// No word of a part is empty.
pub proof fn lemma_split_part_words<D: AtgDialect>(p: PartView)
    ensures
        forall|k: int|
            0 <= k < split_part::<D>(p).words.len() ==> (#[trigger] split_part::<D>(
                p,
            ).words[k]).len() > 0,
{
}

/// In the words of a text no word is empty; the anchors are recorded with
/// numbers that never fall and never exceed the number of words.
pub proof fn lemma_tokens<D: AtgDialect>(parts: Seq<PartView>)
    ensures
        forall|k: int|
            0 <= k < tokens::<D>(parts).words.len() ==> (#[trigger] tokens::<D>(
                parts,
            ).words[k]).len() > 0,
        forall|i: int|
            0 <= i < tokens::<D>(parts).anchors.len() ==> (#[trigger] tokens::<D>(
                parts,
            ).anchors[i]).1 <= tokens::<D>(parts).words.len(),
        forall|i: int, j: int|
            0 <= i <= j < tokens::<D>(parts).anchors.len() ==> (#[trigger] tokens::<D>(
                parts,
            ).anchors[i]).1 <= (#[trigger] tokens::<D>(parts).anchors[j]).1,
    decreases parts.len(),
{
    if parts.len() > 0 {
        let before = parts.drop_last();
        lemma_tokens::<D>(before);
        lemma_split_part_words::<D>(parts.last());
        let t = tokens::<D>(before);
        let r = tokens::<D>(parts);
        assert(t.words.len() <= r.words.len());
        assert forall|i: int, j: int| 0 <= i <= j < r.anchors.len() implies (
        #[trigger] r.anchors[i]).1 <= (#[trigger] r.anchors[j]).1 by {
            if j < t.anchors.len() {
                assert(r.anchors[i] == t.anchors[i]);
                assert(r.anchors[j] == t.anchors[j]);
            } else if i < t.anchors.len() {
                assert(r.anchors[i] == t.anchors[i]);
            }
        }
    }
}

/// In a native stream, a punctuation scalar is a word of its own, whatever
/// stands around it.
pub proof fn lemma_punctuation_splits<D: AtgDialect>(s: Seq<char>, k: int)
    requires
        well_formed_dialect::<D>(),
        0 <= k < s.len(),
        punctuation_point::<D>(s[k]),
    ensures
        split_part::<D>(PartView::Native(s)).words.contains(seq![PartView::Native(seq![s[k]])]),
        tokens::<D>(seq![PartView::Native(s)]).words.contains(
            seq![PartView::Native(seq![s[k]])],
        ),
{
    lemma_punctuation_is_a_run::<D>(s, 0, k);
    let p = PartView::Native(s);
    let r = runs::<D>(s);
    let j = choose|j: int| 0 <= j < r.len() && r[j] == seq![s[k]];
    let c = split_part::<D>(p);
    assert(c.words[j] == seq![PartView::Native(seq![s[k]])]);
    let parts = seq![p];
    assert(parts.drop_last() =~= Seq::<PartView>::empty());
    assert(tokens::<D>(parts.drop_last()).words =~= Seq::<Seq<PartView>>::empty());
    assert(tokens::<D>(parts).words =~= c.words);
}

/// The scan of a native stream, step by step.
pub struct WordSplitIterator<D: AtgDialect> {
    source: Vec<char>,
    position: usize,
    _dialect: PhantomData<D>,
}

impl<D: AtgDialect> WordSplitIterator<D> {
    #[verifier::type_invariant]
    spec fn well_formed(self) -> bool {
        self.position <= self.source.len()
    }

    /// The stream that is scanned.
    pub closed spec fn stream(&self) -> Seq<char> {
        self.source@
    }

    /// The index at which the scan stands.
    pub closed spec fn position(&self) -> int {
        self.position as int
    }

    /// A scan of `s`, at its start.
    pub fn new(s: &str) -> (r: Self)
        ensures
            r.stream() == s@,
            r.position() == 0,
    {
        Self { source: chars_of(s), position: 0, _dialect: PhantomData }
    }

    /// Whether `c` divides words.
    fn divides(c: char) -> (b: bool)
        ensures
            b == divides::<D>(c),
    {
        c == D::WORD_DIVISOR || contains_char(D::PUNCTUATION, c)
    }

    /// Takes the next step of the scan: the word that it finds, and whether
    /// the word is known to end there.
    pub fn next(&mut self) -> (r: Option<(String, bool)>)
        ensures
            final(self).stream() == old(self).stream(),
            old(self).position() <= final(self).position() <= old(self).stream().len(),
            match (event_at::<D>(old(self).stream(), old(self).position()), r) {
                (Some(e), Some((word, closed))) => {
                    &&& word@ == e.text
                    &&& closed == e.closed
                    &&& final(self).position() == e.next
                },
                (None, None) => final(self).position() == old(self).position(),
                _ => false,
            },
    {
        proof {
            use_type_invariant(&*self);
        }
        let start = self.position;
        if start >= self.source.len() {
            return None;
        }
        let first = self.source[start];
        if first == D::WORD_DIVISOR {
            self.position = start + 1;
            return Some((String::new(), true));
        }
        if contains_char(D::PUNCTUATION, first) {
            self.position = start + 1;
            let word = string_of(&self.source, start, start + 1);
            proof {
                assert(word@ =~= seq![first]);
            }
            return Some((word, true));
        }
        let mut end = start;
        while end < self.source.len() && !Self::divides(self.source[end])
            invariant
                start <= end <= self.source.len(),
                self.source == old(self).source,
                run_end::<D>(self.source@, start as int) == run_end::<D>(
                    self.source@,
                    end as int,
                ),
            decreases self.source.len() - end,
        {
            end += 1;
        }
        let word = string_of(&self.source, start, end);
        if end >= self.source.len() {
            self.position = end;
            Some((word, false))
        } else if self.source[end] == D::WORD_DIVISOR {
            self.position = end + 1;
            Some((word, true))
        } else {
            self.position = end;
            Some((word, true))
        }
    }
}

/// Scans a stream of the natural language for its words.
pub fn split_native_stream<D: AtgDialect>(s: &str) -> (r: WordSplitIterator<D>)
    ensures
        r.stream() == s@,
        r.position() == 0,
{
    WordSplitIterator::<D>::new(s)
}

/// The executable form of a [`Chain`].
#[derive(Debug)]
pub struct BoundedWordChain {
    pub left_boundary_divides: bool,
    pub word_chain: Vec<Word>,
    pub right_boundary_divides: bool,
}

impl View for BoundedWordChain {
    type V = Chain;

    open spec fn view(&self) -> Chain {
        Chain {
            left: self.left_boundary_divides,
            words: words_view(self.word_chain@),
            right: self.right_boundary_divides,
        }
    }
}

/// The strings of a sequence, as sequences of scalars.
pub open spec fn strings_view(v: Seq<String>) -> Seq<Seq<char>> {
    Seq::new(v.len(), |i: int| v[i]@)
}

/// The words of a stream, and whether it is divided at its start and at
/// its end.
fn split_stream<D: AtgDialect>(s: &str) -> (r: (bool, Vec<String>, bool))
    ensures
        r.0 == (s@.len() > 0 && divides::<D>(s@[0])),
        strings_view(r.1@) == runs::<D>(s@),
        r.2 == (s@.len() > 0 && divides::<D>(s@.last())),
{
    let mut scan = split_native_stream::<D>(s);
    let mut words: Vec<String> = Vec::new();
    let left = s.unicode_len() > 0 && WordSplitIterator::<D>::divides(s.get_char(0));
    let mut right = false;
    proof {
        assert(strings_view(words@) =~= Seq::<Seq<char>>::empty());
        assert(Seq::<Seq<char>>::empty() + runs::<D>(s@) =~= runs::<D>(s@));
    }
    loop
        invariant
            scan.stream() == s@,
            0 <= scan.position() <= s@.len(),
            runs::<D>(s@) == strings_view(words@) + runs_from::<D>(s@, scan.position()),
            scan.position() == s@.len() ==> right == (s@.len() > 0 && divides::<D>(s@.last())),
        ensures
            scan.position() == s@.len(),
            runs::<D>(s@) == strings_view(words@) + runs_from::<D>(s@, scan.position()),
            right == (s@.len() > 0 && divides::<D>(s@.last())),
        decreases s@.len() - scan.position(),
    {
        let ghost at = scan.position();
        let ghost before = strings_view(words@);
        proof {
            if at < s@.len() {
                lemma_event::<D>(s@, at);
                lemma_run_end::<D>(s@, at);
            }
        }
        match scan.next() {
            None => {
                break ;
            },
            Some((word, closed)) => {
                let ghost e = event_at::<D>(s@, at)->0;
                right = closed;
                if word.as_str().unicode_len() > 0 {
                    words.push(word);
                    proof {
                        assert(strings_view(words@) =~= before + seq![e.text]);
                    }
                }
                proof {
                    assert(runs::<D>(s@) =~= strings_view(words@) + runs_from::<D>(s@, e.next));
                }
            },
        }
    }
    proof {
        assert(runs_from::<D>(s@, s@.len() as int) =~= Seq::<Seq<char>>::empty());
        assert(strings_view(words@) + Seq::<Seq<char>>::empty() =~= strings_view(words@));
    }
    (left, words, right)
}

/// The word that carries one run of the stream of `template`.
fn carry(template: &UniqueSurfacePart, run: String) -> (w: Word)
    requires
        template@ is Native || run@.len() <= u8::MAX,
    ensures
        w@ == seq![carried(template@, run@)],
{
    let part = match template {
        UniqueSurfacePart::Native(_) => UniqueSurfacePart::Native(run),
        UniqueSurfacePart::Illegible(_) => {
            let len = run.as_str().unicode_len() as u8;
            UniqueSurfacePart::Illegible(Uncertain::new(len, Some(run)))
        },
        UniqueSurfacePart::Lacuna(_) => {
            let len = run.as_str().unicode_len() as u8;
            UniqueSurfacePart::Lacuna(Uncertain::new(len, Some(run)))
        },
    };
    let mut parts: Vec<UniqueSurfacePart> = Vec::new();
    parts.push(part);
    let w = Word { parts };
    proof {
        assert(w@ =~= seq![carried(template@, run@)]);
    }
    w
}

impl UniqueSurfacePart {
    /// The stream that is split for the part.
    fn stream(&self) -> (r: Option<&String>)
        ensures
            match r {
                Some(s) => stream_of(self@) == Some(s@),
                None => stream_of(self@) is None,
            },
    {
        match self {
            UniqueSurfacePart::Native(x) => Some(x),
            UniqueSurfacePart::Illegible(x) => x.proposal.as_ref(),
            UniqueSurfacePart::Lacuna(x) => x.proposal.as_ref(),
        }
    }

    /// Splits one part into the words that it holds.
    pub fn split_words<D: AtgDialect>(self) -> (r: BoundedWordChain)
        requires
            splittable::<D>(self@),
        ensures
            r@ == split_part::<D>(self@),
    {
        let mut res: Vec<Word> = Vec::new();
        match self.stream() {
            None => {
                let mut parts: Vec<UniqueSurfacePart> = Vec::new();
                parts.push(self);
                res.push(Word { parts });
                let r = BoundedWordChain {
                    left_boundary_divides: true,
                    word_chain: res,
                    right_boundary_divides: true,
                };
                proof {
                    assert(r@.words[0] =~= seq![self@]);
                    assert(r@.words =~= seq![seq![self@]]);
                }
                r
            },
            Some(stream) => {
                let (left, words, right) = split_stream::<D>(stream.as_str());
                let ghost all = runs::<D>(stream@);
                let mut i: usize = 0;
                while i < words.len()
                    invariant
                        i <= words.len(),
                        res.len() == i,
                        strings_view(words@) == all,
                        all == runs::<D>(stream@),
                        stream_of(self@) == Some(stream@),
                        splittable::<D>(self@),
                        forall|k: int|
                            0 <= k < i ==> (#[trigger] res@[k])@ == seq![carried(self@, all[k])],
                    decreases words.len() - i,
                {
                    proof {
                        assert(all[i as int] == words@[i as int]@);
                        if !(self@ is Native) {
                            assert(stream_of(self@)->0 == stream@);
                            assert(runs::<D>(stream@)[i as int].len() <= u8::MAX);
                        }
                    }
                    let word = carry(&self, words[i].clone());
                    res.push(word);
                    i += 1;
                }
                let r = BoundedWordChain {
                    left_boundary_divides: left,
                    word_chain: res,
                    right_boundary_divides: right,
                };
                proof {
                    assert(all.len() == words.len());
                    assert(r@.words =~= split_part::<D>(self@).words);
                }
                r
            },
        }
    }
}

/// A text without corrections, cut into words, with its anchors taken out
/// and kept with their place among the words.
#[derive(Debug)]
pub struct AnchoredUniqueText {
    pub text: Vec<Word>,
    pub anchor_positions: Vec<(Anchor, usize)>,
}

/// The anchors with their places, as mathematical pairs.
pub open spec fn anchors_view(v: Seq<(Anchor, usize)>) -> Seq<(Anchor, nat)> {
    Seq::new(v.len(), |i: int| (v[i].0, v[i].1 as nat))
}

impl AnchoredUniqueText {
    /// The words of the text.
    pub open spec fn words(&self) -> Seq<Seq<PartView>> {
        words_view(self.text@)
    }

    /// The anchors of the text, each with the number of words before it.
    pub open spec fn anchors(&self) -> Seq<(Anchor, nat)> {
        anchors_view(self.anchor_positions@)
    }
}

impl UniqueText {
    /// Whether the text can be cut into words: the length of each word of a
    /// proposal can be kept.
    pub open spec fn splittable<D: AtgDialect>(&self) -> bool {
        forall|j: int| 0 <= j < self@.len() ==> splittable::<D>(#[trigger] self@[j])
    }

    /// Cuts the text into words and takes the anchors out.
    pub fn split_words<D: AtgDialect>(self) -> (r: AnchoredUniqueText)
        requires
            self.splittable::<D>(),
        ensures
            r.words() == tokens::<D>(self@).words,
            r.anchors() == tokens::<D>(self@).anchors,
            forall|k: int| 0 <= k < r.text.len() ==> (#[trigger] r.text[k]).parts.len() > 0,
            forall|i: int|
                0 <= i < r.anchor_positions.len() ==> (#[trigger] r.anchor_positions[i]).1
                    <= r.text.len(),
            forall|i: int, j: int|
                0 <= i <= j < r.anchor_positions.len() ==> (#[trigger] r.anchor_positions[i]).1
                    <= (#[trigger] r.anchor_positions[j]).1,
    {
        let mut words: Vec<Word> = Vec::new();
        let mut anchors: Vec<(Anchor, usize)> = Vec::new();
        let mut open = false;
        let mut i: usize = 0;
        proof {
            assert(self@.take(0) =~= Seq::<PartView>::empty());
            assert(words_view(words@) =~= Seq::<Seq<PartView>>::empty());
            assert(anchors_view(anchors@) =~= Seq::<(Anchor, nat)>::empty());
        }
        while i < self.parts.len()
            invariant
                i <= self.parts.len(),
                self.splittable::<D>(),
                words_view(words@) == tokens::<D>(self@.take(i as int)).words,
                anchors_view(anchors@) == tokens::<D>(self@.take(i as int)).anchors,
                open == tokens::<D>(self@.take(i as int)).open,
            decreases self.parts.len() - i,
        {
            let ghost t = tokens::<D>(self@.take(i as int));
            proof {
                assert(self@.take(i + 1).drop_last() =~= self@.take(i as int));
                assert(self@.take(i + 1).last() == self@[i as int]);
                assert(splittable::<D>(self@[i as int]));
            }
            match self.parts[i].clone() {
                UniquePart::Anchor(x) => {
                    anchors.push((x, words.len()));
                    open = false;
                    proof {
                        assert(anchors_view(anchors@) =~= t.anchors.push((x, t.words.len())));
                    }
                },
                UniquePart::FormatBreak(_) => {},
                part => {
                    let surface = part.as_surface_part().unwrap();
                    let mut chain = surface.split_words::<D>();
                    let ghost c = split_part::<D>(self@[i as int]);
                    let ghost before = words@;
                    let ghost added = chain.word_chain@;
                    if chain.word_chain.len() == 0 {
                        open = open && !chain.left_boundary_divides
                            && !chain.right_boundary_divides;
                    } else if !open || chain.left_boundary_divides || words.len() == 0 {
                        words.append(&mut chain.word_chain);
                        open = !chain.right_boundary_divides;
                        proof {
                            assert(words_view(words@) =~= words_view(before) + words_view(added));
                        }
                    } else {
                        let mut first = chain.word_chain.remove(0);
                        let mut last = words.pop().unwrap();
                        let ghost head = last@;
                        let ghost tail = first@;
                        last.parts.append(&mut first.parts);
                        proof {
                            assert(last@ =~= head + tail);
                        }
                        words.push(last);
                        words.append(&mut chain.word_chain);
                        open = !chain.right_boundary_divides;
                        proof {
                            assert(words_view(words@) =~= t.words.drop_last().push(
                                t.words.last() + c.words[0],
                            ) + c.words.skip(1));
                        }
                    }
                },
            }
            i += 1;
        }
        proof {
            assert(self@.take(self.parts.len() as int) =~= self@);
            lemma_tokens::<D>(self@);
        }
        let r = AnchoredUniqueText { text: words, anchor_positions: anchors };
        proof {
            let t = tokens::<D>(self@);
            assert forall|k: int| 0 <= k < r.text.len() implies (#[trigger] r.text[k]).parts.len()
                > 0 by {
                assert(r.words()[k] == r.text[k]@);
                assert(t.words[k].len() > 0);
            }
            assert forall|i: int| 0 <= i < r.anchor_positions.len() implies (
            #[trigger] r.anchor_positions[i]).1 <= r.text.len() by {
                assert(r.anchors()[i].1 == r.anchor_positions[i].1);
                assert(t.anchors[i].1 <= t.words.len());
            }
            assert forall|i: int, j: int| 0 <= i <= j < r.anchor_positions.len() implies (
            #[trigger] r.anchor_positions[i]).1 <= (#[trigger] r.anchor_positions[j]).1 by {
                assert(r.anchors()[i].1 == r.anchor_positions[i].1);
                assert(r.anchors()[j].1 == r.anchor_positions[j].1);
                assert(t.anchors[i].1 <= t.anchors[j].1);
            }
        }
        r
    }
}

/// A text cut into words, each word with its surface form.
#[derive(Debug, PartialEq, Eq)]
pub struct AnchoredNormalisedText {
    pub text: Vec<(Word, String)>,
    pub anchor_positions: Vec<(Anchor, usize)>,
}

impl AnchoredUniqueText {
    /// Supplies every word with its surface form. The anchors stay as they
    /// are.
    pub fn into_anchored_normalised_text<D: AtgDialect>(self) -> (r: AnchoredNormalisedText)
        ensures
            r.anchor_positions == self.anchor_positions,
            r.text.len() == self.text.len(),
            forall|i: int|
                0 <= i < r.text.len() ==> {
                    &&& (#[trigger] r.text[i]).0@ == self.text[i]@
                    &&& r.text[i].1@ == word_surface::<D>(self.text[i]@)
                },
    {
        let mut text: Vec<(Word, String)> = Vec::new();
        let mut i: usize = 0;
        while i < self.text.len()
            invariant
                i <= self.text.len(),
                text.len() == i,
                forall|k: int|
                    0 <= k < i ==> {
                        &&& (#[trigger] text[k]).0@ == self.text[k]@
                        &&& text[k].1@ == word_surface::<D>(self.text[k]@)
                    },
            decreases self.text.len() - i,
        {
            let word = self.text[i].clone();
            text.push(word.supply_uncertain::<D>());
            i += 1;
        }
        AnchoredNormalisedText { text, anchor_positions: self.anchor_positions }
    }
}

impl UniqueSurfacePart {
    /// Whether the part can be split into words: whether no word of a
    /// proposal has more than 255 scalars.
    pub fn is_splittable<D: AtgDialect>(&self) -> (b: bool)
        ensures
            b == splittable::<D>(self@),
    {
        let stream = match self {
            UniqueSurfacePart::Native(_) => {
                return true;
            },
            UniqueSurfacePart::Illegible(x) => x.proposal.as_ref(),
            UniqueSurfacePart::Lacuna(x) => x.proposal.as_ref(),
        };
        let stream = match stream {
            None => {
                return true;
            },
            Some(stream) => stream,
        };
        let (_, words, _) = split_stream::<D>(stream.as_str());
        let ghost all = runs::<D>(stream@);
        let mut i: usize = 0;
        while i < words.len()
            invariant
                i <= words.len(),
                strings_view(words@) == all,
                all == runs::<D>(stream@),
                stream_of(self@) == Some(stream@),
                !(self@ is Native),
                forall|k: int| 0 <= k < i ==> (#[trigger] all[k]).len() <= u8::MAX,
            decreases words.len() - i,
        {
            if words[i].as_str().unicode_len() > 255 {
                proof {
                    assert(all[i as int] == words@[i as int]@);
                    assert(stream_of(self@)->0 == stream@);
                    assert(runs::<D>(stream@)[i as int].len() > u8::MAX);
                }
                return false;
            }
            proof {
                assert(all[i as int] == words@[i as int]@);
            }
            i += 1;
        }
        true
    }
}

impl UniqueText {
    /// Whether the text can be cut into words.
    pub fn is_splittable<D: AtgDialect>(&self) -> (b: bool)
        ensures
            b == self.splittable::<D>(),
    {
        let mut i: usize = 0;
        while i < self.parts.len()
            invariant
                i <= self.parts.len(),
                forall|j: int| 0 <= j < i ==> splittable::<D>(#[trigger] self@[j]),
            decreases self.parts.len() - i,
        {
            let fits = match &self.parts[i] {
                UniquePart::Illegible(x) => UniqueSurfacePart::Illegible(x.clone()).is_splittable::<
                    D,
                >(),
                UniquePart::Lacuna(x) => UniqueSurfacePart::Lacuna(x.clone()).is_splittable::<D>(),
                _ => true,
            };
            if !fits {
                proof {
                    assert(!splittable::<D>(self@[i as int]));
                }
                return false;
            }
            i += 1;
        }
        true
    }
}

/// Whether `r` is the text of the given parts, cut into words, each word
/// with its surface form, and the anchors at their places.
pub open spec fn normalised<D: AtgDialect>(parts: Seq<PartView>, r: AnchoredNormalisedText) -> bool {
    let t = tokens::<D>(parts);
    &&& r.text.len() == t.words.len()
    &&& forall|k: int|
        0 <= k < r.text.len() ==> {
            &&& (#[trigger] r.text[k]).0@ == t.words[k]
            &&& r.text[k].1@ == word_surface::<D>(t.words[k])
        }
    &&& anchors_view(r.anchor_positions@) == t.anchors
}

impl UniqueText {
    /// Cuts the text into words and supplies each word with its surface
    /// form.
    pub fn normalise<D: AtgDialect>(self) -> (r: AnchoredNormalisedText)
        requires
            self.splittable::<D>(),
        ensures
            normalised::<D>(self@, r),
    {
        let words = self.split_words::<D>();
        let r = words.into_anchored_normalised_text::<D>();
        proof {
            let t = tokens::<D>(self@);
            assert forall|k: int| 0 <= k < r.text.len() implies {
                &&& (#[trigger] r.text[k]).0@ == t.words[k]
                &&& r.text[k].1@ == word_surface::<D>(t.words[k])
            } by {
                assert(words.words()[k] == words.text[k]@);
            }
        }
        r
    }
}

} // verus!
