//! Block-level TEI body content: ordered paragraphs and utterances.

use vstd::prelude::*;

mod error;
mod paragraph;
mod utterance;
mod validation;

pub use error::BodyContentError;
pub use paragraph::P;
pub use utterance::Utterance;

pub use validation::container_ok;

pub(crate) use validation::{
    content_error_for, ensure_container_content, normalise_optional_speaker,
    push_validated_inline, push_validated_text_segment, set_optional_identifier,
};

verus! {

/// Block-level body content.
#[derive(Debug, PartialEq)]
pub enum BodyBlock {
    /// A prose paragraph.
    Paragraph(P),
    /// A spoken utterance.
    Utterance(Utterance),
}

/// The paragraphs among a sequence of blocks, in order.
pub open spec fn paragraphs_of(s: Seq<BodyBlock>) -> Seq<P>
    decreases s.len(),
{
    if s.len() == 0 {
        Seq::empty()
    } else {
        paragraphs_of(s.drop_last()) + match s.last() {
            BodyBlock::Paragraph(p) => seq![p],
            BodyBlock::Utterance(_) => Seq::empty(),
        }
    }
}

/// The utterances among a sequence of blocks, in order.
pub open spec fn utterances_of(s: Seq<BodyBlock>) -> Seq<Utterance>
    decreases s.len(),
{
    if s.len() == 0 {
        Seq::empty()
    } else {
        utterances_of(s.drop_last()) + match s.last() {
            BodyBlock::Paragraph(_) => Seq::empty(),
            BodyBlock::Utterance(u) => seq![u],
        }
    }
}

/// Ordered collection of block-level TEI elements.
#[derive(Debug, PartialEq)]
pub struct TeiBody {
    pub(crate) blocks: Vec<BodyBlock>,
}

impl TeiBody {
    /// The recorded blocks.
    pub open(crate) spec fn spec_blocks(&self) -> Seq<BodyBlock> {
        self.blocks@
    }

    /// Constructs a body from pre-existing blocks.
    pub fn new(blocks: Vec<BodyBlock>) -> (r: Self)
        ensures
            r.spec_blocks() == blocks@,
    {
        TeiBody { blocks }
    }

    /// Appends a paragraph block to the body.
    pub fn push_paragraph(&mut self, paragraph: P)
        ensures
            final(self).spec_blocks() == old(self).spec_blocks().push(
                BodyBlock::Paragraph(paragraph),
            ),
    {
        self.blocks.push(BodyBlock::Paragraph(paragraph));
    }

    /// Appends an utterance block to the body.
    pub fn push_utterance(&mut self, utterance: Utterance)
        ensures
            final(self).spec_blocks() == old(self).spec_blocks().push(
                BodyBlock::Utterance(utterance),
            ),
    {
        self.blocks.push(BodyBlock::Utterance(utterance));
    }

    /// Extends the body with additional blocks.
    pub fn extend(&mut self, blocks: Vec<BodyBlock>)
        ensures
            final(self).spec_blocks() == old(self).spec_blocks() + blocks@,
    {
        let mut rest = blocks;
        self.blocks.append(&mut rest);
    }

    /// Returns the recorded blocks.
    pub fn blocks(&self) -> (r: &[BodyBlock])
        ensures
            r@ == self.spec_blocks(),
    {
        self.blocks.as_slice()
    }

    /// Returns the recorded paragraphs, in order.
    pub fn paragraphs(&self) -> (r: Vec<&P>)
        ensures
            r@.len() == paragraphs_of(self.spec_blocks()).len(),
            forall|i: int|
                0 <= i < r@.len() ==> *(#[trigger] r@[i]) == paragraphs_of(self.spec_blocks())[i],
    {
        let mut out: Vec<&P> = Vec::new();
        let mut k: usize = 0;
        while k < self.blocks.len()
            invariant
                k <= self.spec_blocks().len(),
                out@.len() == paragraphs_of(self.spec_blocks().subrange(0, k as int)).len(),
                forall|i: int|
                    0 <= i < out@.len() ==> *(#[trigger] out@[i]) == paragraphs_of(
                        self.spec_blocks().subrange(0, k as int),
                    )[i],
            decreases self.spec_blocks().len() - k,
        {
            let ghost pre = self.spec_blocks().subrange(0, k as int);
            match &self.blocks[k] {
                BodyBlock::Paragraph(p) => {
                    out.push(p);
                },
                BodyBlock::Utterance(_) => {},
            }
            proof {
                let post = self.spec_blocks().subrange(0, k + 1);
                assert(post.drop_last() =~= pre);
                assert(post.last() == self.spec_blocks()[k as int]);
            }
            k = k + 1;
        }
        proof {
            assert(self.spec_blocks().subrange(0, self.spec_blocks().len() as int) =~= self
                .spec_blocks());
        }
        out
    }

    /// Returns the recorded utterances, in order.
    pub fn utterances(&self) -> (r: Vec<&Utterance>)
        ensures
            r@.len() == utterances_of(self.spec_blocks()).len(),
            forall|i: int|
                0 <= i < r@.len() ==> *(#[trigger] r@[i]) == utterances_of(self.spec_blocks())[i],
    {
        let mut out: Vec<&Utterance> = Vec::new();
        let mut k: usize = 0;
        while k < self.blocks.len()
            invariant
                k <= self.spec_blocks().len(),
                out@.len() == utterances_of(self.spec_blocks().subrange(0, k as int)).len(),
                forall|i: int|
                    0 <= i < out@.len() ==> *(#[trigger] out@[i]) == utterances_of(
                        self.spec_blocks().subrange(0, k as int),
                    )[i],
            decreases self.spec_blocks().len() - k,
        {
            let ghost pre = self.spec_blocks().subrange(0, k as int);
            match &self.blocks[k] {
                BodyBlock::Paragraph(_) => {},
                BodyBlock::Utterance(u) => {
                    out.push(u);
                },
            }
            proof {
                let post = self.spec_blocks().subrange(0, k + 1);
                assert(post.drop_last() =~= pre);
                assert(post.last() == self.spec_blocks()[k as int]);
            }
            k = k + 1;
        }
        proof {
            assert(self.spec_blocks().subrange(0, self.spec_blocks().len() as int) =~= self
                .spec_blocks());
        }
        out
    }

    /// Reports whether the body contains any blocks.
    pub fn is_empty(&self) -> (r: bool)
        ensures
            r == (self.spec_blocks().len() == 0),
    {
        self.blocks.is_empty()
    }
}

} // verus!
