//! Embedding models: text to a vector of fixed width.
//!
//! Components are 16-bit fixed-point numbers. A model that works in floating
//! point scales and rounds its output before it hands it over.

use vstd::prelude::*;
use crate::text::chars_of;

verus! {

/// A model that maps text to a vector.
///
/// Nothing is promised of what an implementation returns; the vector store
/// checks the width of every vector it is given.
pub trait Embeddings {
    /// The embedding of `text`; an error carries its message.
    fn embed_query(&mut self, text: &str) -> Result<Vec<i16>, String>;
}

/// The width of the vectors of `MockEmbeddings`.
pub const MOCK_DIMENSION: usize = 8;

/// A deterministic stand-in for an embedding model: component `j` counts the
/// characters of the text whose code is `j` modulo the width, up to the
/// largest value a component can hold.
#[derive(Clone, Copy, Debug)]
pub struct MockEmbeddings;

/// `v` with component `j` raised by one, unless it is at its largest value.
pub open spec fn raised(v: Seq<i16>, j: int) -> Seq<i16> {
    if 0 <= j < v.len() && v[j] < i16::MAX {
        v.update(j, (v[j] + 1) as i16)
    } else {
        v
    }
}

/// The embedding of the first `n` characters of `text`.
pub open spec fn mock_embedding_upto(text: Seq<char>, n: int) -> Seq<i16>
    decreases n,
{
    if n <= 0 {
        Seq::new(MOCK_DIMENSION as nat, |j: int| 0i16)
    } else {
        raised(mock_embedding_upto(text, n - 1), (text[n - 1] as u32 % 8) as int)
    }
}

/// The embedding that `MockEmbeddings` gives to `text`.
pub open spec fn mock_embedding(text: Seq<char>) -> Seq<i16> {
    mock_embedding_upto(text, text.len() as int)
}

impl MockEmbeddings {
    /// The stand-in model.
    pub fn new() -> (out: Self) {
        MockEmbeddings
    }

    /// The embedding of `text`.
    pub fn embed(&self, text: &str) -> (out: Vec<i16>)
        ensures
            out@ == mock_embedding(text@),
            out@.len() == MOCK_DIMENSION,
    {
        let chars = chars_of(text);
        let mut out: Vec<i16> = Vec::new();
        let mut j: usize = 0;
        while j < MOCK_DIMENSION
            invariant
                j <= MOCK_DIMENSION,
                out@.len() == j,
                forall|i: int| 0 <= i < j ==> out@[i] == 0i16,
            decreases MOCK_DIMENSION - j,
        {
            out.push(0);
            j += 1;
        }
        assert(out@ =~= mock_embedding_upto(chars@, 0));
        let mut n: usize = 0;
        while n < chars.len()
            invariant
                n <= chars.len(),
                out@.len() == MOCK_DIMENSION,
                out@ == mock_embedding_upto(chars@, n as int),
            decreases chars.len() - n,
        {
            let j = (chars[n] as u32 % 8) as usize;
            if out[j] < i16::MAX {
                let raised_value = out[j] + 1;
                out.set(j, raised_value);
            }
            n += 1;
        }
        out
    }
}

impl Embeddings for MockEmbeddings {
    fn embed_query(&mut self, text: &str) -> (out: Result<Vec<i16>, String>)
        ensures
            out matches Ok(vector) && vector@ == mock_embedding(text@),
    {
        Ok(self.embed(text))
    }
}

} // verus!
