//! Documents: a text with string metadata.

use vstd::prelude::*;
use crate::strmap::StringMap;

verus! {

/// A piece of text with its metadata.
pub struct Document {
    page_content: String,
    metadata: StringMap,
}

/// What a document is: its text and its metadata.
pub struct DocumentView {
    pub page_content: Seq<char>,
    pub metadata: Map<Seq<char>, Seq<char>>,
}

impl View for Document {
    type V = DocumentView;

    closed spec fn view(&self) -> DocumentView {
        DocumentView { page_content: self.page_content@, metadata: self.metadata@ }
    }
}

impl Clone for Document {
    fn clone(&self) -> (out: Self)
        ensures
            out@ == self@,
    {
        Document { page_content: self.page_content.clone(), metadata: self.metadata.clone() }
    }
}

impl Document {
    /// A document with the given text; without `metadata` its metadata is
    /// empty.
    pub fn new(page_content: String, metadata: Option<StringMap>) -> (out: Self)
        ensures
            out@.page_content == page_content@,
            out@.metadata == match metadata {
                Some(m) => m@,
                None => Map::<Seq<char>, Seq<char>>::empty(),
            },
    {
        match metadata {
            Some(m) => Document { page_content, metadata: m },
            None => Document { page_content, metadata: StringMap::new() },
        }
    }

    /// The document's text.
    pub fn page_content(&self) -> (out: String)
        ensures
            out@ == self@.page_content,
    {
        self.page_content.clone()
    }

    /// The document's metadata.
    pub fn metadata(&self) -> (out: StringMap)
        ensures
            out@ == self@.metadata,
    {
        self.metadata.clone()
    }
}

} // verus!
