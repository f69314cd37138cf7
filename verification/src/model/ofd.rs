//! OFD main entry structure (OFD.xml).

use vstd::prelude::*;

verus! {

/// Document metadata (CT_DocInfo).
#[derive(Debug, Clone)]
pub struct DocInfo {
    /// Unique document ID (UUID, 32 chars).
    pub doc_id: String,
    /// Document title.
    pub title: Option<String>,
    /// Document author.
    pub author: Option<String>,
    /// Creator application name.
    pub creator: Option<String>,
    /// Creator application version.
    pub creator_version: Option<String>,
    /// Creation date (ISO format).
    pub creation_date: Option<String>,
}

/// The metadata of a document as texts.
pub struct DocInfoView {
    pub doc_id: Seq<char>,
    pub title: Option<Seq<char>>,
    pub author: Option<Seq<char>>,
    pub creator: Option<Seq<char>>,
    pub creator_version: Option<Seq<char>>,
    pub creation_date: Option<Seq<char>>,
}

/// The text held by an optional string.
pub open spec fn opt_text(o: Option<String>) -> Option<Seq<char>> {
    match o {
        Some(s) => Some(s@),
        None => None,
    }
}

impl View for DocInfo {
    type V = DocInfoView;

    open spec fn view(&self) -> DocInfoView {
        DocInfoView {
            doc_id: self.doc_id@,
            title: opt_text(self.title),
            author: opt_text(self.author),
            creator: opt_text(self.creator),
            creator_version: opt_text(self.creator_version),
            creation_date: opt_text(self.creation_date),
        }
    }
}

impl Default for DocInfo {
    /// Empty ID and no optional field.
    fn default() -> (d: Self)
        ensures
            d.doc_id@ == Seq::<char>::empty(),
            d.title is None,
            d.author is None,
            d.creator is None,
            d.creator_version is None,
            d.creation_date is None,
    {
        DocInfo {
            doc_id: String::new(),
            title: None,
            author: None,
            creator: None,
            creator_version: None,
            creation_date: None,
        }
    }
}

} // verus!
