//! Documents of the generic data model: the self-describing tree of tokens
//! that structured formats share.

use vstd::prelude::*;

verus! {

/// A document: one token, or a sequence or a keyed list of documents.
///
/// Floating-point tokens are held by their IEEE 754 bit patterns.
#[derive(Debug, PartialEq, Eq)]
pub enum Document {
    /// The unit, which is also what JSON calls null. Where an option is
    /// expected it counts as absent.
    Null,
    /// The marker of an absent option.
    Absent,
    /// The marker of a present option, around what is present.
    Present(Box<Document>),
    Bool(bool),
    Signed(i64),
    Unsigned(u64),
    /// A single-precision number, by its bits.
    Float32(u32),
    /// A double-precision number, by its bits.
    Float64(u64),
    Char(char),
    String(String),
    Bytes(Vec<u8>),
    List(Vec<Document>),
    /// Keyed entries, in the order in which the document gives them.
    Entries(Vec<(String, Document)>),
}

/// The mathematical model of a [`Document`].
pub enum DocumentView {
    Null,
    Absent,
    Present(Box<DocumentView>),
    Bool(bool),
    Signed(i64),
    Unsigned(u64),
    Float32(u32),
    Float64(u64),
    Char(char),
    String(Seq<char>),
    Bytes(Seq<u8>),
    List(Seq<DocumentView>),
    Entries(Seq<(Seq<char>, DocumentView)>),
}

/// The kind of a document's outermost token.
#[derive(Debug, Clone, Copy, PartialEq, Eq, Structural)]
pub enum TokenKind {
    Null,
    Absent,
    Present,
    Bool,
    Signed,
    Unsigned,
    Float32,
    Float64,
    Char,
    String,
    Bytes,
    List,
    Entries,
}

/// The models of a vector of documents.
pub open spec fn documents_view(items: Vec<Document>) -> Seq<DocumentView> {
    Seq::new(items.len() as nat, |i: int| items[i].model())
}

/// The models of a vector of keyed documents.
pub open spec fn entries_view(entries: Vec<(String, Document)>) -> Seq<(Seq<char>, DocumentView)> {
    Seq::new(entries.len() as nat, |i: int| (entries[i].0@, entries[i].1.model()))
}

impl Document {
    /// The model of this document.
    pub open spec fn model(self) -> DocumentView
        decreases self,
    {
        match self {
            Document::Null => DocumentView::Null,
            Document::Absent => DocumentView::Absent,
            Document::Present(d) => DocumentView::Present(Box::new((*d).model())),
            Document::Bool(b) => DocumentView::Bool(b),
            Document::Signed(v) => DocumentView::Signed(v),
            Document::Unsigned(v) => DocumentView::Unsigned(v),
            Document::Float32(bits) => DocumentView::Float32(bits),
            Document::Float64(bits) => DocumentView::Float64(bits),
            Document::Char(c) => DocumentView::Char(c),
            Document::String(s) => DocumentView::String(s@),
            Document::Bytes(bytes) => DocumentView::Bytes(bytes@),
            Document::List(items) => DocumentView::List(
                Seq::new(
                    items.len() as nat,
                    |i: int|
                        if 0 <= i < items.len() {
                            items[i].model()
                        } else {
                            arbitrary()
                        },
                ),
            ),
            Document::Entries(entries) => DocumentView::Entries(
                Seq::new(
                    entries.len() as nat,
                    |i: int|
                        if 0 <= i < entries.len() {
                            (entries[i].0@, entries[i].1.model())
                        } else {
                            arbitrary()
                        },
                ),
            ),
        }
    }

    /// The kind of the outermost token.
    pub fn kind(&self) -> (k: TokenKind)
        ensures
            k == self@.kind(),
    {
        match self {
            Document::Null => TokenKind::Null,
            Document::Absent => TokenKind::Absent,
            Document::Present(_) => TokenKind::Present,
            Document::Bool(_) => TokenKind::Bool,
            Document::Signed(_) => TokenKind::Signed,
            Document::Unsigned(_) => TokenKind::Unsigned,
            Document::Float32(_) => TokenKind::Float32,
            Document::Float64(_) => TokenKind::Float64,
            Document::Char(_) => TokenKind::Char,
            Document::String(_) => TokenKind::String,
            Document::Bytes(_) => TokenKind::Bytes,
            Document::List(_) => TokenKind::List,
            Document::Entries(_) => TokenKind::Entries,
        }
    }
}

impl View for Document {
    type V = DocumentView;

    open spec fn view(&self) -> DocumentView {
        self.model()
    }
}

impl DocumentView {
    /// The kind of the outermost token.
    pub open spec fn kind(self) -> TokenKind {
        match self {
            DocumentView::Null => TokenKind::Null,
            DocumentView::Absent => TokenKind::Absent,
            DocumentView::Present(_) => TokenKind::Present,
            DocumentView::Bool(_) => TokenKind::Bool,
            DocumentView::Signed(_) => TokenKind::Signed,
            DocumentView::Unsigned(_) => TokenKind::Unsigned,
            DocumentView::Float32(_) => TokenKind::Float32,
            DocumentView::Float64(_) => TokenKind::Float64,
            DocumentView::Char(_) => TokenKind::Char,
            DocumentView::String(_) => TokenKind::String,
            DocumentView::Bytes(_) => TokenKind::Bytes,
            DocumentView::List(_) => TokenKind::List,
            DocumentView::Entries(_) => TokenKind::Entries,
        }
    }
}

/// The model of a list document is the sequence of its items' models.
pub proof fn lemma_list_view(items: Vec<Document>)
    ensures
        Document::List(items)@ == DocumentView::List(documents_view(items)),
{
    assert(Document::List(items)@->List_0 =~= documents_view(items));
}

/// The model of a keyed document is the sequence of its entries' models.
pub proof fn lemma_entries_view(entries: Vec<(String, Document)>)
    ensures
        Document::Entries(entries)@ == DocumentView::Entries(entries_view(entries)),
{
    assert(Document::Entries(entries)@->Entries_0 =~= entries_view(entries));
}

} // verus!
