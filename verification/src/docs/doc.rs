//! A document candidate: the text of a number, with or without symbols.

use vstd::prelude::*;

verus! {

/// The text of a document number.
pub struct Document {
    document: String,
}

impl View for Document {
    type V = Seq<char>;

    closed spec fn view(&self) -> Seq<char> {
        self.document@
    }
}

impl Document {
    /// Holds a copy of the text.
    pub fn new(document: &str) -> (r: Document)
        ensures
            r@ == document@,
    {
        Document { document: document.to_owned() }
    }

    /// The number of characters of the text.
    pub fn len(&self) -> (r: usize)
        ensures
            r == self@.len(),
    {
        self.document.as_str().unicode_len()
    }

    /// Tells whether the text has no character.
    pub fn is_empty(&self) -> (r: bool)
        ensures
            r == (self@.len() == 0),
    {
        self.document.as_str().unicode_len() == 0
    }

    /// The characters of the text.
    pub fn chars(&self) -> (r: Vec<char>)
        ensures
            r@ == self@,
    {
        let text: &str = self.document.as_str();
        let mut out: Vec<char> = Vec::new();
        for c in it: text.chars()
            invariant
                it.seq() == text@,
                out@ == text@.take(it.index() as int),
        {
            out.push(c);
        }
        out
    }

    /// The character at a position of the text.
    pub fn get_char(&self, index: usize) -> (r: char)
        requires
            index < self@.len(),
        ensures
            r == self@[index as int],
    {
        self.document.as_str().get_char(index)
    }

    /// The text itself.
    pub fn text(&self) -> (r: &str)
        ensures
            r@ == self@,
    {
        self.document.as_str()
    }
}

} // verus!
