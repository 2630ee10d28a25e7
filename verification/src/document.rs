use vstd::prelude::*;

verus! {

/// Anything that can be indexed: a value that exposes its raw text.
///
/// An implementation states what the text of a value is and proves that
/// `get_data` returns exactly that, so that the text of a document is a fixed
/// property of the value.
pub trait Document {
    /// The raw text of the document.
    spec fn text(&self) -> Seq<char>;

    fn get_data(&self) -> (data: String)
        ensures
            data@ == self.text(),
    ;
}

/// A string is its own text.
impl Document for String {
    open spec fn text(&self) -> Seq<char> {
        self@
    }

    fn get_data(&self) -> (data: String) {
        self.clone()
    }
}

/// A text together with a key of the caller's choice, by which ranked
/// documents can be told apart. The key is no part of the text.
impl<K> Document for (K, String) {
    open spec fn text(&self) -> Seq<char> {
        self.1@
    }

    fn get_data(&self) -> (data: String) {
        self.1.clone()
    }
}

} // verus!
