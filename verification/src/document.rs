//! A parsed document as it is handed to the host: a name and its chunks.

use vstd::prelude::*;

verus! {

/// One chunk of a parsed document.
#[derive(Debug, Clone)]
pub struct Chunk {
    pub index: usize,
    pub content: String,
}

/// A parsed document.
#[derive(Debug, Clone)]
pub struct Doc {
    pub name: String,
    pub chunks: Vec<Chunk>,
}

/// A parsed document behind the getters that the host reads it through.
pub struct Document {
    inner: Doc,
}

impl Document {
    /// The name of the document.
    pub closed spec fn spec_name(&self) -> Seq<char> {
        self.inner.name@
    }

    /// The text of each chunk of the document, in order.
    pub closed spec fn contents(&self) -> Seq<Seq<char>> {
        Seq::new(self.inner.chunks@.len(), |i: int| self.inner.chunks@[i].content@)
    }

    /// The getters for `inner`.
    pub fn new(inner: Doc) -> (r: Self)
        ensures
            r.spec_name() == inner.name@,
            r.contents() == Seq::new(inner.chunks@.len(), |i: int| inner.chunks@[i].content@),
    {
        Document { inner }
    }

    /// The name of the document.
    pub fn name(&self) -> (r: String)
        ensures
            r@ == self.spec_name(),
    {
        self.inner.name.clone()
    }

    /// The chunks of the document in order, each numbered by its place.
    pub fn chunks(&self) -> (r: Vec<Chunk>)
        ensures
            r@.len() == self.contents().len(),
            forall|i: int|
                0 <= i < r@.len() ==> (#[trigger] r@[i]).index == i && r@[i].content@
                    == self.contents()[i],
    {
        let mut out: Vec<Chunk> = Vec::new();
        let mut i: usize = 0;
        while i < self.inner.chunks.len()
            invariant
                i <= self.inner.chunks@.len(),
                out@.len() == i,
                forall|k: int|
                    0 <= k < i ==> (#[trigger] out@[k]).index == k && out@[k].content@
                        == self.contents()[k],
            decreases self.inner.chunks@.len() - i,
        {
            out.push(Chunk { index: i, content: self.inner.chunks[i].content.clone() });
            i += 1;
        }
        out
    }
}

} // verus!
