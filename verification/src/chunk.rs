//! The unit of indexed content: one span of one file, with the text the embedding model sees and
//! (once embedded) its vector.

use vstd::prelude::*;

verus! {

/// One chunk of one file. `start_line`/`end_line` are 0-based. `V` is the embedding vector type.
#[derive(Clone, Debug, PartialEq)]
pub struct Chunk<V> {
    pub file_path: String,
    pub language: String,
    pub chunk_type: String,
    pub symbol_name: Option<String>,
    pub start_line: i32,
    pub end_line: i32,
    pub content: String,
    pub embedding: Option<V>,
    pub embed_input: Option<String>,
}

/// The textual fields of a chunk.
pub struct ChunkView {
    pub file_path: Seq<char>,
    pub language: Seq<char>,
    pub chunk_type: Seq<char>,
    pub symbol_name: Option<Seq<char>>,
    pub start_line: i32,
    pub end_line: i32,
    pub content: Seq<char>,
    pub embed_input: Option<Seq<char>>,
}

impl<V> View for Chunk<V> {
    type V = ChunkView;

    open spec fn view(&self) -> ChunkView {
        ChunkView {
            file_path: self.file_path@,
            language: self.language@,
            chunk_type: self.chunk_type@,
            symbol_name: crate::graph::opt_view(self.symbol_name),
            start_line: self.start_line,
            end_line: self.end_line,
            content: self.content@,
            embed_input: crate::graph::opt_view(self.embed_input),
        }
    }
}

} // verus!
