//! What the indexing core is configured with and what it hands back: the options shared by every
//! reader, the chunks, the resolved graph and the run's counters.

use vstd::prelude::*;

use crate::chunk::Chunk;
use crate::graph::Graph;
use crate::tuning::IndexTuning;

verus! {

/// Content-level indexing options.
#[derive(Clone, Copy, Debug)]
pub struct IndexOptions {
    /// Chunking/window tuning.
    pub tuning: IndexTuning,
    /// Build the structural call graph.
    pub build_graph: bool,
    /// Extract text from PDFs and index it.
    pub extract_pdfs: bool,
}

impl Default for IndexOptions {
    fn default() -> (o: Self)
        ensures
            o.tuning.embed_batch_size == 32,
            o.tuning.max_chunk_lines == 150,
            o.tuning.window_size == 100,
            o.tuning.window_step == 50,
            !o.build_graph,
            o.extract_pdfs,
    {
        IndexOptions { tuning: IndexTuning::default(), build_graph: false, extract_pdfs: true }
    }
}

/// Counters for one indexing run.
#[derive(Clone, Copy, Debug, Default)]
pub struct IndexStats {
    pub files_chunked: usize,
    pub files_skipped_binary: usize,
    pub files_skipped_too_large: usize,
    pub files_skipped_unsupported: usize,
    pub pdfs_extracted: usize,
    pub pdfs_skipped: usize,
    pub paths_ignored: usize,
    pub calls_resolved: usize,
    pub calls_ambiguous: usize,
    pub calls_unresolved: usize,
    pub chunks_embedded: usize,
    pub embed_batches: usize,
}

/// The result of one indexing run: every chunk, the structural graph (empty when not built) and the
/// counters. `V` is the embedding vector type.
pub struct IndexOutput<V> {
    pub chunks: Vec<Chunk<V>>,
    pub graph: Graph,
    pub stats: IndexStats,
}

} // verus!
