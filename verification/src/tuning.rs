//! Operator-tunable indexer knobs, read once per run and clamped to at least 1 so a
//! misconfiguration cannot wedge the pipeline.

use vstd::prelude::*;

use crate::text::{parse_var, parsed};

verus! {

/// Operator-tunable indexer knobs.
#[derive(Clone, Copy, Debug)]
pub struct IndexTuning {
    /// Chunks embedded and submitted per round-trip (`LCI_CODEGRAPH_EMBED_BATCH_SIZE`, default 32).
    pub embed_batch_size: usize,
    /// Max lines a structured chunk may span before it is split into windows
    /// (`LCI_CODEGRAPH_MAX_CHUNK_LINES`, default 150).
    pub max_chunk_lines: usize,
    /// Windowed-fallback window size, in lines (`LCI_CODEGRAPH_WINDOW_SIZE`, default 100).
    pub window_size: usize,
    /// Windowed-fallback step, in lines (`LCI_CODEGRAPH_WINDOW_STEP`, default 50).
    pub window_step: usize,
}

impl Default for IndexTuning {
    fn default() -> (t: Self)
        ensures
            t.embed_batch_size == 32,
            t.max_chunk_lines == 150,
            t.window_size == 100,
            t.window_step == 50,
    {
        IndexTuning { embed_batch_size: 32, max_chunk_lines: 150, window_size: 100, window_step: 50 }
    }
}

/// A knob's value from its variable's raw value: the trimmed text parsed as a `usize` and clamped
/// to at least 1; `default` when the variable is unset or does not parse (overflow included).
pub open spec fn knob_value(value: Option<Seq<char>>, default: usize) -> usize {
    match parsed(value, usize::MAX as nat) {
        Some(n) => if n == 0 {
            1
        } else {
            n as usize
        },
        None => default,
    }
}

/// A knob's value from its variable's raw value (see [`knob_value`]).
pub fn env_usize(value: &Option<String>, default: usize) -> (r: usize)
    ensures
        r == knob_value(crate::graph::opt_view(*value), default),
{
    match parse_var(value, usize::MAX as u64) {
        Some(n) => if n == 0 {
            1
        } else {
            n as usize
        },
        None => default,
    }
}

/// The knobs read from the variables' raw values, each falling back to its default.
pub open spec fn tuning_from_values(
    batch: Option<Seq<char>>,
    chunk_lines: Option<Seq<char>>,
    window: Option<Seq<char>>,
    step: Option<Seq<char>>,
) -> IndexTuning {
    IndexTuning {
        embed_batch_size: knob_value(batch, 32),
        max_chunk_lines: knob_value(chunk_lines, 150),
        window_size: knob_value(window, 100),
        window_step: knob_value(step, 50),
    }
}

impl IndexTuning {
    /// Read the knobs through `get` (a variable lookup; the process environment in
    /// production): `LCI_CODEGRAPH_EMBED_BATCH_SIZE`, `LCI_CODEGRAPH_MAX_CHUNK_LINES`,
    /// `LCI_CODEGRAPH_WINDOW_SIZE`, `LCI_CODEGRAPH_WINDOW_STEP`, each falling back to its default
    /// and clamped to at least 1.
    pub fn from_lookup<F: Fn(&str) -> Option<String>>(get: F) -> (t: IndexTuning)
        requires
            forall|key: &str| #[trigger] get.requires((key,)),
        ensures
            t.embed_batch_size >= 1,
            t.max_chunk_lines >= 1,
            t.window_size >= 1,
            t.window_step >= 1,
            exists|b: Option<String>, c: Option<String>, w: Option<String>, s: Option<String>|
                {
                    &&& get.ensures(("LCI_CODEGRAPH_EMBED_BATCH_SIZE",), b)
                    &&& get.ensures(("LCI_CODEGRAPH_MAX_CHUNK_LINES",), c)
                    &&& get.ensures(("LCI_CODEGRAPH_WINDOW_SIZE",), w)
                    &&& get.ensures(("LCI_CODEGRAPH_WINDOW_STEP",), s)
                    &&& t == tuning_from_values(
                        crate::graph::opt_view(b),
                        crate::graph::opt_view(c),
                        crate::graph::opt_view(w),
                        crate::graph::opt_view(s),
                    )
                },
    {
        let b = get("LCI_CODEGRAPH_EMBED_BATCH_SIZE");
        let c = get("LCI_CODEGRAPH_MAX_CHUNK_LINES");
        let w = get("LCI_CODEGRAPH_WINDOW_SIZE");
        let s = get("LCI_CODEGRAPH_WINDOW_STEP");
        let t = IndexTuning {
            embed_batch_size: env_usize(&b, 32),
            max_chunk_lines: env_usize(&c, 150),
            window_size: env_usize(&w, 100),
            window_step: env_usize(&s, 50),
        };
        assert(get.ensures(("LCI_CODEGRAPH_EMBED_BATCH_SIZE",), b));
        assert(get.ensures(("LCI_CODEGRAPH_MAX_CHUNK_LINES",), c));
        assert(get.ensures(("LCI_CODEGRAPH_WINDOW_SIZE",), w));
        assert(get.ensures(("LCI_CODEGRAPH_WINDOW_STEP",), s));
        assert(t == tuning_from_values(
            crate::graph::opt_view(b),
            crate::graph::opt_view(c),
            crate::graph::opt_view(w),
            crate::graph::opt_view(s),
        ));
        t
    }
}

} // verus!
