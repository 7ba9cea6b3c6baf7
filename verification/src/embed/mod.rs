//! Semantic embeddings via an OpenAI-compatible `/embeddings` endpoint. The text sent to the model
//! is graph-aware: a small deterministic header (enclosing container, callees, callers) derived from
//! the resolved structural [`Graph`](crate::graph::Graph) ahead of the chunk's own source.

use vstd::prelude::*;

pub mod client;
pub mod context;
pub mod lookup;

use core::time::Duration;

use crate::chunk::{Chunk, ChunkView};
use crate::graph::canon::views;
use crate::graph::{Graph, GraphView};
use crate::input::IndexOutput;
use crate::text::{parse_var, parsed, trim, trim_str};

use client::{align_refusal, align_response, indices_permute, AlignError, BatchReply};
use context::{embed_input, embed_input_text, ContextIndex};

verus! {

/// The `Duration` that `Duration::from_secs(secs)` yields.
pub uninterp spec fn duration_from_secs(secs: u64) -> Duration;

/// `Duration::from_secs`: a duration of `secs` whole seconds. Claimed: the result is the value
/// named [`duration_from_secs`] for `secs`, the same for the same argument.
pub assume_specification[ core::time::Duration::from_secs ](secs: u64) -> (d: Duration)
    ensures
        d == duration_from_secs(secs),
;

/// `Duration`'s `Clone` (it is `Copy`; the derived `Clone` of [`EmbedConfig`] calls it): claimed
/// to return an equal value.
pub assume_specification[ <core::time::Duration as Clone>::clone ](d: &Duration) -> (r: Duration)
    ensures
        r == *d,
;

/// Configuration for the embeddings call.
#[derive(Clone)]
pub struct EmbedConfig {
    /// OpenAI-compatible API base, e.g. `https://api.openai.com/v1`.
    pub base_url: String,
    /// Sent as `Authorization: Bearer <key>` only when `Some`.
    pub api_key: Option<String>,
    /// Embedding model name.
    pub model: String,
    /// Passed through as the request's `dimensions` field only when `Some`.
    pub dimensions: Option<u32>,
    /// Per-request timeout.
    pub timeout: Duration,
    /// Retries on 429 / 5xx / transport error. `0` is legal (no retry).
    pub max_retries: u32,
    /// Each input string is truncated to this many chars before being sent.
    pub max_input_chars: usize,
    /// Max callees and max callers listed in the context header; each side capped independently.
    pub max_context_refs: usize,
}

pub struct EmbedConfigView {
    pub base_url: Seq<char>,
    pub api_key: Option<Seq<char>>,
    pub model: Seq<char>,
    pub dimensions: Option<u32>,
    pub timeout: Duration,
    pub max_retries: u32,
    pub max_input_chars: usize,
    pub max_context_refs: usize,
}

impl View for EmbedConfig {
    type V = EmbedConfigView;

    open spec fn view(&self) -> EmbedConfigView {
        EmbedConfigView {
            base_url: self.base_url@,
            api_key: crate::graph::opt_view(self.api_key),
            model: self.model@,
            dimensions: self.dimensions,
            timeout: self.timeout,
            max_retries: self.max_retries,
            max_input_chars: self.max_input_chars,
            max_context_refs: self.max_context_refs,
        }
    }
}

/// The default embedding model name.
pub open spec fn default_model_name() -> Seq<char> {
    "text-embedding-3-small"@
}

pub fn default_model() -> (s: String)
    ensures
        s@ == default_model_name(),
{
    String::from_str("text-embedding-3-small")
}

/// The configuration with `base_url` and every other field at its default.
pub open spec fn default_config(base_url: Seq<char>) -> EmbedConfigView {
    EmbedConfigView {
        base_url,
        api_key: None,
        model: default_model_name(),
        dimensions: None,
        timeout: duration_from_secs(30),
        max_retries: 3,
        max_input_chars: 8000,
        max_context_refs: 8,
    }
}

/// Builder for [`EmbedConfig`]: `EmbedConfig::builder().base_url(..)`, then any setters, then
/// `build()`.
pub struct EmbedConfigStart;

/// A builder that has its `base_url`.
pub struct EmbedConfigBuilder {
    config: EmbedConfig,
}

impl View for EmbedConfigBuilder {
    type V = EmbedConfigView;

    closed spec fn view(&self) -> EmbedConfigView {
        self.config@
    }
}

impl EmbedConfig {
    pub fn builder() -> EmbedConfigStart {
        EmbedConfigStart
    }
}

impl EmbedConfigStart {
    /// Set the API base; every other field starts at its default.
    pub fn base_url(self, base_url: &str) -> (b: EmbedConfigBuilder)
        ensures
            b@ == default_config(base_url@),
    {
        EmbedConfigBuilder {
            config: EmbedConfig {
                base_url: String::from_str(base_url),
                api_key: None,
                model: default_model(),
                dimensions: None,
                timeout: Duration::from_secs(30),
                max_retries: 3,
                max_input_chars: 8000,
                max_context_refs: 8,
            },
        }
    }
}

impl EmbedConfigBuilder {
    pub fn api_key(self, api_key: String) -> (b: Self)
        ensures
            b@ == (EmbedConfigView { api_key: Some(api_key@), ..self@ }),
    {
        self.maybe_api_key(Some(api_key))
    }

    pub fn maybe_api_key(self, api_key: Option<String>) -> (b: Self)
        ensures
            b@ == (EmbedConfigView { api_key: crate::graph::opt_view(api_key), ..self@ }),
    {
        let mut config = self.config;
        config.api_key = api_key;
        EmbedConfigBuilder { config }
    }

    pub fn model(self, model: String) -> (b: Self)
        ensures
            b@ == (EmbedConfigView { model: model@, ..self@ }),
    {
        let mut config = self.config;
        config.model = model;
        EmbedConfigBuilder { config }
    }

    /// Set the model when `Some`; keep the current one when `None`.
    pub fn maybe_model(self, model: Option<String>) -> (b: Self)
        ensures
            b@ == (match model {
                Some(m) => EmbedConfigView { model: m@, ..self@ },
                None => self@,
            }),
    {
        match model {
            Some(m) => self.model(m),
            None => self,
        }
    }

    pub fn dimensions(self, dimensions: u32) -> (b: Self)
        ensures
            b@ == (EmbedConfigView { dimensions: Some(dimensions), ..self@ }),
    {
        self.maybe_dimensions(Some(dimensions))
    }

    pub fn maybe_dimensions(self, dimensions: Option<u32>) -> (b: Self)
        ensures
            b@ == (EmbedConfigView { dimensions, ..self@ }),
    {
        let mut config = self.config;
        config.dimensions = dimensions;
        EmbedConfigBuilder { config }
    }

    pub fn timeout(self, timeout: Duration) -> (b: Self)
        ensures
            b@ == (EmbedConfigView { timeout, ..self@ }),
    {
        let mut config = self.config;
        config.timeout = timeout;
        EmbedConfigBuilder { config }
    }

    /// Set the timeout when `Some`; keep the current one when `None`.
    pub fn maybe_timeout(self, timeout: Option<Duration>) -> (b: Self)
        ensures
            b@ == (match timeout {
                Some(t) => EmbedConfigView { timeout: t, ..self@ },
                None => self@,
            }),
    {
        match timeout {
            Some(t) => self.timeout(t),
            None => self,
        }
    }

    pub fn max_retries(self, max_retries: u32) -> (b: Self)
        ensures
            b@ == (EmbedConfigView { max_retries, ..self@ }),
    {
        let mut config = self.config;
        config.max_retries = max_retries;
        EmbedConfigBuilder { config }
    }

    /// Set the retry count when `Some`; keep the current one when `None`.
    pub fn maybe_max_retries(self, max_retries: Option<u32>) -> (b: Self)
        ensures
            b@ == (match max_retries {
                Some(r) => EmbedConfigView { max_retries: r, ..self@ },
                None => self@,
            }),
    {
        match max_retries {
            Some(r) => self.max_retries(r),
            None => self,
        }
    }

    pub fn max_input_chars(self, max_input_chars: usize) -> (b: Self)
        ensures
            b@ == (EmbedConfigView { max_input_chars, ..self@ }),
    {
        let mut config = self.config;
        config.max_input_chars = max_input_chars;
        EmbedConfigBuilder { config }
    }

    /// Set the input cap when `Some`; keep the current one when `None`.
    pub fn maybe_max_input_chars(self, max_input_chars: Option<usize>) -> (b: Self)
        ensures
            b@ == (match max_input_chars {
                Some(c) => EmbedConfigView { max_input_chars: c, ..self@ },
                None => self@,
            }),
    {
        match max_input_chars {
            Some(c) => self.max_input_chars(c),
            None => self,
        }
    }

    pub fn max_context_refs(self, max_context_refs: usize) -> (b: Self)
        ensures
            b@ == (EmbedConfigView { max_context_refs, ..self@ }),
    {
        let mut config = self.config;
        config.max_context_refs = max_context_refs;
        EmbedConfigBuilder { config }
    }

    pub fn build(self) -> (c: EmbedConfig)
        ensures
            c@ == self@,
    {
        self.config
    }
}

/// A value with leading and trailing whitespace removed, or `None` when nothing is left (or
/// nothing was there).
pub open spec fn non_blank_spec(value: Option<Seq<char>>) -> Option<Seq<char>> {
    match value {
        Some(s) => if trim(s).len() > 0 {
            Some(trim(s))
        } else {
            None
        },
        None => None,
    }
}

/// `None`, absent and whitespace-only all collapse to `None`; anything else is trimmed.
pub fn non_blank(value: Option<String>) -> (r: Option<String>)
    ensures
        crate::graph::opt_view(r) == non_blank_spec(crate::graph::opt_view(value)),
{
    match value {
        Some(s) => {
            let t = trim_str(s.as_str());
            if t.is_empty() {
                None
            } else {
                Some(String::from_str(t))
            }
        },
        None => None,
    }
}

/// The raw values of the variables [`EmbedConfig::from_lookup`] reads, before any parsing.
pub struct EmbedEnv {
    /// `OPENAI_BASE_URL`
    pub base_url: Option<String>,
    /// `OPENAI_API_KEY`
    pub api_key: Option<String>,
    /// `OPENAI_EMBEDDING_MODEL`
    pub model: Option<String>,
    /// `OPENAI_EMBEDDING_DIMENSIONS`
    pub dimensions: Option<String>,
    /// `OPENAI_EMBEDDING_TIMEOUT_SECS`
    pub timeout_secs: Option<String>,
    /// `OPENAI_EMBEDDING_MAX_RETRIES`
    pub max_retries: Option<String>,
    /// `OPENAI_EMBEDDING_MAX_INPUT_CHARS`
    pub max_input_chars: Option<String>,
}

pub struct EmbedEnvView {
    pub base_url: Option<Seq<char>>,
    pub api_key: Option<Seq<char>>,
    pub model: Option<Seq<char>>,
    pub dimensions: Option<Seq<char>>,
    pub timeout_secs: Option<Seq<char>>,
    pub max_retries: Option<Seq<char>>,
    pub max_input_chars: Option<Seq<char>>,
}

impl View for EmbedEnv {
    type V = EmbedEnvView;

    open spec fn view(&self) -> EmbedEnvView {
        EmbedEnvView {
            base_url: crate::graph::opt_view(self.base_url),
            api_key: crate::graph::opt_view(self.api_key),
            model: crate::graph::opt_view(self.model),
            dimensions: crate::graph::opt_view(self.dimensions),
            timeout_secs: crate::graph::opt_view(self.timeout_secs),
            max_retries: crate::graph::opt_view(self.max_retries),
            max_input_chars: crate::graph::opt_view(self.max_input_chars),
        }
    }
}

/// What [`EmbedConfig::from_lookup`] builds from the variables' raw values: `None` when
/// `OPENAI_BASE_URL` is unset or blank; otherwise every other variable, when set and valid,
/// overrides its default (a blank key or model counts as unset, an unparseable number as unset, and
/// a zero timeout or input cap as unset; zero retries is legal).
pub open spec fn config_from_env(e: EmbedEnvView) -> Option<EmbedConfigView> {
    match non_blank_spec(e.base_url) {
        None => None,
        Some(base_url) => Some(
            EmbedConfigView {
                base_url,
                api_key: non_blank_spec(e.api_key),
                model: match non_blank_spec(e.model) {
                    Some(m) => m,
                    None => default_model_name(),
                },
                dimensions: match parsed(e.dimensions, u32::MAX as nat) {
                    Some(d) => Some(d as u32),
                    None => None,
                },
                timeout: match parsed(e.timeout_secs, u64::MAX as nat) {
                    Some(t) => if t > 0 {
                        duration_from_secs(t as u64)
                    } else {
                        duration_from_secs(30)
                    },
                    None => duration_from_secs(30),
                },
                max_retries: match parsed(e.max_retries, u32::MAX as nat) {
                    Some(r) => r as u32,
                    None => 3,
                },
                max_input_chars: match parsed(e.max_input_chars, usize::MAX as nat) {
                    Some(c) => if c > 0 {
                        c as usize
                    } else {
                        8000
                    },
                    None => 8000,
                },
                max_context_refs: 8,
            },
        ),
    }
}

/// A variable whose value is only whitespace configures exactly what an unset one does: for the
/// base URL (no configuration at all), the API key and the model.
pub proof fn lemma_blank_counts_as_unset(e: EmbedEnvView, blank: Seq<char>)
    requires
        forall|i: int| 0 <= i < blank.len() ==> crate::text::is_whitespace(#[trigger] blank[i]),
    ensures
        config_from_env(EmbedEnvView { base_url: Some(blank), ..e }) is None,
        config_from_env(EmbedEnvView { api_key: Some(blank), ..e }) == config_from_env(
            EmbedEnvView { api_key: None, ..e },
        ),
        config_from_env(EmbedEnvView { model: Some(blank), ..e }) == config_from_env(
            EmbedEnvView { model: None, ..e },
        ),
{
    crate::text::lemma_trim_whitespace_only(blank);
}

impl EmbedConfig {
    /// Build the configuration from the variables' raw values (see [`config_from_env`]).
    pub fn from_values(env: EmbedEnv) -> (r: Option<EmbedConfig>)
        ensures
            match r {
                Some(c) => config_from_env(env@) == Some(c@),
                None => config_from_env(env@) is None,
            },
    {
        let base_url = match non_blank(env.base_url) {
            Some(b) => b,
            None => {
                return None;
            },
        };
        let api_key = non_blank(env.api_key);
        let model = non_blank(env.model);
        let dimensions = match parse_var(&env.dimensions, u32::MAX as u64) {
            Some(d) => Some(d as u32),
            None => None,
        };
        let timeout = match parse_var(&env.timeout_secs, u64::MAX) {
            Some(t) => if t > 0 {
                Some(Duration::from_secs(t))
            } else {
                None
            },
            None => None,
        };
        let max_retries = match parse_var(&env.max_retries, u32::MAX as u64) {
            Some(r) => Some(r as u32),
            None => None,
        };
        let max_input_chars = match parse_var(&env.max_input_chars, usize::MAX as u64) {
            Some(c) => if c > 0 {
                Some(c as usize)
            } else {
                None
            },
            None => None,
        };
        Some(
            EmbedConfig::builder().base_url(base_url.as_str()).maybe_api_key(api_key).maybe_model(
                model,
            ).maybe_dimensions(dimensions).maybe_timeout(timeout).maybe_max_retries(
                max_retries,
            ).maybe_max_input_chars(max_input_chars).build(),
        )
    }

    /// Build from a variable lookup (`get` maps a variable name to its value, if set): reads the
    /// seven variables of [`EmbedEnv`] once each, in that order, and builds from what came back.
    pub fn from_lookup<F: Fn(&str) -> Option<String>>(get: F) -> (r: Option<EmbedConfig>)
        requires
            forall|key: &str| #[trigger] get.requires((key,)),
        ensures
            exists|e: EmbedEnv|
                {
                    &&& get.ensures(("OPENAI_BASE_URL",), e.base_url)
                    &&& get.ensures(("OPENAI_API_KEY",), e.api_key)
                    &&& get.ensures(("OPENAI_EMBEDDING_MODEL",), e.model)
                    &&& get.ensures(("OPENAI_EMBEDDING_DIMENSIONS",), e.dimensions)
                    &&& get.ensures(("OPENAI_EMBEDDING_TIMEOUT_SECS",), e.timeout_secs)
                    &&& get.ensures(("OPENAI_EMBEDDING_MAX_RETRIES",), e.max_retries)
                    &&& get.ensures(("OPENAI_EMBEDDING_MAX_INPUT_CHARS",), e.max_input_chars)
                    &&& match r {
                        Some(c) => config_from_env(e@) == Some(c@),
                        None => config_from_env(e@) is None,
                    }
                },
    {
        let env = EmbedEnv {
            base_url: get("OPENAI_BASE_URL"),
            api_key: get("OPENAI_API_KEY"),
            model: get("OPENAI_EMBEDDING_MODEL"),
            dimensions: get("OPENAI_EMBEDDING_DIMENSIONS"),
            timeout_secs: get("OPENAI_EMBEDDING_TIMEOUT_SECS"),
            max_retries: get("OPENAI_EMBEDDING_MAX_RETRIES"),
            max_input_chars: get("OPENAI_EMBEDDING_MAX_INPUT_CHARS"),
        };
        let ghost e = env;
        let r = Self::from_values(env);
        assert(get.ensures(("OPENAI_BASE_URL",), e.base_url));
        r
    }
}

/// Counters for one [`embed_chunks`] call.
#[derive(Debug, Default, Clone, Copy)]
pub struct EmbedStats {
    pub chunks_embedded: usize,
    pub batches: usize,
    pub retries: usize,
}

/// Why embedding failed.
pub enum EmbedError<E> {
    /// A batch request failed (after whatever retries it took).
    Request(E),
    /// A batch reply could not be aligned with its inputs.
    Align(AlignError),
}

/// A chunk as embedding prepares it: every field kept, `embed_input` set to the text the model
/// is sent for it.
pub open spec fn prepared(c: ChunkView, g: GraphView, cfg: EmbedConfigView) -> ChunkView {
    ChunkView {
        embed_input: Some(
            embed_input_text(c, g, cfg.max_context_refs as nat, cfg.max_input_chars as nat),
        ),
        ..c
    }
}

/// The end of the batch that starts at `start`: `batch` chunks on, or the end of all `n` chunks.
pub open spec fn batch_end(start: int, n: int, batch: int) -> int {
    if n - start < batch {
        n
    } else {
        start + batch
    }
}

/// The batch size actually used: `batch_size.max(1)`.
pub open spec fn effective_batch(batch_size: usize) -> int {
    if batch_size == 0 {
        1
    } else {
        batch_size as int
    }
}

/// The texts sent for chunks `start..end`.
pub open spec fn batch_inputs(cs: Seq<ChunkView>, start: int, end: int) -> Seq<Seq<char>> {
    cs.subrange(start, end).map_values(
        |c: ChunkView|
            match c.embed_input {
                Some(t) => t,
                None => Seq::empty(),
            },
    )
}

/// `reply` is something `embed` may return for a request carrying `inputs`.
pub open spec fn replied<V, E, F: Fn(&Vec<String>) -> Result<BatchReply<V>, E>>(
    embed: F,
    inputs: Seq<Seq<char>>,
    reply: BatchReply<V>,
) -> bool {
    exists|x: Vec<String>| views(x@) == inputs && #[trigger] embed.ensures((&x,), Ok(reply))
}

/// A request carrying `inputs` is something `embed` may fail with `e` for.
pub open spec fn request_failed<V, E, F: Fn(&Vec<String>) -> Result<BatchReply<V>, E>>(
    embed: F,
    inputs: Seq<Seq<char>>,
    e: E,
) -> bool {
    exists|x: Vec<String>| views(x@) == inputs && #[trigger] embed.ensures((&x,), Err(e))
}

/// How the batch of size `size` whose texts are `inputs` fails with `e`: a request for exactly
/// those texts failed with the request error, or `embed` replied for them with a reply that
/// [`align_response`] refuses with the alignment error.
pub open spec fn batch_failed<V, E, F: Fn(&Vec<String>) -> Result<BatchReply<V>, E>>(
    embed: F,
    inputs: Seq<Seq<char>>,
    size: nat,
    e: EmbedError<E>,
) -> bool {
    match e {
        EmbedError::Request(x) => request_failed(embed, inputs, x),
        EmbedError::Align(a) => exists|reply: BatchReply<V>|
            #[trigger] replied(embed, inputs, reply) && align_refusal(reply.data@, size) == Some(a),
    }
}

/// A run over `n` chunks that ended with `e`: the batches before some batch boundary `start < n`
/// were done as in a successful run (see [`batches_done`]), and the batch starting there, chunks
/// `start..batch_end(start, n, batch)`, is the one that failed with `e`.
pub open spec fn failed_at<V, E, F: Fn(&Vec<String>) -> Result<BatchReply<V>, E>>(
    embed: F,
    cs: Seq<ChunkView>,
    after: Seq<Chunk<V>>,
    n: int,
    batch: int,
    e: EmbedError<E>,
) -> bool {
    exists|records: Seq<BatchRecord<V>>, start: int|
        {
            &&& #[trigger] batches_done(embed, cs, after, records, start, n, batch)
            &&& 0 <= start < n
            &&& batch_failed(
                embed,
                batch_inputs(cs, start, batch_end(start, n, batch)),
                (batch_end(start, n, batch) - start) as nat,
                e,
            )
        }
}

/// One batch as it was sent and answered: the chunks `start..end` and the reply that came back.
pub struct BatchRecord<V> {
    pub start: int,
    pub end: int,
    pub reply: BatchReply<V>,
}

/// The retries all batches took together.
pub open spec fn retries_total<V>(records: Seq<BatchRecord<V>>) -> nat
    decreases records.len(),
{
    if records.len() == 0 {
        0
    } else {
        retries_total(records.drop_last()) + records.last().reply.retries as nat
    }
}

/// `records` cuts `0..upto` into consecutive batches of `batch` chunks (the last one shorter),
/// each answered by `embed` for exactly its chunks' texts in `cs`, with a reply whose indices are a
/// permutation of the batch, every vector of which sits on the chunk its index names in `after`.
#[verifier::opaque]
pub open spec fn batches_done<V, E, F: Fn(&Vec<String>) -> Result<BatchReply<V>, E>>(
    embed: F,
    cs: Seq<ChunkView>,
    after: Seq<Chunk<V>>,
    records: Seq<BatchRecord<V>>,
    upto: int,
    n: int,
    batch: int,
) -> bool {
    &&& (records.len() == 0 <==> upto == 0)
    &&& records.len() > 0 ==> records.last().end == upto
    &&& forall|k: int| 0 <= k < records.len() ==> #[trigger] batch_done_at(embed, cs, after, records, k, n, batch)
}

/// One record's facts, as [`batches_done`] states them for record `k` of `records`.
pub open spec fn batch_done_at<V, E, F: Fn(&Vec<String>) -> Result<BatchReply<V>, E>>(
    embed: F,
    cs: Seq<ChunkView>,
    after: Seq<Chunk<V>>,
    records: Seq<BatchRecord<V>>,
    k: int,
    n: int,
    batch: int,
) -> bool {
    let r = records[k];
    &&& r.start == (if k == 0 {
        0
    } else {
        records[k - 1].end
    })
    &&& r.end == batch_end(r.start, n, batch)
    &&& r.start < r.end
    &&& replied(embed, batch_inputs(cs, r.start, r.end), r.reply)
    &&& indices_permute(r.reply.data@, (r.end - r.start) as nat)
    &&& forall|m: int|
        0 <= m < r.end - r.start ==> after[r.start + (#[trigger] r.reply.data@[m]).0].embedding
            == Some(r.reply.data@[m].1)
}

proof fn lemma_batch_kept<V, E, F: Fn(&Vec<String>) -> Result<BatchReply<V>, E>>(
    embed: F,
    cs: Seq<ChunkView>,
    before: Seq<Chunk<V>>,
    after: Seq<Chunk<V>>,
    records: Seq<BatchRecord<V>>,
    rec: BatchRecord<V>,
    k: int,
    n: int,
    batch: int,
)
    requires
        0 <= k < records.len(),
        batch_done_at(embed, cs, before, records, k, n, batch),
        0 <= records[k].start,
        records[k].end <= rec.start,
        before.len() == n,
        after.len() == n,
        forall|t: int| 0 <= t < n && !(rec.start <= t < rec.end) ==> (#[trigger] after[t]) == before[t],
    ensures
        batch_done_at(embed, cs, after, records.push(rec), k, n, batch),
{
    let rs = records.push(rec);
    assert(rs[k] == records[k]);
    if k > 0 {
        assert(rs[k - 1] == records[k - 1]);
    }
    let r = records[k];
    assert forall|m: int| 0 <= m < r.end - r.start implies after[r.start
        + (#[trigger] r.reply.data@[m]).0].embedding == Some(r.reply.data@[m].1) by {
        assert(r.reply.data@[m].0 < r.end - r.start);
        assert(after[r.start + r.reply.data@[m].0] == before[r.start + r.reply.data@[m].0]);
    }
}

/// Recording one more answered batch, whose vectors were just put on its chunks, keeps
/// [`batches_done`] true up to the batch's end.
proof fn lemma_batches_extend<V, E, F: Fn(&Vec<String>) -> Result<BatchReply<V>, E>>(
    embed: F,
    cs: Seq<ChunkView>,
    before: Seq<Chunk<V>>,
    after: Seq<Chunk<V>>,
    records: Seq<BatchRecord<V>>,
    rec: BatchRecord<V>,
    n: int,
    batch: int,
    vectors: Seq<V>,
)
    requires
        batches_done(embed, cs, before, records, rec.start, n, batch),
        0 <= rec.start < rec.end <= n,
        rec.end == batch_end(rec.start, n, batch),
        before.len() == n,
        after.len() == n,
        replied(embed, batch_inputs(cs, rec.start, rec.end), rec.reply),
        indices_permute(rec.reply.data@, (rec.end - rec.start) as nat),
        vectors.len() == rec.end - rec.start,
        forall|k: int|
            0 <= k < rec.end - rec.start ==> vectors[(#[trigger] rec.reply.data@[k]).0 as int]
                == rec.reply.data@[k].1,
        forall|t: int| 0 <= t < n && !(rec.start <= t < rec.end) ==> (#[trigger] after[t]) == before[t],
        forall|t: int| rec.start <= t < rec.end ==> (#[trigger] after[t]).embedding == Some(
            vectors[t - rec.start],
        ),
    ensures
        batches_done(embed, cs, after, records.push(rec), rec.end, n, batch),
{
    reveal(batches_done);
    let rs = records.push(rec);
    assert(rs.drop_last() =~= records);
    assert forall|j: int| #![trigger records[j]] 0 <= j < records.len() implies records[j].start
        < records[j].end && (j > 0 ==> records[j].start == records[j - 1].end) by {
        assert(batch_done_at(embed, cs, before, records, j, n, batch));
    }
    if records.len() > 0 {
        assert(batch_done_at(embed, cs, before, records, 0, n, batch));
    }
    assert forall|k: int| 0 <= k < records.len() implies #[trigger] batch_done_at(
        embed,
        cs,
        after,
        rs,
        k,
        n,
        batch,
    ) by {
        assert(batch_done_at(embed, cs, before, records, k, n, batch));
        lemma_records_ordered(records, k, n, batch);
        lemma_records_start(records, k);
        lemma_batch_kept(embed, cs, before, after, records, rec, k, n, batch);
    }
    let k = records.len() as int;
    assert(rs[k] == rec);
    if k > 0 {
        assert(rs[k - 1] == records.last());
    }
    assert forall|m: int| 0 <= m < rec.end - rec.start implies after[rec.start
        + (#[trigger] rec.reply.data@[m]).0].embedding == Some(rec.reply.data@[m].1) by {
        assert(rec.reply.data@[m].0 < rec.end - rec.start);
    }
    assert(batch_done_at(embed, cs, after, rs, k, n, batch));
}

/// A record list that starts at 0 and runs on without gaps starts every batch at or after 0.
proof fn lemma_records_start<V>(records: Seq<BatchRecord<V>>, k: int)
    requires
        0 <= k < records.len(),
        records[0].start == 0,
        forall|j: int|
            #![trigger records[j]]
            0 <= j < records.len() ==> records[j].start < records[j].end && (j > 0 ==> records[j].start
                == records[j - 1].end),
    ensures
        0 <= records[k].start,
    decreases k,
{
    if k > 0 {
        lemma_records_start(records, k - 1);
        assert(records[k].start == records[k - 1].end);
    }
}

/// The batches of a record list come in order: each ends no later than the last one ends.
proof fn lemma_records_ordered<V>(records: Seq<BatchRecord<V>>, k: int, n: int, batch: int)
    requires
        0 <= k < records.len(),
        forall|j: int|
            #![trigger records[j]]
            0 <= j < records.len() ==> records[j].start < records[j].end && (j > 0 ==> records[j].start
                == records[j - 1].end),
    ensures
        records[k].end <= records.last().end,
    decreases records.len() - k,
{
    if k < records.len() - 1 {
        assert(records[k + 1].start == records[k].end);
        lemma_records_ordered(records, k + 1, n, batch);
    }
}

/// A record list that starts at 0 and runs on without gaps up to `upto` puts every position below
/// `upto` in one of its batches.
proof fn lemma_position_in_some_batch<V>(records: Seq<BatchRecord<V>>, upto: int, t: int) -> (k: int)
    requires
        records.len() > 0,
        records[0].start == 0,
        records.last().end == upto,
        0 <= t < upto,
        forall|j: int|
            #![trigger records[j]]
            0 <= j < records.len() ==> records[j].start < records[j].end && (j > 0 ==> records[j].start
                == records[j - 1].end),
    ensures
        0 <= k < records.len(),
        records[k].start <= t < records[k].end,
    decreases records.len(),
{
    let last = records.len() - 1;
    if t >= records[last].start {
        last
    } else {
        let prev = records.drop_last();
        assert(records[last].start == records[last - 1].end);
        assert forall|j: int|
            #![trigger prev[j]]
            0 <= j < prev.len() implies prev[j].start < prev[j].end && (j > 0 ==> prev[j].start
                == prev[j - 1].end) by {
            assert(prev[j] == records[j]);
            if j > 0 {
                assert(prev[j - 1] == records[j - 1]);
            }
        }
        let k = lemma_position_in_some_batch(prev, records[last].start, t);
        assert(prev[k] == records[k]);
        k
    }
}

/// A run that returns `Ok` leaves no chunk without a vector: every chunk sits in one batch, and a
/// batch's reply indices cover every position of the batch.
pub proof fn lemma_ok_run_embeds_every_chunk<V, E, F: Fn(&Vec<String>) -> Result<BatchReply<V>, E>>(
    embed: F,
    cs: Seq<ChunkView>,
    after: Seq<Chunk<V>>,
    records: Seq<BatchRecord<V>>,
    n: int,
    batch: int,
)
    requires
        batches_done(embed, cs, after, records, n, n, batch),
        after.len() == n,
    ensures
        forall|t: int| 0 <= t < n ==> (#[trigger] after[t]).embedding is Some,
{
    reveal(batches_done);
    assert forall|t: int| 0 <= t < n implies (#[trigger] after[t]).embedding is Some by {
        assert forall|j: int|
            #![trigger records[j]]
            0 <= j < records.len() implies records[j].start < records[j].end && (j > 0 ==> records[j].start
                == records[j - 1].end) by {
            assert(batch_done_at(embed, cs, after, records, j, n, batch));
        }
        assert(batch_done_at(embed, cs, after, records, 0, n, batch));
        let k = lemma_position_in_some_batch(records, n, t);
        assert(batch_done_at(embed, cs, after, records, k, n, batch));
        let r = records[k];
        let len = r.end - r.start;
        let idxs = r.reply.data@.map_values(|p: (usize, V)| p.0 as int);
        assert forall|a: int, b: int| 0 <= a < idxs.len() && 0 <= b < idxs.len() && a != b implies idxs[a]
            != idxs[b] by {
            if a < b {
                assert(r.reply.data@[a].0 != r.reply.data@[b].0);
            } else {
                assert(r.reply.data@[b].0 != r.reply.data@[a].0);
            }
        }
        assert forall|m: int| 0 <= m < len implies 0 <= #[trigger] idxs[m] < len by {
            assert(r.reply.data@[m].0 < len);
        }
        client::lemma_indices_cover(idxs, len);
        assert(idxs.contains(t - r.start));
        let m = choose|m: int| 0 <= m < idxs.len() && idxs[m] == t - r.start;
        assert(r.reply.data@[m].0 == t - r.start);
        assert(after[r.start + r.reply.data@[m].0].embedding == Some(r.reply.data@[m].1));
    }
}

/// Put `vectors` on chunks `start..end`, in order.
fn attach<V>(chunks: &mut Vec<Chunk<V>>, start: usize, end: usize, vectors: Vec<V>)
    requires
        start <= end <= old(chunks)@.len(),
        vectors@.len() == end - start,
    ensures
        final(chunks)@.len() == old(chunks)@.len(),
        views(final(chunks)@) == views(old(chunks)@),
        forall|t: int| 0 <= t < old(chunks)@.len() && !(start <= t < end) ==> (#[trigger] final(chunks)@[t])
            == old(chunks)@[t],
        forall|t: int| start <= t < end ==> (#[trigger] final(chunks)@[t]).embedding == Some(
            vectors@[t - start],
        ),
{
    let ghost before = chunks@;
    let ghost vs0 = vectors@;
    let mut vs = vectors;
    let mut j = end;
    while j > start
        invariant
            start <= j <= end <= before.len(),
            chunks@.len() == before.len(),
            vs0.len() == end - start,
            vs@ == vs0.take(j - start),
            views(chunks@) == views(before),
            forall|t: int| 0 <= t < before.len() && !(j <= t < end) ==> (#[trigger] chunks@[t]) == before[t],
            forall|t: int| j <= t < end ==> (#[trigger] chunks@[t]).embedding == Some(vs0[t - start]),
        decreases j - start,
    {
        j = j - 1;
        let ghost vb = vs@;
        let v = vs.pop().unwrap();
        assert(v == vs0[j - start]);
        assert(vs@ =~= vs0.take(j - start));
        let ghost cb = chunks@;
        chunks[j].embedding = Some(v);
        assert(views(chunks@) =~= views(cb));
    }
}

/// Embed every chunk of `chunks` in place: first set each chunk's `embed_input` to the graph-aware
/// text for it (see [`context::embed_input`]), then send the texts in batches of
/// `batch_size.max(1)` consecutive chunks through `embed` (which performs the request) and put each
/// returned vector on the chunk its index names. Nothing is sent when `chunks` is empty. The first
/// failed request or unalignable reply ends the run with that error; the chunks of the batches
/// before it keep their vectors.
pub fn embed_chunks<V, E, F: Fn(&Vec<String>) -> Result<BatchReply<V>, E>>(
    chunks: &mut Vec<Chunk<V>>,
    graph: &Graph,
    config: &EmbedConfig,
    batch_size: usize,
    embed: F,
) -> (r: Result<EmbedStats, EmbedError<E>>)
    requires
        forall|x: &Vec<String>| embed.requires((x,)),
    ensures
        final(chunks)@.len() == old(chunks)@.len(),
        old(chunks)@.len() == 0 ==> (r matches Ok(st) && st.chunks_embedded == 0 && st.batches == 0
            && st.retries == 0),
        old(chunks)@.len() > 0 ==> forall|t: int|
            0 <= t < old(chunks)@.len() ==> (#[trigger] final(chunks)@[t])@ == prepared(
                old(chunks)@[t]@,
                graph@,
                config@,
            ),
        match r {
            Ok(st) => {
                &&& st.chunks_embedded == old(chunks)@.len()
                &&& st.batches <= old(chunks)@.len()
                &&& exists|records: Seq<BatchRecord<V>>|
                    {
                        &&& #[trigger] batches_done(
                            embed,
                            views(final(chunks)@),
                            final(chunks)@,
                            records,
                            old(chunks)@.len() as int,
                            old(chunks)@.len() as int,
                            effective_batch(batch_size),
                        )
                        &&& st.batches == records.len()
                        &&& st.retries == if retries_total(records) > usize::MAX {
                            usize::MAX as nat
                        } else {
                            retries_total(records)
                        }
                    }
            },
            Err(e) => failed_at(
                embed,
                views(final(chunks)@),
                final(chunks)@,
                old(chunks)@.len() as int,
                effective_batch(batch_size),
                e,
            ),
        },
{
    let n = chunks.len();
    if n == 0 {
        proof {
            let none = Seq::<BatchRecord<V>>::empty();
            reveal(batches_done);
            assert(batches_done(embed, views(chunks@), chunks@, none, 0, 0, effective_batch(batch_size)));
        }
        return Ok(EmbedStats { chunks_embedded: 0, batches: 0, retries: 0 });
    }
    let ghost old_chunks = chunks@;
    let ghost g = graph@;
    let ghost cfg = config@;
    let index = ContextIndex::build(graph);
    let mut i: usize = 0;
    while i < n
        invariant
            i <= n,
            n == old_chunks.len(),
            chunks@.len() == n,
            index.wf(),
            index.graph_view() == g,
            g == graph@,
            cfg == config@,
            old_chunks == old(chunks)@,
            forall|t: int| 0 <= t < i ==> (#[trigger] chunks@[t])@ == prepared(old_chunks[t]@, g, cfg),
            forall|t: int| i <= t < n ==> (#[trigger] chunks@[t]) == old_chunks[t],
        decreases n - i,
    {
        let text = embed_input(&chunks[i], &index, config);
        chunks[i].embed_input = Some(text);
        i = i + 1;
    }
    let ghost prep = views(chunks@);
    let batch = if batch_size == 0 { 1 } else { batch_size };
    let mut stats = EmbedStats { chunks_embedded: 0, batches: 0, retries: 0 };
    let ghost mut records: Seq<BatchRecord<V>> = Seq::empty();
    proof {
        reveal(batches_done);
    }
    let mut start: usize = 0;
    while start < n
        invariant
            start <= n,
            n == old_chunks.len(),
            chunks@.len() == n,
            batch >= 1,
            batch as int == effective_batch(batch_size),
            views(chunks@) == prep,
            old_chunks == old(chunks)@,
            g == graph@,
            cfg == config@,
            forall|t: int| 0 <= t < n ==> (#[trigger] chunks@[t])@ == prepared(old_chunks[t]@, g, cfg),
            forall|x: &Vec<String>| embed.requires((x,)),
            batches_done(embed, prep, chunks@, records, start as int, n as int, batch as int),
            stats.chunks_embedded == start,
            stats.batches == records.len(),
            stats.batches <= start,
            stats.retries == if retries_total(records) > usize::MAX {
                usize::MAX as nat
            } else {
                retries_total(records)
            },
        decreases n - start,
    {
        let end = if n - start < batch { n } else { start + batch };
        let mut inputs: Vec<String> = Vec::new();
        let mut j = start;
        let ghost cb = chunks@;
        while j < end
            invariant
                start <= j <= end <= n,
                chunks@ == cb,
                chunks@.len() == n,
                views(chunks@) == prep,
                views(inputs@) == batch_inputs(prep, start as int, j as int),
            decreases end - j,
        {
            let text = match &chunks[j].embed_input {
                Some(t) => t.clone(),
                None => String::new(),
            };
            let ghost before = inputs@;
            inputs.push(text);
            assert(prep[j as int] == chunks@[j as int]@);
            assert(views(inputs@) =~= views(before).push(text@));
            assert(batch_inputs(prep, start as int, j + 1) =~= batch_inputs(prep, start as int, j as int).push(text@));
            assert(views(inputs@) =~= batch_inputs(prep, start as int, j + 1));
            j = j + 1;
        }
        let reply = match embed(&inputs) {
            Ok(reply) => reply,
            Err(e) => {
                assert(embed.ensures((&inputs,), Err(e)));
                assert(views(inputs@) == batch_inputs(prep, start as int, end as int));
                assert(request_failed(embed, batch_inputs(prep, start as int, end as int), e));
                assert(batch_failed(embed, batch_inputs(prep, start as int, end as int), (end - start) as nat, EmbedError::<E>::Request(e)));
                assert(batches_done(embed, prep, chunks@, records, start as int, n as int, batch as int));
                return Err(EmbedError::Request(e));
            },
        };
        let ghost rec = BatchRecord { start: start as int, end: end as int, reply };
        assert(replied(embed, batch_inputs(prep, start as int, end as int), reply)) by {
            assert(embed.ensures((&inputs,), Ok(reply)));
        }
        let retries = reply.retries;
        let vectors = match align_response(reply.data, end - start) {
            Ok(v) => v,
            Err(e) => {
                proof {
                    assert(align_refusal(reply.data@, (end - start) as nat) == Some(e));
                    assert(batch_failed(embed, batch_inputs(prep, start as int, end as int), (end - start) as nat, EmbedError::<E>::Align(e)));
                    assert(batches_done(embed, prep, chunks@, records, start as int, n as int, batch as int));
                }
                return Err(EmbedError::Align(e));
            },
        };
        let ghost before = chunks@;
        let ghost vs = vectors@;
        attach(chunks, start, end, vectors);
        let ghost old_records = records;
        proof {
            lemma_batches_extend(embed, prep, before, chunks@, records, rec, n as int, batch as int, vs);
            assert forall|t: int| 0 <= t < n implies (#[trigger] chunks@[t])@ == before[t]@ by {
                assert(views(chunks@)[t] == views(before)[t]);
            }
            records = records.push(rec);
        }
        stats.batches = stats.batches + 1;
        stats.chunks_embedded = stats.chunks_embedded + (end - start);
        stats.retries = stats.retries.saturating_add(retries);
        assert(records.drop_last() =~= old_records);
        start = end;
    }
    Ok(stats)
}

/// What [`embed_output`] does: `after` is `before` with every chunk prepared for `config` (see
/// [`prepared`]) and the graph kept; an empty output succeeds with zero counters and sends nothing;
/// on `Ok` every chunk sits in a batch done as [`batches_done`] states, and the run's counters are
/// added to `chunks_embedded` and `embed_batches`; on `Err` the counters are left as they were and
/// the error is that of the first failing batch (see [`failed_at`]).
pub open spec fn output_embedded<V, E, F: Fn(&Vec<String>) -> Result<BatchReply<V>, E>>(
    embed: F,
    before: IndexOutput<V>,
    after: IndexOutput<V>,
    config: EmbedConfigView,
    batch_size: usize,
    r: Result<EmbedStats, EmbedError<E>>,
) -> bool {
    let n = before.chunks@.len();
    &&& after.graph == before.graph
    &&& after.chunks@.len() == n
    &&& forall|t: int|
        0 <= t < n ==> (#[trigger] after.chunks@[t])@ == prepared(before.chunks@[t]@, before.graph@, config)
    &&& n == 0 ==> (r matches Ok(st) && st.chunks_embedded == 0 && st.batches == 0 && st.retries == 0)
    &&& match r {
        Ok(st) => {
            &&& st.chunks_embedded == n
            &&& st.batches <= n
            &&& after.stats == (crate::input::IndexStats {
                chunks_embedded: (before.stats.chunks_embedded + st.chunks_embedded) as usize,
                embed_batches: (before.stats.embed_batches + st.batches) as usize,
                ..before.stats
            })
            &&& exists|records: Seq<BatchRecord<V>>|
                {
                    &&& #[trigger] batches_done(
                        embed,
                        views(after.chunks@),
                        after.chunks@,
                        records,
                        n as int,
                        n as int,
                        effective_batch(batch_size),
                    )
                    &&& st.batches == records.len()
                    &&& st.retries == if retries_total(records) > usize::MAX {
                        usize::MAX as nat
                    } else {
                        retries_total(records)
                    }
                }
        },
        Err(e) => {
            &&& after.stats == before.stats
            &&& failed_at(embed, views(after.chunks@), after.chunks@, n as int, effective_batch(batch_size), e)
        },
    }
}

/// Embed every chunk of `output` in place (see [`embed_chunks`]), using `output.graph` for the
/// context headers, and add the run's counters to `output.stats.chunks_embedded` and
/// `embed_batches`.
pub fn embed_output<V, E, F: Fn(&Vec<String>) -> Result<BatchReply<V>, E>>(
    output: &mut IndexOutput<V>,
    config: &EmbedConfig,
    batch_size: usize,
    embed: F,
) -> (r: Result<EmbedStats, EmbedError<E>>)
    requires
        forall|x: &Vec<String>| embed.requires((x,)),
        old(output).stats.chunks_embedded + old(output).chunks@.len() <= usize::MAX,
        old(output).stats.embed_batches + old(output).chunks@.len() <= usize::MAX,
    ensures
        output_embedded(embed, *old(output), *final(output), config@, batch_size, r),
{
    let stats = match embed_chunks(&mut output.chunks, &output.graph, config, batch_size, embed) {
        Ok(st) => st,
        Err(e) => {
            return Err(e);
        },
    };
    output.stats.chunks_embedded = output.stats.chunks_embedded + stats.chunks_embedded;
    output.stats.embed_batches = output.stats.embed_batches + stats.batches;
    Ok(stats)
}

/// What `{:?}` renders for a string: the text quoted, with `str::escape_debug` escapes.
pub uninterp spec fn debug_str_text(s: Seq<char>) -> Seq<char>;

/// `format!("{:?}", s)` for a string. Claimed: the result is the value named [`debug_str_text`]
/// for the same characters.
#[verifier::external_body]
fn debug_str(s: &str) -> (r: String)
    ensures
        r@ == debug_str_text(s@),
{
    format!("{:?}", s)
}

/// What `{:?}` renders for a `Duration` (such as `30s` or `1.5s`).
pub uninterp spec fn debug_duration_text(d: Duration) -> Seq<char>;

/// `format!("{:?}", d)` for a `Duration`. Claimed: the result is the text named
/// [`debug_duration_text`] for the same duration; `Debug` for `Duration` renders from the value
/// alone.
#[verifier::external_body]
fn debug_duration(d: &Duration) -> (r: String)
    ensures
        r@ == debug_duration_text(*d),
{
    format!("{:?}", d)
}

/// `Some(<text>)` or `None`, as `{:?}` renders an option.
pub open spec fn debug_option(v: Option<Seq<char>>) -> Seq<char> {
    match v {
        Some(t) => "Some("@ + t + ")"@,
        None => "None"@,
    }
}

/// The debug text of a configuration, `timeout` rendered as `timeout_text`. The API key is never
/// rendered: only whether there is one shows, as `Some("<redacted>")` or `None`.
pub open spec fn config_debug_text(c: EmbedConfigView, timeout_text: Seq<char>) -> Seq<char> {
    "EmbedConfig { base_url: "@ + debug_str_text(c.base_url) + ", api_key: "@ + debug_option(
        match c.api_key {
            Some(_) => Some(debug_str_text("<redacted>"@)),
            None => None,
        },
    ) + ", model: "@ + debug_str_text(c.model) + ", dimensions: "@ + debug_option(
        match c.dimensions {
            Some(d) => Some(crate::text::decimal(d as nat)),
            None => None,
        },
    ) + ", timeout: "@ + timeout_text + ", max_retries: "@ + crate::text::decimal(c.max_retries as nat)
        + ", max_input_chars: "@ + crate::text::decimal(c.max_input_chars as nat)
        + ", max_context_refs: "@ + crate::text::decimal(c.max_context_refs as nat) + " }"@
}

/// The debug text never shows the API key: two configurations that differ only in the key's value
/// (both having one, or both not) render the same text.
pub proof fn lemma_debug_text_hides_api_key(a: EmbedConfigView, b: EmbedConfigView, timeout_text: Seq<char>)
    requires
        a.base_url == b.base_url,
        a.model == b.model,
        a.dimensions == b.dimensions,
        a.max_retries == b.max_retries,
        a.max_input_chars == b.max_input_chars,
        a.max_context_refs == b.max_context_refs,
        a.api_key is Some <==> b.api_key is Some,
    ensures
        config_debug_text(a, timeout_text) == config_debug_text(b, timeout_text),
{
}

fn push_debug_option(out: &mut String, v: Option<String>)
    ensures
        final(out)@ == old(out)@ + debug_option(crate::graph::opt_view(v)),
{
    match v {
        Some(t) => {
            out.append("Some(");
            out.append(t.as_str());
            out.append(")");
        },
        None => {
            out.append("None");
        },
    }
}

impl EmbedConfig {
    /// The configuration as `{:?}` would show it, with the API key redacted: an `api_key` never
    /// reaches a log line, a panic message or an error through this text.
    pub fn debug_string(&self) -> (r: String)
        ensures
            r@ == config_debug_text(self@, debug_duration_text(self@.timeout)),
    {
        let mut out = String::from_str("EmbedConfig { base_url: ");
        out.append(debug_str(self.base_url.as_str()).as_str());
        out.append(", api_key: ");
        let key = match &self.api_key {
            Some(_) => Some(debug_str("<redacted>")),
            None => None,
        };
        push_debug_option(&mut out, key);
        out.append(", model: ");
        out.append(debug_str(self.model.as_str()).as_str());
        out.append(", dimensions: ");
        let dims = match self.dimensions {
            Some(d) => Some(crate::text::u64_to_decimal(d as u64)),
            None => None,
        };
        push_debug_option(&mut out, dims);
        out.append(", timeout: ");
        let t = debug_duration(&self.timeout);
        out.append(t.as_str());
        out.append(", max_retries: ");
        out.append(crate::text::u64_to_decimal(self.max_retries as u64).as_str());
        out.append(", max_input_chars: ");
        out.append(crate::text::u64_to_decimal(self.max_input_chars as u64).as_str());
        out.append(", max_context_refs: ");
        out.append(crate::text::u64_to_decimal(self.max_context_refs as u64).as_str());
        out.append(" }");
        assert(out@ =~= config_debug_text(self@, t@));
        out
    }
}

} // verus!
