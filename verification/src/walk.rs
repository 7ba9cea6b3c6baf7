//! What a filesystem walk is configured with, and the decisions it takes around the indexing core:
//! which options carry over to the indexer, how the operator's extra ignore globs are read, how a
//! relative path is normalised, and when the indexed output is embedded.

use vstd::prelude::*;

use crate::embed::client::BatchReply;
use crate::embed::{embed_output, output_embedded, EmbedConfig, EmbedError, EmbedStats};
use crate::input::{IndexOptions, IndexOutput};
use crate::text::{chars_of, trim, trim_str};
use crate::tuning::IndexTuning;

verus! {

broadcast use vstd::seq_lib::group_seq_properties;

/// Options for a filesystem walk.
#[derive(Clone)]
pub struct WalkOptions {
    /// Chunking/window tuning.
    pub tuning: IndexTuning,
    /// Honour the repo's own `.gitignore` (and nested/parent ignore files). Default true.
    pub respect_gitignore: bool,
    /// Build the structural graph. Default false.
    pub build_graph: bool,
    /// Extract text from PDFs and index it. Default true.
    pub extract_pdfs: bool,
    /// Operator-configurable extra ignore globs, layered on top of the built-in defaults.
    pub extra_ignore_globs: Vec<String>,
    /// When `Some`, embed every chunk after indexing. `None` (the default) keeps the walk from
    /// dialling out at all.
    pub embed: Option<EmbedConfig>,
}

/// Builder for [`WalkOptions`]; every field starts at its default.
pub struct WalkOptionsBuilder {
    options: WalkOptions,
}

impl WalkOptions {
    /// A builder with every field at its default.
    pub fn builder() -> (b: WalkOptionsBuilder)
        ensures
            b.spec_options().tuning.embed_batch_size == 32,
            b.spec_options().tuning.max_chunk_lines == 150,
            b.spec_options().tuning.window_size == 100,
            b.spec_options().tuning.window_step == 50,
            b.spec_options().respect_gitignore,
            !b.spec_options().build_graph,
            b.spec_options().extract_pdfs,
            b.spec_options().extra_ignore_globs@.len() == 0,
            b.spec_options().embed is None,
    {
        WalkOptionsBuilder {
            options: WalkOptions {
                tuning: IndexTuning::default(),
                respect_gitignore: true,
                build_graph: false,
                extract_pdfs: true,
                extra_ignore_globs: Vec::new(),
                embed: None,
            },
        }
    }
}

impl WalkOptionsBuilder {
    /// The options built so far.
    pub closed spec fn spec_options(&self) -> WalkOptions {
        self.options
    }

    pub fn tuning(self, tuning: IndexTuning) -> (b: Self)
        ensures
            b.spec_options() == (WalkOptions { tuning, ..self.spec_options() }),
    {
        WalkOptionsBuilder { options: WalkOptions { tuning, ..self.options } }
    }

    pub fn respect_gitignore(self, respect_gitignore: bool) -> (b: Self)
        ensures
            b.spec_options() == (WalkOptions { respect_gitignore, ..self.spec_options() }),
    {
        WalkOptionsBuilder { options: WalkOptions { respect_gitignore, ..self.options } }
    }

    pub fn build_graph(self, build_graph: bool) -> (b: Self)
        ensures
            b.spec_options() == (WalkOptions { build_graph, ..self.spec_options() }),
    {
        WalkOptionsBuilder { options: WalkOptions { build_graph, ..self.options } }
    }

    pub fn extract_pdfs(self, extract_pdfs: bool) -> (b: Self)
        ensures
            b.spec_options() == (WalkOptions { extract_pdfs, ..self.spec_options() }),
    {
        WalkOptionsBuilder { options: WalkOptions { extract_pdfs, ..self.options } }
    }

    pub fn extra_ignore_globs(self, extra_ignore_globs: Vec<String>) -> (b: Self)
        ensures
            b.spec_options() == (WalkOptions { extra_ignore_globs, ..self.spec_options() }),
    {
        WalkOptionsBuilder { options: WalkOptions { extra_ignore_globs, ..self.options } }
    }

    pub fn embed(self, embed: EmbedConfig) -> (b: Self)
        ensures
            b.spec_options() == (WalkOptions { embed: Some(embed), ..self.spec_options() }),
    {
        WalkOptionsBuilder { options: WalkOptions { embed: Some(embed), ..self.options } }
    }

    pub fn maybe_embed(self, embed: Option<EmbedConfig>) -> (b: Self)
        ensures
            b.spec_options() == (WalkOptions { embed, ..self.spec_options() }),
    {
        WalkOptionsBuilder { options: WalkOptions { embed, ..self.options } }
    }

    pub fn build(self) -> (o: WalkOptions)
        ensures
            o == self.spec_options(),
    {
        self.options
    }
}

/// The indexer options a walk's options carry: exactly `tuning`, `build_graph` and
/// `extract_pdfs`. The reader-only fields (`respect_gitignore`, `extra_ignore_globs`) govern which
/// paths are handed over, and `embed` runs after indexing, so none of them has a counterpart.
pub open spec fn index_options_of(options: WalkOptions) -> IndexOptions {
    IndexOptions {
        tuning: options.tuning,
        build_graph: options.build_graph,
        extract_pdfs: options.extract_pdfs,
    }
}

impl<'a> From<&'a WalkOptions> for IndexOptions {
    fn from(options: &'a WalkOptions) -> (r: IndexOptions)
        ensures
            r == index_options_of(*options),
    {
        IndexOptions {
            tuning: options.tuning,
            build_graph: options.build_graph,
            extract_pdfs: options.extract_pdfs,
        }
    }
}

impl<'a> vstd::std_specs::convert::FromSpecImpl<&'a WalkOptions> for IndexOptions {
    open spec fn obeys_from_spec() -> bool {
        true
    }

    open spec fn from_spec(options: &'a WalkOptions) -> IndexOptions {
        index_options_of(*options)
    }
}

/// Two walks that differ only in their reader-only fields and their embedding configure the
/// indexer identically.
pub proof fn lemma_index_options_ignore_reader_fields(a: WalkOptions, b: WalkOptions)
    requires
        a.tuning == b.tuning,
        a.build_graph == b.build_graph,
        a.extract_pdfs == b.extract_pdfs,
    ensures
        index_options_of(a) == index_options_of(b),
{
}

/// A separator of the extra-ignore-globs list: a newline or a comma.
pub open spec fn is_glob_separator(c: char) -> bool {
    c == '\n' || c == ','
}

/// The pieces of `s` between separators: `k` separators give `k + 1` pieces, empty ones included.
pub open spec fn split_pieces(s: Seq<char>) -> Seq<Seq<char>>
    decreases s.len(),
{
    if s.len() == 0 {
        seq![Seq::empty()]
    } else {
        let prev = split_pieces(s.drop_last());
        if is_glob_separator(s.last()) {
            prev.push(Seq::empty())
        } else {
            prev.update(prev.len() - 1, prev.last().push(s.last()))
        }
    }
}

/// The trimmed pieces that are not empty, in order.
pub open spec fn kept_pieces(pieces: Seq<Seq<char>>) -> Seq<Seq<char>>
    decreases pieces.len(),
{
    if pieces.len() == 0 {
        Seq::empty()
    } else {
        let prev = kept_pieces(pieces.drop_last());
        let t = trim(pieces.last());
        if t.len() > 0 {
            prev.push(t)
        } else {
            prev
        }
    }
}

/// The globs an extra-ignore-globs value lists: split on newlines and commas, each piece trimmed,
/// empty pieces dropped.
pub open spec fn glob_list(s: Seq<char>) -> Seq<Seq<char>> {
    kept_pieces(split_pieces(s))
}

proof fn lemma_split_pieces_nonempty(s: Seq<char>)
    ensures
        split_pieces(s).len() >= 1,
    decreases s.len(),
{
    if s.len() > 0 {
        lemma_split_pieces_nonempty(s.drop_last());
    }
}

/// Every listed glob is trimmed and not empty.
pub proof fn lemma_globs_trimmed_and_non_empty(s: Seq<char>)
    ensures
        forall|i: int| 0 <= i < glob_list(s).len() ==> {
            &&& (#[trigger] glob_list(s)[i]).len() > 0
            &&& exists|p: Seq<char>| glob_list(s)[i] == trim(p)
        },
{
    lemma_kept_pieces_trimmed(split_pieces(s));
}

proof fn lemma_kept_pieces_trimmed(pieces: Seq<Seq<char>>)
    ensures
        forall|i: int| 0 <= i < kept_pieces(pieces).len() ==> {
            &&& (#[trigger] kept_pieces(pieces)[i]).len() > 0
            &&& exists|p: Seq<char>| kept_pieces(pieces)[i] == trim(p)
        },
    decreases pieces.len(),
{
    if pieces.len() > 0 {
        lemma_kept_pieces_trimmed(pieces.drop_last());
        let prev = kept_pieces(pieces.drop_last());
        assert forall|i: int| 0 <= i < kept_pieces(pieces).len() implies {
            &&& (#[trigger] kept_pieces(pieces)[i]).len() > 0
            &&& exists|p: Seq<char>| kept_pieces(pieces)[i] == trim(p)
        } by {
            if i < prev.len() {
                assert(kept_pieces(pieces)[i] == prev[i]);
            } else {
                assert(kept_pieces(pieces)[i] == trim(pieces.last()));
            }
        }
    }
}

/// The globs listed in `raw` (see [`glob_list`]).
pub fn parse_globs(raw: &str) -> (r: Vec<String>)
    ensures
        crate::graph::canon::views(r@) == glob_list(raw@),
{
    let v = chars_of(raw);
    let n = v.len();
    let mut out: Vec<String> = Vec::new();
    let mut start: usize = 0;
    let mut i: usize = 0;
    assert(v@.take(0) =~= Seq::<char>::empty());
    assert(v@.subrange(0, 0) =~= Seq::<char>::empty());
    while i < n
        invariant
            v@ == raw@,
            n == v@.len(),
            start <= i <= n,
            split_pieces(v@.take(i as int)).last() == v@.subrange(start as int, i as int),
            crate::graph::canon::views(out@) == kept_pieces(split_pieces(v@.take(i as int)).drop_last()),
            split_pieces(v@.take(i as int)).len() >= 1,
        decreases n - i,
    {
        let ghost prev = split_pieces(v@.take(i as int));
        assert(v@.take(i + 1).drop_last() =~= v@.take(i as int));
        assert(v@.take(i + 1).last() == v@[i as int]);
        if v[i] == '\n' || v[i] == ',' {
            let piece = raw.substring_char(start, i);
            let t = trim_str(piece);
            let ghost before = out@;
            if t.unicode_len() > 0 {
                out.push(String::from_str(t));
                assert(crate::graph::canon::views(out@) =~= crate::graph::canon::views(before).push(t@));
            }
            assert(prev.push(Seq::empty()).drop_last() =~= prev);
            assert(prev.drop_last().push(prev.last()) =~= prev);
            start = i + 1;
            assert(v@.subrange(start as int, start as int) =~= Seq::<char>::empty());
        } else {
            let ghost next = prev.update(prev.len() - 1, prev.last().push(v@[i as int]));
            assert(next.drop_last() =~= prev.drop_last());
            assert(v@.subrange(start as int, i + 1) =~= v@.subrange(start as int, i as int).push(v@[i as int]));
        }
        i = i + 1;
    }
    let ghost pieces = split_pieces(v@.take(n as int));
    let piece = raw.substring_char(start, n);
    let t = trim_str(piece);
    let ghost before = out@;
    if t.unicode_len() > 0 {
        out.push(String::from_str(t));
        assert(crate::graph::canon::views(out@) =~= crate::graph::canon::views(before).push(t@));
    }
    assert(pieces.drop_last().push(pieces.last()) =~= pieces);
    assert(v@.take(n as int) =~= v@);
    out
}

/// The extra ignore globs a variable's raw value lists; none when it is unset.
pub fn globs_from_value(value: &Option<String>) -> (r: Vec<String>)
    ensures
        crate::graph::canon::views(r@) == match crate::graph::opt_view(*value) {
            Some(s) => glob_list(s),
            None => Seq::empty(),
        },
{
    match value {
        Some(s) => parse_globs(s.as_str()),
        None => {
            let r: Vec<String> = Vec::new();
            assert(crate::graph::canon::views(r@) =~= Seq::<Seq<char>>::empty());
            r
        },
    }
}

/// A path with every backslash turned into a forward slash.
pub open spec fn forward_slashes_spec(s: Seq<char>) -> Seq<char> {
    s.map_values(|c: char| if c == '\\' { '/' } else { c })
}

/// Normalise a relative path to forward slashes.
pub fn forward_slashes(s: &str) -> (r: String)
    ensures
        r@ == forward_slashes_spec(s@),
{
    let v = chars_of(s);
    let n = v.len();
    let mut out = String::new();
    let mut start: usize = 0;
    let mut i: usize = 0;
    while i < n
        invariant
            v@ == s@,
            n == v@.len(),
            start <= i <= n,
            out@ + v@.subrange(start as int, i as int) == forward_slashes_spec(v@.take(i as int)),
        decreases n - i,
    {
        assert(v@.take(i + 1) =~= v@.take(i as int).push(v@[i as int]));
        assert(forward_slashes_spec(v@.take(i + 1)) =~= forward_slashes_spec(v@.take(i as int)).push(
            if v@[i as int] == '\\' { '/' } else { v@[i as int] },
        ));
        if v[i] == '\\' {
            let ghost before = out@;
            out.append(s.substring_char(start, i));
            out.append("/");
            proof {
                reveal_strlit("/");
            }
            assert(out@ =~= before + v@.subrange(start as int, i as int) + seq!['/']);
            start = i + 1;
            assert(v@.subrange(start as int, start as int) =~= Seq::<char>::empty());
            assert(out@ + v@.subrange(start as int, i + 1) =~= forward_slashes_spec(v@.take(i + 1)));
        } else {
            assert(v@.subrange(start as int, i + 1) =~= v@.subrange(start as int, i as int).push(v@[i as int]));
            assert(out@ + v@.subrange(start as int, i + 1) =~= forward_slashes_spec(v@.take(i + 1)));
        }
        i = i + 1;
    }
    out.append(s.substring_char(start, n));
    assert(v@.take(n as int) =~= v@);
    out
}

/// A walk's embedding result as [`crate::embed::embed_output`]'s: `Ok(Some(stats))` is
/// `Ok(stats)`, an error is itself (`Ok(None)`, no embedding, reads as zero counters).
pub open spec fn walk_embed_result<E>(r: Result<Option<EmbedStats>, EmbedError<E>>) -> Result<EmbedStats, EmbedError<E>> {
    match r {
        Ok(Some(st)) => Ok(st),
        Ok(None) => Ok(EmbedStats { chunks_embedded: 0, batches: 0, retries: 0 }),
        Err(e) => Err(e),
    }
}

/// After indexing, embed the output when the walk is configured to (see
/// [`crate::embed::embed_output`], with the walk's batch size); without an embedding configuration
/// nothing is sent and the output is left as it is.
pub fn embed_walk_output<V, E, F: Fn(&Vec<String>) -> Result<BatchReply<V>, E>>(
    output: &mut IndexOutput<V>,
    options: &WalkOptions,
    embed: F,
) -> (r: Result<Option<EmbedStats>, EmbedError<E>>)
    requires
        forall|x: &Vec<String>| embed.requires((x,)),
        old(output).stats.chunks_embedded + old(output).chunks@.len() <= usize::MAX,
        old(output).stats.embed_batches + old(output).chunks@.len() <= usize::MAX,
    ensures
        options.embed is None ==> r == Ok::<Option<EmbedStats>, EmbedError<E>>(None) && *final(output)
            == *old(output),
        match options.embed {
            Some(c) => {
                &&& !(r matches Ok(None))
                &&& output_embedded(
                    embed,
                    *old(output),
                    *final(output),
                    c@,
                    options.tuning.embed_batch_size,
                    walk_embed_result(r),
                )
            },
            None => true,
        },
{
    match &options.embed {
        Some(config) => {
            let stats = match embed_output(output, config, options.tuning.embed_batch_size, embed) {
                Ok(st) => st,
                Err(e) => {
                    return Err(e);
                },
            };
            Ok(Some(stats))
        },
        None => Ok(None),
    }
}

} // verus!
