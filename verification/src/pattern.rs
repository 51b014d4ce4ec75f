//! Path templates and their compiled, matchable form.
//!
//! A template is a `/`-separated string.  Each non-empty segment is
//! either a literal (matched verbatim), an integer-typed placeholder
//! written `:name:` (matches one or more ASCII decimal digits), or a
//! string-typed placeholder written `$name$` (matches one or more ASCII
//! word characters: letters, digits, underscore).  Empty segments are
//! discarded, so `//a` compiles the same as `/a`, and the root template
//! `/` matches exactly the path `/`.  The placeholder classes are
//! ASCII by design; see the character classes' own documentation.

use vstd::prelude::*;
use vstd::string::StrSliceExecFns;
use vstd::string::StringExecFns;

use crate::params::Params;
use crate::text::{all_digits, all_words, is_digit, is_word, str_eq};

verus! {

/// The abstract form of one compiled segment: what it matches and, for
/// placeholders, the parameter name it captures under.
pub enum SegModel {
    Literal(Seq<char>),
    IntParam(Seq<char>),
    StrParam(Seq<char>),
}

/// One compiled segment of a path template.
#[derive(Debug)]
pub enum Segment {
    /// Matched verbatim.
    Literal(String),
    /// Captures one or more decimal digits under the given name.
    IntParam(String),
    /// Captures one or more word characters under the given name.
    StrParam(String),
}

impl View for Segment {
    type V = SegModel;

    open spec fn view(&self) -> SegModel {
        match self {
            Segment::Literal(s) => SegModel::Literal(s@),
            Segment::IntParam(s) => SegModel::IntParam(s@),
            Segment::StrParam(s) => SegModel::StrParam(s@),
        }
    }
}

/// The name a segment captures under, if it is a placeholder.
pub open spec fn seg_name(m: SegModel) -> Option<Seq<char>> {
    match m {
        SegModel::Literal(_) => None,
        SegModel::IntParam(n) => Some(n),
        SegModel::StrParam(n) => Some(n),
    }
}

/// Splitting a character sequence on `/`.  Splitting the empty sequence
/// gives one empty piece, so a sequence with `k` slashes always splits
/// into `k + 1` pieces.
pub open spec fn split_slash(s: Seq<char>) -> Seq<Seq<char>>
    decreases s.len(),
{
    if s.len() == 0 {
        seq![Seq::empty()]
    } else {
        let prev = split_slash(s.drop_last());
        if s.last() == '/' {
            prev.push(Seq::empty())
        } else {
            prev.update(prev.len() - 1, prev.last().push(s.last()))
        }
    }
}

pub proof fn lemma_split_slash_nonempty(s: Seq<char>)
    ensures
        split_slash(s).len() >= 1,
    decreases s.len(),
{
    if s.len() > 0 {
        lemma_split_slash_nonempty(s.drop_last());
    }
}

/// Splits a string on `/`.
pub fn split_on_slash(s: &str) -> (r: Vec<String>)
    ensures
        r@.map_values(|t: String| t@) == split_slash(s@),
{
    let n = s.unicode_len();
    let mut out: Vec<String> = Vec::new();
    let mut start: usize = 0;
    for i in 0..n
        invariant
            n == s@.len(),
            start <= i <= n,
            split_slash(s@.take(i as int)) =~~= out@.map_values(|t: String| t@).push(
                s@.subrange(start as int, i as int),
            ),
    {
        proof {
            assert(s@.take(i + 1).drop_last() =~= s@.take(i as int));
            assert(s@.take(i + 1).last() == s@[i as int]);
        }
        if s.get_char(i) == '/' {
            let ghost old_out = out@;
            let ghost old_start = start as int;
            let chunk = s.substring_char(start, i).to_owned();
            out.push(chunk);
            start = i + 1;
            proof {
                assert(out@.map_values(|t: String| t@) =~~= old_out.map_values(
                    |t: String| t@,
                ).push(s@.subrange(old_start, i as int)));
                assert(split_slash(s@.take(i + 1)) =~~= out@.map_values(|t: String| t@).push(
                    s@.subrange(start as int, i + 1),
                ));
            }
        } else {
            proof {
                let prev = split_slash(s@.take(i as int));
                lemma_split_slash_nonempty(s@.take(i as int));
                assert(prev.last() == s@.subrange(start as int, i as int));
                assert(s@.subrange(start as int, i as int).push(s@[i as int]) =~= s@.subrange(
                    start as int,
                    i + 1,
                ));
                assert(split_slash(s@.take(i + 1)) =~~= out@.map_values(|t: String| t@).push(
                    s@.subrange(start as int, i + 1),
                ));
            }
        }
    }
    let last = s.substring_char(start, n).to_owned();
    out.push(last);
    proof {
        assert(s@.take(n as int) =~= s@);
        assert(out@.map_values(|t: String| t@) =~~= split_slash(s@));
    }
    out
}

/// A chunk holds no separator.
pub open spec fn slash_free(c: Seq<char>) -> bool {
    forall|j: int| 0 <= j < c.len() ==> c[j] != '/'
}

/// Every piece of a split is free of separators.
pub proof fn lemma_split_slash_no_slash(s: Seq<char>)
    ensures
        forall|i: int| 0 <= i < split_slash(s).len() ==> slash_free(#[trigger] split_slash(s)[i]),
    decreases s.len(),
{
    if s.len() > 0 {
        lemma_split_slash_no_slash(s.drop_last());
        lemma_split_slash_nonempty(s.drop_last());
        let prev = split_slash(s.drop_last());
        let cur = split_slash(s);
        if s.last() == '/' {
            assert forall|i: int| 0 <= i < cur.len() implies slash_free(#[trigger] cur[i]) by {
                if i < prev.len() {
                    assert(cur[i] == prev[i]);
                }
            }
        } else {
            assert forall|i: int| 0 <= i < cur.len() implies slash_free(#[trigger] cur[i]) by {
                if i < prev.len() - 1 {
                    assert(cur[i] == prev[i]);
                } else {
                    assert(cur[i] == prev.last().push(s.last()));
                    assert(slash_free(prev[prev.len() - 1]));
                    assert forall|j: int| 0 <= j < cur[i].len() implies cur[i][j] != '/' by {
                        if j < cur[i].len() - 1 {
                            assert(cur[i][j] == prev.last()[j]);
                        }
                    }
                }
            }
        }
    }
}

/// A separator-free sequence splits into exactly itself.
pub proof fn lemma_split_single(c: Seq<char>)
    requires
        slash_free(c),
    ensures
        split_slash(c) == seq![c],
    decreases c.len(),
{
    if c.len() == 0 {
        assert(split_slash(c) =~~= seq![c]);
    } else {
        assert(slash_free(c.drop_last()));
        lemma_split_single(c.drop_last());
        assert(c.last() != '/');
        assert(c.drop_last().push(c.last()) =~= c);
        assert(split_slash(c) =~~= seq![c]);
    }
}

/// Appending a separator and a separator-free chunk appends one piece
/// to the split.
pub proof fn lemma_split_append(a: Seq<char>, c: Seq<char>)
    requires
        slash_free(c),
    ensures
        split_slash(a + seq!['/'] + c) == split_slash(a).push(c),
    decreases c.len(),
{
    if c.len() == 0 {
        assert(a + seq!['/'] + c =~= a.push('/'));
        assert(a.push('/').drop_last() =~= a);
        assert(a.push('/').last() == '/');
        assert(split_slash(a.push('/')) =~~= split_slash(a).push(c));
    } else {
        let s = a + seq!['/'] + c;
        assert(slash_free(c.drop_last()));
        lemma_split_append(a, c.drop_last());
        assert(s.drop_last() =~= a + seq!['/'] + c.drop_last());
        assert(s.last() == c.last());
        assert(s.last() != '/');
        let prev = split_slash(s.drop_last());
        assert(prev == split_slash(a).push(c.drop_last()));
        assert(prev.last() == c.drop_last());
        assert(prev.last().push(s.last()) =~= c);
        assert(split_slash(s) =~~= split_slash(a).push(c));
    }
}

/// A path built from chunks: a separator before each chunk.
pub open spec fn join_path(chunks: Seq<Seq<char>>) -> Seq<char>
    decreases chunks.len(),
{
    if chunks.len() == 0 {
        Seq::empty()
    } else {
        join_path(chunks.drop_last()) + seq!['/'] + chunks.last()
    }
}

/// Joining separator-free chunks and splitting again restores them.
pub proof fn lemma_join_split(chunks: Seq<Seq<char>>)
    requires
        chunks.len() >= 1,
        forall|i: int| 0 <= i < chunks.len() ==> slash_free(#[trigger] chunks[i]),
    ensures
        join_path(chunks).len() >= 1,
        join_path(chunks)[0] == '/',
        split_slash(join_path(chunks).skip(1)) == chunks,
    decreases chunks.len(),
{
    if chunks.len() == 1 {
        assert(join_path(chunks.drop_last()) == Seq::<char>::empty());
        assert(join_path(chunks) =~= seq!['/'] + chunks[0]);
        assert(join_path(chunks).skip(1) =~= chunks[0]);
        lemma_split_single(chunks[0]);
        assert(split_slash(join_path(chunks).skip(1)) =~~= chunks);
    } else {
        let prefix = chunks.drop_last();
        assert(forall|i: int| 0 <= i < prefix.len() ==> prefix[i] == chunks[i]);
        lemma_join_split(prefix);
        let c = chunks.last();
        assert(join_path(chunks) == join_path(prefix) + seq!['/'] + c);
        assert(join_path(chunks)[0] == join_path(prefix)[0]);
        assert(join_path(chunks).skip(1) =~= join_path(prefix).skip(1) + seq!['/'] + c);
        lemma_split_append(join_path(prefix).skip(1), c);
        assert(split_slash(join_path(chunks).skip(1)) =~~= chunks);
    }
}

/// What it means for one path chunk to satisfy one compiled segment.
pub open spec fn seg_matches(m: SegModel, chunk: Seq<char>) -> bool {
    match m {
        SegModel::Literal(l) => chunk == l,
        SegModel::IntParam(_) => chunk.len() >= 1 && (forall|i: int|
            0 <= i < chunk.len() ==> is_digit(chunk[i])),
        SegModel::StrParam(_) => chunk.len() >= 1 && (forall|i: int|
            0 <= i < chunk.len() ==> is_word(chunk[i])),
    }
}

/// An anchored match: the whole path, not a prefix or suffix, must be
/// `/` followed by exactly one matching chunk per segment.  A pattern
/// with no segments (the root template) matches exactly the path `/`.
pub open spec fn pattern_matches(segs: Seq<SegModel>, path: Seq<char>) -> bool {
    if segs.len() == 0 {
        path.len() == 1 && path[0] == '/'
    } else {
        &&& path.len() >= 1
        &&& path[0] == '/'
        &&& split_slash(path.skip(1)).len() == segs.len()
        &&& forall|i: int|
            0 <= i < segs.len() ==> seg_matches(segs[i], split_slash(path.skip(1))[i])
    }
}

/// An integer-typed placeholder never matches a chunk that contains a
/// non-digit character.
pub proof fn lemma_int_placeholder_rejects_non_digit(
    name: Seq<char>,
    chunk: Seq<char>,
    i: int,
)
    requires
        0 <= i < chunk.len(),
        !is_digit(chunk[i]),
    ensures
        !seg_matches(SegModel::IntParam(name), chunk),
{
}

/// A string-typed placeholder matches exactly the chunks of one or more
/// word characters; in particular it matches a chunk of pure digits.
pub proof fn lemma_str_placeholder_matches_words(name: Seq<char>, chunk: Seq<char>)
    ensures
        seg_matches(SegModel::StrParam(name), chunk) <==> (chunk.len() >= 1 && (forall|i: int|
            0 <= i < chunk.len() ==> is_word(chunk[i]))),
        (chunk.len() >= 1 && (forall|i: int| 0 <= i < chunk.len() ==> is_digit(chunk[i])))
            ==> seg_matches(SegModel::StrParam(name), chunk),
{
}

/// The parameters a matching chunk list yields: chunk `i` is recorded
/// under segment `i`'s name when that segment is a placeholder.
pub open spec fn spec_captures(segs: Seq<SegModel>, chunks: Seq<Seq<char>>) -> Map<
    Seq<char>,
    Seq<char>,
>
    decreases segs.len(),
{
    if segs.len() == 0 {
        Map::empty()
    } else {
        let m = spec_captures(segs.drop_last(), chunks.drop_last());
        match seg_name(segs.last()) {
            None => m,
            Some(n) => m.insert(n, chunks[segs.len() - 1]),
        }
    }
}

/// The parameter set extracted when `path` matches `segs`.
pub open spec fn spec_params_of(segs: Seq<SegModel>, path: Seq<char>) -> Map<
    Seq<char>,
    Seq<char>,
> {
    spec_captures(segs, split_slash(path.skip(1)))
}

/// Some placeholder of `segs` captures under `k`.
pub open spec fn has_param_name(segs: Seq<SegModel>, k: Seq<char>) -> bool {
    exists|j: int| 0 <= j < segs.len() && seg_name(segs[j]) == Some(k)
}

/// No two placeholders of one pattern capture under the same name.
pub open spec fn distinct_param_names(segs: Seq<SegModel>) -> bool {
    forall|i: int, j: int|
        0 <= i < j < segs.len() && seg_name(segs[i]) is Some && seg_name(segs[j]) is Some
            ==> seg_name(segs[i]) != seg_name(segs[j])
}

/// How many placeholders a pattern has.
pub open spec fn param_count(segs: Seq<SegModel>) -> nat
    decreases segs.len(),
{
    if segs.len() == 0 {
        0
    } else {
        param_count(segs.drop_last()) + if seg_name(segs.last()) is Some {
            1nat
        } else {
            0nat
        }
    }
}

/// A name is captured exactly when some placeholder carries it.
pub proof fn lemma_captures_dom(segs: Seq<SegModel>, chunks: Seq<Seq<char>>, k: Seq<char>)
    ensures
        spec_captures(segs, chunks).dom().contains(k) <==> (exists|i: int|
            0 <= i < segs.len() && seg_name(segs[i]) == Some(k)),
    decreases segs.len(),
{
    if segs.len() > 0 {
        lemma_captures_dom(segs.drop_last(), chunks.drop_last(), k);
        let last = segs.len() - 1;
        if seg_name(segs[last]) == Some(k) {
            assert(spec_captures(segs, chunks).dom().contains(k));
        } else {
            if exists|i: int| 0 <= i < segs.len() && seg_name(segs[i]) == Some(k) {
                let i = choose|i: int| 0 <= i < segs.len() && seg_name(segs[i]) == Some(k);
                assert(i < last);
                assert(seg_name(segs.drop_last()[i]) == Some(k));
            }
            if exists|i: int| 0 <= i < segs.drop_last().len() && seg_name(
                segs.drop_last()[i],
            ) == Some(k) {
                let i = choose|i: int|
                    0 <= i < segs.drop_last().len() && seg_name(segs.drop_last()[i]) == Some(k);
                assert(seg_name(segs[i]) == Some(k));
            }
        }
    }
}

/// With distinct names, the value captured for placeholder `i` is
/// exactly chunk `i`.
pub proof fn lemma_captures_get(segs: Seq<SegModel>, chunks: Seq<Seq<char>>, i: int)
    requires
        distinct_param_names(segs),
        chunks.len() == segs.len(),
        0 <= i < segs.len(),
        seg_name(segs[i]) is Some,
    ensures
        spec_captures(segs, chunks).dom().contains(seg_name(segs[i])->Some_0),
        spec_captures(segs, chunks)[seg_name(segs[i])->Some_0] == chunks[i],
    decreases segs.len(),
{
    let last = segs.len() - 1;
    if i == last {
    } else {
        assert(segs.drop_last()[i] == segs[i]);
        lemma_captures_get(segs.drop_last(), chunks.drop_last(), i);
        assert(seg_name(segs[last]) != seg_name(segs[i]));
        assert(chunks.drop_last()[i] == chunks[i]);
    }
}

/// With distinct names, a matching path yields exactly one entry per
/// placeholder.
pub proof fn lemma_captures_count(segs: Seq<SegModel>, chunks: Seq<Seq<char>>)
    requires
        distinct_param_names(segs),
    ensures
        spec_captures(segs, chunks).dom().finite(),
        spec_captures(segs, chunks).dom().len() == param_count(segs),
    decreases segs.len(),
{
    if segs.len() > 0 {
        lemma_captures_count(segs.drop_last(), chunks.drop_last());
        let last = segs.len() - 1;
        let prev = spec_captures(segs.drop_last(), chunks.drop_last());
        match seg_name(segs[last]) {
            None => {},
            Some(n) => {
                lemma_captures_dom(segs.drop_last(), chunks.drop_last(), n);
                assert(forall|j: int|
                    0 <= j < segs.drop_last().len() ==> segs.drop_last()[j] == segs[j]);
                assert(!prev.dom().contains(n));
                assert(spec_captures(segs, chunks).dom() =~= prev.dom().insert(n));
            },
        }
    }
}

/// Why a path template was rejected at registration time.
#[derive(Clone, Copy, Debug, PartialEq, Eq, Structural)]
pub enum TemplateError {
    /// The template does not begin with `/`.
    MissingLeadingSlash,
    /// A placeholder's name is empty or holds a non-word character.
    InvalidParamName,
    /// Two placeholders of one template share a name.
    DuplicateParamName,
}

/// How one non-empty template chunk compiles: a chunk of length greater
/// than two whose first and last characters are both `:` becomes an
/// integer placeholder, one delimited by `$` a string placeholder, and
/// any other chunk a literal.
pub open spec fn classify(c: Seq<char>) -> SegModel {
    if c.len() > 2 && c[0] == ':' && c.last() == ':' {
        SegModel::IntParam(c.subrange(1, c.len() - 1))
    } else if c.len() > 2 && c[0] == '$' && c.last() == '$' {
        SegModel::StrParam(c.subrange(1, c.len() - 1))
    } else {
        SegModel::Literal(c)
    }
}

/// A capture name must be one or more word characters.
pub open spec fn valid_name(n: Seq<char>) -> bool {
    n.len() >= 1 && (forall|i: int| 0 <= i < n.len() ==> is_word(n[i]))
}

/// Compiling a list of template chunks, left to right: empty chunks are
/// discarded, and the first invalid or duplicate placeholder name is the
/// error reported.
pub open spec fn compile_chunks(chunks: Seq<Seq<char>>, used: Set<Seq<char>>) -> Result<
    Seq<SegModel>,
    TemplateError,
>
    decreases chunks.len(),
{
    if chunks.len() == 0 {
        Ok(Seq::empty())
    } else if chunks[0].len() == 0 {
        compile_chunks(chunks.drop_first(), used)
    } else {
        let m = classify(chunks[0]);
        match seg_name(m) {
            None => match compile_chunks(chunks.drop_first(), used) {
                Ok(rest) => Ok(seq![m] + rest),
                Err(e) => Err(e),
            },
            Some(n) => {
                if !valid_name(n) {
                    Err(TemplateError::InvalidParamName)
                } else if used.contains(n) {
                    Err(TemplateError::DuplicateParamName)
                } else {
                    match compile_chunks(chunks.drop_first(), used.insert(n)) {
                        Ok(rest) => Ok(seq![m] + rest),
                        Err(e) => Err(e),
                    }
                }
            },
        }
    }
}

/// What compiling a whole template yields: its chunks compiled in
/// order, or the first registration error.
pub open spec fn spec_compile(t: Seq<char>) -> Result<Seq<SegModel>, TemplateError> {
    if t.len() == 0 || t[0] != '/' {
        Err(TemplateError::MissingLeadingSlash)
    } else {
        compile_chunks(split_slash(t), Set::empty())
    }
}

/// A literal segment holds no separator.
pub open spec fn lit_slash_free(m: SegModel) -> bool {
    match m {
        SegModel::Literal(l) => slash_free(l),
        SegModel::IntParam(_) => true,
        SegModel::StrParam(_) => true,
    }
}

proof fn lemma_compile_chunks_shape(chunks: Seq<Seq<char>>, used: Set<Seq<char>>)
    requires
        compile_chunks(chunks, used) is Ok,
        forall|i: int| 0 <= i < chunks.len() ==> slash_free(#[trigger] chunks[i]),
    ensures
        ({
            let segs = compile_chunks(chunks, used)->Ok_0;
            &&& distinct_param_names(segs)
            &&& forall|i: int| 0 <= i < segs.len() ==> lit_slash_free(#[trigger] segs[i])
            &&& forall|i: int|
                0 <= i < segs.len() && seg_name(#[trigger] segs[i]) is Some ==> !used.contains(
                    seg_name(segs[i])->Some_0,
                )
        }),
    decreases chunks.len(),
{
    if chunks.len() == 0 {
    } else {
        let rest_chunks = chunks.drop_first();
        assert(forall|i: int| 0 <= i < rest_chunks.len() ==> rest_chunks[i] == chunks[i + 1]);
        if chunks[0].len() == 0 {
            lemma_compile_chunks_shape(rest_chunks, used);
        } else {
            let m = classify(chunks[0]);
            let segs = compile_chunks(chunks, used)->Ok_0;
            match seg_name(m) {
                None => {
                    lemma_compile_chunks_shape(rest_chunks, used);
                    let rest = compile_chunks(rest_chunks, used)->Ok_0;
                    assert(segs == seq![m] + rest);
                    assert(segs[0] == m);
                    assert(forall|i: int| 1 <= i < segs.len() ==> segs[i] == rest[i - 1]);
                    assert(lit_slash_free(m));
                },
                Some(n) => {
                    lemma_compile_chunks_shape(rest_chunks, used.insert(n));
                    let rest = compile_chunks(rest_chunks, used.insert(n))->Ok_0;
                    assert(segs == seq![m] + rest);
                    assert(segs[0] == m);
                    assert(forall|i: int| 1 <= i < segs.len() ==> segs[i] == rest[i - 1]);
                },
            }
        }
    }
}

/// A compiled template has distinct capture names, and its literal
/// segments hold no separator.
pub proof fn lemma_compile_shape(t: Seq<char>)
    requires
        spec_compile(t) is Ok,
    ensures
        distinct_param_names(spec_compile(t)->Ok_0),
        forall|i: int|
            0 <= i < spec_compile(t)->Ok_0.len() ==> lit_slash_free(
                #[trigger] spec_compile(t)->Ok_0[i],
            ),
{
    lemma_split_slash_no_slash(t);
    lemma_compile_chunks_shape(split_slash(t), Set::empty());
}

/// The chunk a segment contributes to a substituted path: its own text
/// for a literal, the substituted value for a placeholder.
pub open spec fn chunk_of(seg: SegModel, val: Seq<char>) -> Seq<char> {
    match seg {
        SegModel::Literal(l) => l,
        SegModel::IntParam(_) => val,
        SegModel::StrParam(_) => val,
    }
}

/// The chunks of a path built by substituting `vals` into `segs`.
pub open spec fn substituted_chunks(segs: Seq<SegModel>, vals: Seq<Seq<char>>) -> Seq<Seq<char>> {
    Seq::new(segs.len(), |i: int| chunk_of(segs[i], vals[i]))
}

/// The path built by substituting `vals` into `segs`.
pub open spec fn substituted_path(segs: Seq<SegModel>, vals: Seq<Seq<char>>) -> Seq<char> {
    if segs.len() == 0 {
        seq!['/']
    } else {
        join_path(substituted_chunks(segs, vals))
    }
}

/// Round trip: compiling a template and matching the path built by
/// substituting a valid value for each placeholder succeeds, yields
/// exactly one captured entry per placeholder, and restores every
/// substituted value verbatim.
pub proof fn lemma_match_round_trip(t: Seq<char>, vals: Seq<Seq<char>>)
    requires
        spec_compile(t) is Ok,
        vals.len() == spec_compile(t)->Ok_0.len(),
        forall|i: int|
            0 <= i < vals.len() ==> seg_matches(
                #[trigger] spec_compile(t)->Ok_0[i],
                chunk_of(spec_compile(t)->Ok_0[i], vals[i]),
            ),
    ensures
        ({
            let segs = spec_compile(t)->Ok_0;
            let path = substituted_path(segs, vals);
            let params = spec_params_of(segs, path);
            &&& pattern_matches(segs, path)
            &&& params.dom().finite()
            &&& params.dom().len() == param_count(segs)
            &&& forall|i: int|
                0 <= i < segs.len() && seg_name(#[trigger] segs[i]) is Some ==> params.dom()
                    .contains(seg_name(segs[i])->Some_0) && params[seg_name(segs[i])->Some_0]
                    == chunk_of(segs[i], vals[i])
        }),
{
    let segs = spec_compile(t)->Ok_0;
    let path = substituted_path(segs, vals);
    lemma_compile_shape(t);
    if segs.len() == 0 {
        assert(spec_captures(segs, split_slash(path.skip(1))) == Map::<Seq<char>, Seq<char>>::empty());
        assert(spec_params_of(segs, path).dom() =~= Set::<Seq<char>>::empty());
    } else {
        let chunks = substituted_chunks(segs, vals);
        assert forall|i: int| 0 <= i < chunks.len() implies slash_free(#[trigger] chunks[i]) by {
            assert(chunks[i] == chunk_of(segs[i], vals[i]));
            assert(lit_slash_free(segs[i]));
            assert(seg_matches(segs[i], chunk_of(segs[i], vals[i])));
            match segs[i] {
                SegModel::Literal(l) => {},
                SegModel::IntParam(_) => {
                    assert forall|j: int| 0 <= j < chunks[i].len() implies chunks[i][j]
                        != '/' by {
                        assert(is_digit(chunks[i][j]));
                    }
                },
                SegModel::StrParam(_) => {
                    assert forall|j: int| 0 <= j < chunks[i].len() implies chunks[i][j]
                        != '/' by {
                        assert(is_word(chunks[i][j]));
                    }
                },
            }
        }
        lemma_join_split(chunks);
        assert(split_slash(path.skip(1)) == chunks);
        assert(pattern_matches(segs, path));
        lemma_captures_count(segs, chunks);
        assert forall|i: int|
            0 <= i < segs.len() && seg_name(#[trigger] segs[i]) is Some implies spec_params_of(
            segs,
            path,
        ).dom().contains(seg_name(segs[i])->Some_0) && spec_params_of(segs, path)[seg_name(
            segs[i],
        )->Some_0] == chunk_of(segs[i], vals[i]) by {
            lemma_captures_get(segs, chunks, i);
        }
    }
}

/// A path template, compiled once at registration time into an anchored
/// matcher with named, typed capture slots.
#[derive(Debug)]
pub struct CompiledPattern {
    segs: Vec<Segment>,
}

impl View for CompiledPattern {
    type V = Seq<SegModel>;

    closed spec fn view(&self) -> Seq<SegModel> {
        self.segs@.map_values(|g: Segment| g@)
    }
}

/// Whether some placeholder of `segs` already captures under `name`.
fn name_used(segs: &Vec<Segment>, name: &str) -> (r: bool)
    ensures
        r == has_param_name(segs@.map_values(|g: Segment| g@), name@),
{
    let n = segs.len();
    for j in 0..n
        invariant
            n == segs@.len(),
            forall|k: int| 0 <= k < j ==> seg_name(segs@[k]@) != Some(name@),
    {
        let found = match &segs[j] {
            Segment::Literal(_) => false,
            Segment::IntParam(nm) => str_eq(nm.as_str(), name),
            Segment::StrParam(nm) => str_eq(nm.as_str(), name),
        };
        if found {
            proof {
                let views = segs@.map_values(|g: Segment| g@);
                assert(seg_name(views[j as int]) == Some(name@));
            }
            return true;
        }
    }
    proof {
        let views = segs@.map_values(|g: Segment| g@);
        if has_param_name(views, name@) {
            let j = choose|j: int| 0 <= j < views.len() && seg_name(views[j]) == Some(name@);
            assert(seg_name(segs@[j]@) == Some(name@));
        }
    }
    false
}

impl CompiledPattern {
    /// Compilation rejects duplicate names, so every compiled pattern
    /// has distinct capture names.
    pub open spec fn wf(&self) -> bool {
        distinct_param_names(self@)
    }

    /// Compiles a path template.
    ///
    /// The template must begin with `/`.  Empty segments are discarded.
    /// A placeholder with an empty or non-word name, and a placeholder
    /// name already used earlier in the same template, are rejected
    /// here, at registration time, never at request time.
    pub fn compile(template: &str) -> (r: Result<CompiledPattern, TemplateError>)
        ensures
            match r {
                Ok(p) => spec_compile(template@) == Ok::<Seq<SegModel>, TemplateError>(p@)
                    && p.wf(),
                Err(e) => spec_compile(template@) == Err::<Seq<SegModel>, TemplateError>(e),
            },
    {
        let n = template.unicode_len();
        if n == 0 || template.get_char(0) != '/' {
            return Err(TemplateError::MissingLeadingSlash);
        }
        let chunks = split_on_slash(template);
        let ghost cviews = chunks@.map_values(|t: String| t@);
        let mut segs: Vec<Segment> = Vec::new();
        let ghost used = Set::<Seq<char>>::empty();
        let n_chunks = chunks.len();
        proof {
            assert(cviews.skip(0) =~= cviews);
        }
        for i in 0..n_chunks
            invariant
                n_chunks == chunks@.len(),
                cviews == chunks@.map_values(|t: String| t@),
                cviews == split_slash(template@),
                template@.len() >= 1 && template@[0] == '/',
                distinct_param_names(segs@.map_values(|g: Segment| g@)),
                forall|k: Seq<char>|
                    used.contains(k) <==> has_param_name(segs@.map_values(|g: Segment| g@), k),
                spec_compile(template@) == (match compile_chunks(cviews.skip(i as int), used) {
                    Ok(rest) => Ok::<Seq<SegModel>, TemplateError>(
                        segs@.map_values(|g: Segment| g@) + rest,
                    ),
                    Err(e) => Err::<Seq<SegModel>, TemplateError>(e),
                }),
        {
            let ghost old_views = segs@.map_values(|g: Segment| g@);
            let ghost old_used = used;
            proof {
                assert(cviews.skip(i as int)[0] == cviews[i as int]);
                assert(cviews.skip(i as int).drop_first() =~= cviews.skip(i + 1));
                assert(cviews.skip(i as int).len() > 0);
            }
            let c: &String = &chunks[i];
            proof {
                assert(c@ == cviews[i as int]);
            }
            let clen = c.as_str().unicode_len();
            if clen == 0 {
                // an empty chunk compiles to nothing
            } else {
                let first = c.as_str().get_char(0);
                let last_c = c.as_str().get_char(clen - 1);
                if clen > 2 && first == ':' && last_c == ':' {
                    let name = c.as_str().substring_char(1, clen - 1).to_owned();
                    proof {
                        assert(classify(cviews[i as int]) == SegModel::IntParam(name@));
                    }
                    if !all_words(name.as_str()) {
                        return Err(TemplateError::InvalidParamName);
                    }
                    if name_used(&segs, name.as_str()) {
                        return Err(TemplateError::DuplicateParamName);
                    }
                    segs.push(Segment::IntParam(name));
                    proof {
                        used = old_used.insert(name@);
                    }
                } else if clen > 2 && first == '$' && last_c == '$' {
                    let name = c.as_str().substring_char(1, clen - 1).to_owned();
                    proof {
                        assert(classify(cviews[i as int]) == SegModel::StrParam(name@));
                    }
                    if !all_words(name.as_str()) {
                        return Err(TemplateError::InvalidParamName);
                    }
                    if name_used(&segs, name.as_str()) {
                        return Err(TemplateError::DuplicateParamName);
                    }
                    segs.push(Segment::StrParam(name));
                    proof {
                        used = old_used.insert(name@);
                    }
                } else {
                    proof {
                        assert(classify(cviews[i as int]) == SegModel::Literal(c@));
                    }
                    segs.push(Segment::Literal(c.clone()));
                }
            }
            proof {
                let new_views = segs@.map_values(|g: Segment| g@);
                if segs@.len() > old_views.len() {
                    assert(new_views =~= old_views.push(segs@.last()@));
                    assert(forall|j: int|
                        0 <= j < old_views.len() ==> new_views[j] == old_views[j]);
                } else {
                    assert(new_views =~= old_views);
                }
                assert forall|k: Seq<char>| used.contains(k) implies has_param_name(
                    new_views,
                    k,
                ) by {
                    if old_used.contains(k) {
                        let j = choose|j: int|
                            0 <= j < old_views.len() && seg_name(old_views[j]) == Some(k);
                        assert(seg_name(new_views[j]) == Some(k));
                    } else {
                        assert(new_views.len() > old_views.len());
                        assert(seg_name(new_views[new_views.len() - 1]) == Some(k));
                    }
                }
                assert forall|k: Seq<char>| has_param_name(new_views, k) implies used.contains(
                    k,
                ) by {
                    let j = choose|j: int|
                        0 <= j < new_views.len() && seg_name(new_views[j]) == Some(k);
                    if j < old_views.len() {
                        assert(seg_name(old_views[j]) == Some(k));
                        assert(old_used.contains(k));
                    }
                }
                match compile_chunks(cviews.skip(i + 1), used) {
                    Ok(rest) => {
                        if cviews[i as int].len() == 0 {
                            assert(compile_chunks(cviews.skip(i as int), old_used)
                                == compile_chunks(cviews.skip(i + 1), old_used));
                        } else {
                            let m = classify(cviews[i as int]);
                            assert(old_views + (seq![m] + rest) =~= (old_views.push(m)) + rest);
                        }
                        assert(new_views + rest =~= new_views + rest);
                    },
                    Err(e) => {},
                }
            }
        }
        proof {
            assert(cviews.skip(n_chunks as int) =~= Seq::<Seq<char>>::empty());
            assert(compile_chunks(Seq::<Seq<char>>::empty(), used) == Ok::<
                Seq<SegModel>,
                TemplateError,
            >(Seq::empty()));
            assert(segs@.map_values(|g: Segment| g@) + Seq::<SegModel>::empty() =~= segs@
                .map_values(|g: Segment| g@));
        }
        Ok(CompiledPattern { segs })
    }

    /// The compiled segments, in order: the anchored matcher together
    /// with each placeholder's name and kind.
    pub fn segments(&self) -> (r: &Vec<Segment>)
        ensures
            r@.map_values(|g: Segment| g@) == self@,
    {
        &self.segs
    }

    /// Matches a full path against this pattern, returning the captured
    /// parameters on success.
    pub fn match_path(&self, path: &str) -> (r: Option<Params>)
        requires
            self.wf(),
        ensures
            r is Some <==> pattern_matches(self@, path@),
            match r {
                Some(p) => p.wf() && p@ == spec_params_of(self@, path@),
                None => true,
            },
    {
        let n_segs = self.segs.len();
        let n = path.unicode_len();
        if n_segs == 0 {
            if n == 1 && path.get_char(0) == '/' {
                Some(Params::new())
            } else {
                None
            }
        } else {
            if n == 0 || path.get_char(0) != '/' {
                return None;
            }
            let rest = path.substring_char(1, n);
            proof {
                assert(rest@ =~= path@.skip(1));
            }
            let chunks = split_on_slash(rest);
            let ghost cviews = chunks@.map_values(|t: String| t@);
            if chunks.len() != n_segs {
                return None;
            }
            let mut params = Params::new();
            for i in 0..n_segs
                invariant
                    n_segs == self.segs@.len(),
                    n_segs >= 1,
                    chunks@.len() == n_segs,
                    cviews == chunks@.map_values(|t: String| t@),
                    cviews == split_slash(path@.skip(1)),
                    path@.len() >= 1 && path@[0] == '/',
                    self.wf(),
                    forall|j: int| 0 <= j < i ==> seg_matches(self@[j], cviews[j]),
                    params.wf(),
                    params@ == spec_captures(self@.take(i as int), cviews.take(i as int)),
            {
                let c: &String = &chunks[i];
                proof {
                    assert(c@ == cviews[i as int]);
                    assert(self@[i as int] == self.segs@[i as int]@);
                }
                match &self.segs[i] {
                    Segment::Literal(l) => {
                        if !str_eq(c.as_str(), l.as_str()) {
                            proof {
                                assert(!seg_matches(self@[i as int], cviews[i as int]));
                            }
                            return None;
                        }
                    },
                    Segment::IntParam(nm) => {
                        if !all_digits(c.as_str()) {
                            proof {
                                assert(!seg_matches(self@[i as int], cviews[i as int]));
                            }
                            return None;
                        }
                        proof {
                            lemma_captures_dom(
                                self@.take(i as int),
                                cviews.take(i as int),
                                nm@,
                            );
                            if params@.dom().contains(nm@) {
                                let j = choose|j: int|
                                    0 <= j < self@.take(i as int).len() && seg_name(
                                        self@.take(i as int)[j],
                                    ) == Some(nm@);
                                assert(seg_name(self@[j]) == seg_name(self@[i as int]));
                                assert(false);
                            }
                        }
                        params.insert(nm.clone(), c.clone());
                    },
                    Segment::StrParam(nm) => {
                        if !all_words(c.as_str()) {
                            proof {
                                assert(!seg_matches(self@[i as int], cviews[i as int]));
                            }
                            return None;
                        }
                        proof {
                            lemma_captures_dom(
                                self@.take(i as int),
                                cviews.take(i as int),
                                nm@,
                            );
                            if params@.dom().contains(nm@) {
                                let j = choose|j: int|
                                    0 <= j < self@.take(i as int).len() && seg_name(
                                        self@.take(i as int)[j],
                                    ) == Some(nm@);
                                assert(seg_name(self@[j]) == seg_name(self@[i as int]));
                                assert(false);
                            }
                        }
                        params.insert(nm.clone(), c.clone());
                    },
                }
                proof {
                    assert(seg_matches(self@[i as int], cviews[i as int]));
                    assert(self@.take(i + 1).drop_last() =~= self@.take(i as int));
                    assert(cviews.take(i + 1).drop_last() =~= cviews.take(i as int));
                    assert(self@.take(i + 1).last() == self@[i as int]);
                    assert(cviews.take(i + 1)[i as int] == cviews[i as int]);
                }
            }
            proof {
                assert(self@.take(n_segs as int) =~= self@);
                assert(cviews.take(n_segs as int) =~= cviews);
                assert(pattern_matches(self@, path@));
            }
            Some(params)
        }
    }
}

} // verus!
