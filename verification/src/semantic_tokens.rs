//! The token encoder for syntax highlighting: collects keyword tokens (the
//! directive keys) and string tokens (each non-zero-width value span, one per
//! physical line), sorts them into source order, and delta-encodes them.
//!
//! Delta encoding: the first token's line and column are absolute (the
//! previous position starts at line 0, column 0); each later token stores
//! `delta_line = line - previous line`, and `delta_start` is the column
//! difference when the line did not change, else the absolute column.

use vstd::prelude::*;

use crate::parser::DirectiveModel;
use crate::parser::SectionModel;
use crate::parser::SpanModel;
use crate::parser::SystemdParser;
use crate::parser::SystemdUnit;
use crate::parser::UnitModel;

verus! {

/// Token type index of a directive key.
pub const TOKEN_TYPE_KEYWORD: usize = 0;

/// Token type index of a value fragment.
pub const TOKEN_TYPE_STRING: usize = 1;

/// Model of a collected token.
pub ghost struct TokenModel {
    pub line: int,
    pub start: int,
    pub length: int,
    pub token_type: int,
    pub modifiers: int,
}

/// A token at an absolute position.
#[derive(Clone, Copy, Debug, PartialEq, Eq)]
pub struct TokenData {
    pub line: usize,
    pub start: usize,
    pub length: usize,
    pub token_type: usize,
    pub modifiers: usize,
}

impl View for TokenData {
    type V = TokenModel;

    open spec fn view(&self) -> TokenModel {
        TokenModel {
            line: self.line as int,
            start: self.start as int,
            length: self.length as int,
            token_type: self.token_type as int,
            modifiers: self.modifiers as int,
        }
    }
}

impl DeepView for TokenData {
    type V = TokenModel;

    open spec fn deep_view(&self) -> TokenModel {
        self.view()
    }
}

/// Model of a delta-encoded token.
pub ghost struct SemanticTokenModel {
    pub delta_line: int,
    pub delta_start: int,
    pub length: int,
    pub token_type: int,
    pub token_modifiers_bitset: int,
}

/// A delta-encoded token.
#[derive(Clone, Copy, Debug, PartialEq, Eq)]
pub struct SemanticToken {
    pub delta_line: usize,
    pub delta_start: usize,
    pub length: usize,
    pub token_type: usize,
    pub token_modifiers_bitset: usize,
}

impl View for SemanticToken {
    type V = SemanticTokenModel;

    open spec fn view(&self) -> SemanticTokenModel {
        SemanticTokenModel {
            delta_line: self.delta_line as int,
            delta_start: self.delta_start as int,
            length: self.length as int,
            token_type: self.token_type as int,
            token_modifiers_bitset: self.token_modifiers_bitset as int,
        }
    }
}

impl DeepView for SemanticToken {
    type V = SemanticTokenModel;

    open spec fn deep_view(&self) -> SemanticTokenModel {
        self.view()
    }
}

// ---------------------------------------------------------------------------
// Collection
// ---------------------------------------------------------------------------
/// The string tokens of the value spans from index `k` on: one per span of
/// non-zero width.
pub open spec fn spans_tokens(spans: Seq<SpanModel>, k: int) -> Seq<TokenModel>
    decreases spans.len() - k,
{
    if k < 0 || k >= spans.len() {
        Seq::empty()
    } else {
        let head: Seq<TokenModel> = if spans[k].end > spans[k].start {
            seq![
                TokenModel {
                    line: spans[k].line,
                    start: spans[k].start,
                    length: spans[k].end - spans[k].start,
                    token_type: TOKEN_TYPE_STRING as int,
                    modifiers: 0,
                },
            ]
        } else {
            Seq::empty()
        };
        head + spans_tokens(spans, k + 1)
    }
}

/// The tokens of one directive: a keyword token over a non-empty key range,
/// then one string token per non-zero-width value span.
pub open spec fn directive_tokens(d: DirectiveModel) -> Seq<TokenModel> {
    let head: Seq<TokenModel> = if d.col_end > d.col_start {
        seq![
            TokenModel {
                line: d.line_number,
                start: d.col_start,
                length: d.col_end - d.col_start,
                token_type: TOKEN_TYPE_KEYWORD as int,
                modifiers: 0,
            },
        ]
    } else {
        Seq::empty()
    };
    head + spans_tokens(d.value_spans, 0)
}

/// The tokens of the directives from index `k` on.
pub open spec fn directives_tokens(dirs: Seq<DirectiveModel>, k: int) -> Seq<TokenModel>
    decreases dirs.len() - k,
{
    if k < 0 || k >= dirs.len() {
        Seq::empty()
    } else {
        directive_tokens(dirs[k]) + directives_tokens(dirs, k + 1)
    }
}

/// All tokens of a document, sections and directives in model order.
pub open spec fn collect_spec(secs: Seq<SectionModel>, k: int) -> Seq<TokenModel>
    decreases secs.len() - k,
{
    if k < 0 || k >= secs.len() {
        Seq::empty()
    } else {
        directives_tokens(secs[k].directives, 0) + collect_spec(secs, k + 1)
    }
}

// ---------------------------------------------------------------------------
// Sorting
// ---------------------------------------------------------------------------
/// Source order on tokens: by line, then by start column.
pub open spec fn le_tok(a: TokenModel, b: TokenModel) -> bool {
    a.line < b.line || (a.line == b.line && a.start <= b.start)
}

/// Pairwise sortedness in source order.
pub open spec fn sorted_by_pos(ts: Seq<TokenModel>) -> bool {
    forall|i: int, j: int| 0 <= i <= j < ts.len() ==> le_tok(ts[i], ts[j])
}

/// Inserts `t` into `ts` after every element that is `le_tok` it, so that
/// equal positions keep their earlier-first order.
pub open spec fn insert_tok(ts: Seq<TokenModel>, t: TokenModel) -> Seq<TokenModel>
    decreases ts.len(),
{
    if ts.len() == 0 {
        seq![t]
    } else if le_tok(ts[0], t) {
        seq![ts[0]] + insert_tok(ts.drop_first(), t)
    } else {
        seq![t] + ts
    }
}

/// The stable insertion sort of the first `k` tokens of `ts`.
pub open spec fn sort_pref(ts: Seq<TokenModel>, k: int) -> Seq<TokenModel>
    decreases k,
{
    if k <= 0 {
        Seq::empty()
    } else {
        insert_tok(sort_pref(ts, k - 1), ts[k - 1])
    }
}

/// The tokens of `ts` in source order, stably sorted.
pub open spec fn sort_spec(ts: Seq<TokenModel>) -> Seq<TokenModel> {
    sort_pref(ts, ts.len() as int)
}

proof fn lemma_insert_tok(ts: Seq<TokenModel>, t: TokenModel)
    requires
        sorted_by_pos(ts),
    ensures
        sorted_by_pos(insert_tok(ts, t)),
        insert_tok(ts, t).len() == ts.len() + 1,
        insert_tok(ts, t).to_multiset() == ts.to_multiset().insert(t),
    decreases ts.len(),
{
    broadcast use vstd::seq_lib::group_seq_properties;

    if ts.len() == 0 {
        assert(seq![t].drop_first() =~= Seq::<TokenModel>::empty());
        assert(seq![t].to_multiset() =~= ts.to_multiset().insert(t));
    } else if le_tok(ts[0], t) {
        let rest = ts.drop_first();
        assert(sorted_by_pos(rest)) by {
            assert forall|i: int, j: int| 0 <= i <= j < rest.len() implies le_tok(
                #[trigger] rest[i],
                #[trigger] rest[j],
            ) by {
                assert(rest[i] == ts[i + 1]);
                assert(rest[j] == ts[j + 1]);
            }
        }
        lemma_insert_tok(rest, t);
        let inner = insert_tok(rest, t);
        let whole = seq![ts[0]] + inner;
        assert forall|i: int, j: int| 0 <= i <= j < whole.len() implies le_tok(
            whole[i],
            whole[j],
        ) by {
            if i == 0 && j > 0 {
                // The head is le_tok everything inserted: each element of
                // `inner` is either from `rest` or is `t` itself.
                assert(inner.to_multiset().contains(whole[j]));
                if inner.to_multiset() == rest.to_multiset().insert(t) {
                    if whole[j] == t {
                        assert(le_tok(ts[0], whole[j]));
                    } else {
                        assert(rest.to_multiset().contains(whole[j])
                            || whole[j] == t) by {
                            assert(inner.to_multiset().count(whole[j]) > 0);
                            if whole[j] != t {
                                assert(rest.to_multiset().insert(t).count(whole[j])
                                    == rest.to_multiset().count(whole[j]));
                            }
                        }
                        if rest.to_multiset().contains(whole[j]) {
                            let w = choose|w: int|
                                0 <= w < rest.len() && rest[w] == whole[j];
                            assert(le_tok(ts[0], ts[w + 1]));
                        }
                    }
                }
            }
        }
        assert(whole.to_multiset() =~= ts.to_multiset().insert(t)) by {
            vstd::seq_lib::lemma_multiset_commutative(seq![ts[0]], inner);
            vstd::seq_lib::lemma_multiset_commutative(seq![ts[0]], rest);
            assert(ts =~= seq![ts[0]] + rest);
        }
    } else {
        let whole = seq![t] + ts;
        assert forall|i: int, j: int| 0 <= i <= j < whole.len() implies le_tok(
            whole[i],
            whole[j],
        ) by {
            if i == 0 && j > 0 {
                assert(le_tok(t, ts[0]));
                assert(le_tok(ts[0], ts[j - 1]));
            }
        }
        assert(whole.to_multiset() =~= ts.to_multiset().insert(t)) by {
            vstd::seq_lib::lemma_multiset_commutative(seq![t], ts);
        }
    }
}

/// The stable sort keeps every token and orders them by source position.
pub proof fn lemma_sort_pref(ts: Seq<TokenModel>, k: int)
    requires
        0 <= k <= ts.len(),
    ensures
        sorted_by_pos(sort_pref(ts, k)),
        sort_pref(ts, k).len() == k,
        sort_pref(ts, k).to_multiset() == ts.subrange(0, k).to_multiset(),
    decreases k,
{
    broadcast use vstd::seq_lib::group_seq_properties;

    if k <= 0 {
        assert(ts.subrange(0, 0) =~= Seq::<TokenModel>::empty());
        assert(sort_pref(ts, k).to_multiset() =~= ts.subrange(0, 0).to_multiset());
    } else {
        lemma_sort_pref(ts, k - 1);
        lemma_insert_tok(sort_pref(ts, k - 1), ts[k - 1]);
        assert(ts.subrange(0, k) =~= ts.subrange(0, k - 1).push(ts[k - 1]));
        assert(ts.subrange(0, k - 1).push(ts[k - 1]).to_multiset() == ts.subrange(
            0,
            k - 1,
        ).to_multiset().insert(ts[k - 1]));
    }
}

/// Sorts tokens into source order (stable: tokens at equal positions keep
/// their collection order).
#[verifier::loop_isolation(false)]
pub fn sort_tokens(tokens: Vec<TokenData>) -> (r: Vec<TokenData>)
    ensures
        r.deep_view() == sort_spec(tokens.deep_view()),
        sorted_by_pos(r.deep_view()),
{
    let ghost ts = tokens.deep_view();
    let mut r: Vec<TokenData> = Vec::new();
    proof {
        assert(r.deep_view() =~= sort_pref(ts, 0));
        lemma_sort_pref(ts, 0);
    }
    let mut k: usize = 0;
    while k < tokens.len()
        invariant
            0 <= k <= tokens@.len(),
            r.deep_view() == sort_pref(ts, k as int),
            sorted_by_pos(r.deep_view()),
            r@.len() == k as int,
        decreases tokens@.len() - k,
    {
        let t = tokens[k];
        proof {
            assert(t@ == ts[k as int]);
        }
        // Scan from the end over elements that must come after `t`.
        let mut j: usize = r.len();
        while j > 0 && !le_tok_exec(&r[j - 1], &t)
            invariant
                0 <= j <= r@.len(),
                forall|i: int| j <= i < r@.len() ==> !le_tok(#[trigger] r.deep_view()[i], t@),
            decreases j,
        {
            j = j - 1;
        }
        proof {
            assert forall|i: int| 0 <= i < j implies le_tok(#[trigger] r.deep_view()[i], t@) by {
                assert(le_tok(r.deep_view()[i], r.deep_view()[j - 1]));
            }
            lemma_insert_at(r.deep_view(), t@, j as int);
        }
        let ghost before = r.deep_view();
        let ghost before_raw = r@;
        r.insert(j, t);
        proof {
            assert(r@ == before_raw.insert(j as int, t));
            assert forall|i: int| 0 <= i < r@.len() implies #[trigger] r.deep_view()[i]
                == (before.subrange(0, j as int) + seq![t@] + before.subrange(
                j as int,
                before.len() as int,
            ))[i] by {
                assert(r@[i] == before_raw.insert(j as int, t)[i]);
                if i < j {
                    assert(before_raw.insert(j as int, t)[i] == before_raw[i]);
                } else if i == j {
                    assert(before_raw.insert(j as int, t)[i] == t);
                } else {
                    assert(before_raw.insert(j as int, t)[i] == before_raw[i - 1]);
                }
            }
            assert(r.deep_view() =~= before.subrange(0, j as int) + seq![t@] + before.subrange(
                j as int,
                before.len() as int,
            ));
            assert(r.deep_view() == insert_tok(before, t@));
            lemma_insert_tok(before, t@);
        }
        k = k + 1;
    }
    proof {
        assert(r.deep_view() == sort_spec(ts));
    }
    r
}

/// Source-order comparison, executable.
fn le_tok_exec(a: &TokenData, b: &TokenData) -> (r: bool)
    ensures
        r == le_tok(a@, b@),
{
    a.line < b.line || (a.line == b.line && a.start <= b.start)
}

/// For a sorted sequence, inserting at the found boundary equals the
/// insertion the stable sort performs.
proof fn lemma_insert_at(ts: Seq<TokenModel>, t: TokenModel, j: int)
    requires
        sorted_by_pos(ts),
        0 <= j <= ts.len(),
        forall|i: int| 0 <= i < j ==> le_tok(#[trigger] ts[i], t),
        forall|i: int| j <= i < ts.len() ==> !le_tok(#[trigger] ts[i], t),
    ensures
        insert_tok(ts, t) == ts.subrange(0, j) + seq![t] + ts.subrange(j, ts.len() as int),
    decreases ts.len(),
{
    if ts.len() == 0 {
        assert(insert_tok(ts, t) =~= ts.subrange(0, j) + seq![t] + ts.subrange(
            j,
            ts.len() as int,
        ));
    } else if le_tok(ts[0], t) {
        assert(j >= 1);
        let rest = ts.drop_first();
        assert(sorted_by_pos(rest)) by {
            assert forall|a: int, b: int| 0 <= a <= b < rest.len() implies le_tok(
                #[trigger] rest[a],
                #[trigger] rest[b],
            ) by {
                assert(rest[a] == ts[a + 1]);
                assert(rest[b] == ts[b + 1]);
            }
        }
        assert(forall|i: int| 0 <= i < j - 1 ==> le_tok(#[trigger] rest[i], t));
        assert(forall|i: int| j - 1 <= i < rest.len() ==> !le_tok(#[trigger] rest[i], t));
        lemma_insert_at(rest, t, j - 1);
        assert(insert_tok(ts, t) =~= ts.subrange(0, j) + seq![t] + ts.subrange(
            j,
            ts.len() as int,
        ));
    } else {
        assert(j == 0);
        assert(insert_tok(ts, t) =~= ts.subrange(0, j) + seq![t] + ts.subrange(
            j,
            ts.len() as int,
        ));
    }
}

// ---------------------------------------------------------------------------
// Delta encoding
// ---------------------------------------------------------------------------
/// The delta encoding of the tokens from index `k` on, given the previous
/// token's absolute position (line 0, column 0 before the first token):
/// `delta_line` is the line difference; `delta_start` is the absolute column
/// when the line changed, else the column difference.
pub open spec fn encode_from(
    ts: Seq<TokenModel>,
    k: int,
    prev_line: int,
    prev_start: int,
) -> Seq<SemanticTokenModel>
    decreases ts.len() - k,
{
    if k < 0 || k >= ts.len() {
        Seq::empty()
    } else {
        let t = ts[k];
        let dl = t.line - prev_line;
        let ds = if dl != 0 {
            t.start
        } else {
            t.start - prev_start
        };
        seq![
            SemanticTokenModel {
                delta_line: dl,
                delta_start: ds,
                length: t.length,
                token_type: t.token_type,
                token_modifiers_bitset: t.modifiers,
            },
        ] + encode_from(ts, k + 1, t.line, t.start)
    }
}

/// The delta encoding of a sorted token stream.
pub open spec fn encode_spec(ts: Seq<TokenModel>) -> Seq<SemanticTokenModel> {
    encode_from(ts, 0, 0, 0)
}

/// All tokens of a document, sorted and delta-encoded.
pub open spec fn semantic_tokens_spec(m: UnitModel) -> Seq<SemanticTokenModel> {
    encode_spec(sort_spec(collect_spec(m.sections, 0)))
}

/// The token encoder.
#[derive(Debug)]
pub struct SystemdSemanticTokens;

impl SystemdSemanticTokens {
    /// A token encoder.
    pub fn new() -> SystemdSemanticTokens {
        SystemdSemanticTokens
    }

    /// The token type names, in index order: `TOKEN_TYPE_KEYWORD` then
    /// `TOKEN_TYPE_STRING`.
    pub fn legend() -> (r: Vec<String>)
        ensures
            r.deep_view() =~= seq!["keyword"@, "string"@],
    {
        let mut r: Vec<String> = Vec::new();
        r.push(String::from_str("keyword"));
        r.push(String::from_str("string"));
        proof {
            assert(r.deep_view() =~= seq!["keyword"@, "string"@]);
        }
        r
    }

    /// Collects the unsorted tokens of a document: per section and directive
    /// in model order, a keyword token for each non-empty key range and a
    /// string token for each non-zero-width value span.
    #[verifier::loop_isolation(false)]
    pub fn collect_tokens(unit: &SystemdUnit) -> (r: Vec<TokenData>)
        ensures
            r.deep_view() == collect_spec(unit@.sections, 0),
    {
        let ghost secs = unit@.sections;
        let mut tokens: Vec<TokenData> = Vec::new();
        proof {
            assert(tokens.deep_view() =~= Seq::<TokenModel>::empty());
            assert(tokens.deep_view() + collect_spec(secs, 0) =~= collect_spec(secs, 0));
        }
        let mut si: usize = 0;
        while si < unit.sections.len()
            invariant
                0 <= si <= unit.sections@.len(),
                tokens.deep_view() + collect_spec(secs, si as int) == collect_spec(secs, 0),
            decreases unit.sections@.len() - si,
        {
            let section = &unit.sections[si];
            proof {
                assert(section@ == secs[si as int]);
            }
            let ghost dirs = section@.directives;
            let mut di: usize = 0;
            proof {
                assert(collect_spec(secs, si as int) =~= directives_tokens(dirs, 0)
                    + collect_spec(secs, si + 1));
            }
            while di < section.directives.len()
                invariant
                    0 <= di <= section.directives@.len(),
                    tokens.deep_view() + directives_tokens(dirs, di as int) + collect_spec(
                        secs,
                        si + 1,
                    ) == collect_spec(secs, 0),
                decreases section.directives@.len() - di,
            {
                let directive = &section.directives[di];
                proof {
                    assert(directive@ == dirs[di as int]);
                }
                let ghost before = tokens.deep_view();
                if directive.column_range.1 > directive.column_range.0 {
                    let ghost raw = tokens@;
                    let t = TokenData {
                        line: directive.line_number,
                        start: directive.column_range.0,
                        length: directive.column_range.1 - directive.column_range.0,
                        token_type: TOKEN_TYPE_KEYWORD,
                        modifiers: 0,
                    };
                    tokens.push(t);
                    proof {
                        assert(tokens@ == raw.push(t));
                        assert forall|x: int| 0 <= x < tokens@.len() implies
                            #[trigger] tokens.deep_view()[x] == before.push(t@)[x] by {
                            assert(tokens@[x] == raw.push(t)[x]);
                            if x < raw.len() {
                                assert(raw.push(t)[x] == raw[x]);
                            }
                        }
                        assert(tokens.deep_view() =~= before.push(t@));
                    }
                }
                let ghost after_key = tokens.deep_view();
                let ghost spans = directive@.value_spans;
                let mut vi: usize = 0;
                proof {
                    assert(after_key + spans_tokens(spans, 0) + directives_tokens(dirs, di + 1)
                        + collect_spec(secs, si + 1) =~= collect_spec(secs, 0));
                }
                while vi < directive.value_spans.len()
                    invariant
                        0 <= vi <= directive.value_spans@.len(),
                        tokens.deep_view() + spans_tokens(spans, vi as int) + directives_tokens(
                            dirs,
                            di + 1,
                        ) + collect_spec(secs, si + 1) == collect_spec(secs, 0),
                    decreases directive.value_spans@.len() - vi,
                {
                    let span = directive.value_spans[vi];
                    proof {
                        assert(span@ == spans[vi as int]);
                    }
                    let ghost before_s = tokens.deep_view();
                    if span.end > span.start {
                        let ghost raw = tokens@;
                        let t = TokenData {
                            line: span.line,
                            start: span.start,
                            length: span.end - span.start,
                            token_type: TOKEN_TYPE_STRING,
                            modifiers: 0,
                        };
                        tokens.push(t);
                        proof {
                            assert(tokens@ == raw.push(t));
                            assert forall|x: int| 0 <= x < tokens@.len() implies
                                #[trigger] tokens.deep_view()[x] == before_s.push(t@)[x] by {
                                assert(tokens@[x] == raw.push(t)[x]);
                                if x < raw.len() {
                                    assert(raw.push(t)[x] == raw[x]);
                                }
                            }
                            assert(tokens.deep_view() =~= before_s.push(t@));
                        }
                    }
                    proof {
                        assert(spans_tokens(spans, vi as int) =~= (if spans[vi as int].end
                            > spans[vi as int].start {
                            seq![
                                TokenModel {
                                    line: spans[vi as int].line,
                                    start: spans[vi as int].start,
                                    length: spans[vi as int].end - spans[vi as int].start,
                                    token_type: TOKEN_TYPE_STRING as int,
                                    modifiers: 0,
                                },
                            ]
                        } else {
                            Seq::<TokenModel>::empty()
                        }) + spans_tokens(spans, vi + 1));
                        assert(tokens.deep_view() + spans_tokens(spans, vi + 1)
                            + directives_tokens(dirs, di + 1) + collect_spec(secs, si + 1)
                            =~= collect_spec(secs, 0));
                    }
                    vi = vi + 1;
                }
                proof {
                    assert(spans_tokens(spans, directive.value_spans@.len() as int)
                        =~= Seq::<TokenModel>::empty());
                    assert(tokens.deep_view() + directives_tokens(dirs, di + 1) + collect_spec(
                        secs,
                        si + 1,
                    ) =~= collect_spec(secs, 0));
                }
                di = di + 1;
            }
            proof {
                assert(directives_tokens(dirs, section.directives@.len() as int)
                    =~= Seq::<TokenModel>::empty());
                assert(tokens.deep_view() + collect_spec(secs, si + 1) =~= collect_spec(secs, 0));
            }
            si = si + 1;
        }
        proof {
            assert(collect_spec(secs, si as int) =~= Seq::<TokenModel>::empty());
            assert(tokens.deep_view() =~= collect_spec(secs, 0));
        }
        tokens
    }

    /// Delta-encodes a sorted token stream.
    #[verifier::loop_isolation(false)]
    pub fn encode_tokens(tokens: Vec<TokenData>) -> (r: Vec<SemanticToken>)
        requires
            sorted_by_pos(tokens.deep_view()),
        ensures
            r.deep_view() == encode_spec(tokens.deep_view()),
    {
        let ghost ts = tokens.deep_view();
        let mut data: Vec<SemanticToken> = Vec::new();
        let mut previous_line: usize = 0;
        let mut previous_start: usize = 0;
        proof {
            assert(data.deep_view() =~= Seq::<SemanticTokenModel>::empty());
            assert(data.deep_view() + encode_from(ts, 0, 0, 0) =~= encode_spec(ts));
        }
        let mut k: usize = 0;
        while k < tokens.len()
            invariant
                0 <= k <= tokens@.len(),
                data.deep_view() + encode_from(ts, k as int, previous_line as int,
                    previous_start as int) == encode_spec(ts),
                k == 0 ==> previous_line == 0 && previous_start == 0,
                k > 0 ==> previous_line as int == ts[k - 1].line && previous_start as int
                    == ts[k - 1].start,
            decreases tokens@.len() - k,
        {
            let t = tokens[k];
            proof {
                assert(t@ == ts[k as int]);
                if k > 0 {
                    assert(le_tok(ts[k - 1], ts[k as int]));
                }
            }
            let line_delta = t.line - previous_line;
            let start_delta = if line_delta != 0 {
                t.start
            } else {
                t.start - previous_start
            };
            let ghost raw = data@;
            let ghost before = data.deep_view();
            let e = SemanticToken {
                delta_line: line_delta,
                delta_start: start_delta,
                length: t.length,
                token_type: t.token_type,
                token_modifiers_bitset: t.modifiers,
            };
            data.push(e);
            proof {
                assert(data@ == raw.push(e));
                assert forall|x: int| 0 <= x < data@.len() implies #[trigger] data.deep_view()[x]
                    == before.push(e@)[x] by {
                    assert(data@[x] == raw.push(e)[x]);
                    if x < raw.len() {
                        assert(raw.push(e)[x] == raw[x]);
                    }
                }
                assert(data.deep_view() =~= before.push(e@));
                assert(encode_from(ts, k as int, previous_line as int, previous_start as int)
                    =~= seq![e@] + encode_from(ts, k + 1, t.line as int, t.start as int));
                assert(data.deep_view() + encode_from(ts, k + 1, t.line as int, t.start as int)
                    =~= encode_spec(ts));
            }
            previous_line = t.line;
            previous_start = t.start;
            k = k + 1;
        }
        proof {
            assert(encode_from(ts, k as int, previous_line as int, previous_start as int)
                =~= Seq::<SemanticTokenModel>::empty());
            assert(data.deep_view() =~= encode_spec(ts));
        }
        data
    }

    /// The delta-encoded token stream of the document stored under `id`, if
    /// one is stored: collected, sorted into source order, and encoded.
    pub fn get_semantic_tokens(&self, parser: &SystemdParser, id: &str) -> (r: Option<
        Vec<SemanticToken>,
    >)
        ensures
            match r {
                Some(data) => parser@.contains_key(id@) && data.deep_view()
                    == semantic_tokens_spec(parser@[id@]),
                None => !parser@.contains_key(id@),
            },
    {
        match parser.get_parsed_document(id) {
            Some(unit) => {
                let tokens = Self::collect_tokens(&unit);
                proof {
                    lemma_sort_pref(tokens.deep_view(), tokens.deep_view().len() as int);
                }
                let sorted = sort_tokens(tokens);
                let data = Self::encode_tokens(sorted);
                Some(data)
            },
            None => None,
        }
    }
}

// ---------------------------------------------------------------------------
// Laws of the encoding
// ---------------------------------------------------------------------------
/// The encoded stream has one element per token, and each element after the
/// first is determined by its token and the previous token alone.
proof fn lemma_encode_from_index(ts: Seq<TokenModel>, k: int, pl: int, ps: int, i: int)
    requires
        0 <= k <= i < ts.len(),
    ensures
        encode_from(ts, k, pl, ps).len() == ts.len() - k,
        ({
            let enc = encode_from(ts, k, pl, ps);
            let prev_line = if i == k {
                pl
            } else {
                ts[i - 1].line
            };
            let prev_start = if i == k {
                ps
            } else {
                ts[i - 1].start
            };
            let dl = ts[i].line - prev_line;
            enc[i - k] == SemanticTokenModel {
                delta_line: dl,
                delta_start: if dl != 0 {
                    ts[i].start
                } else {
                    ts[i].start - prev_start
                },
                length: ts[i].length,
                token_type: ts[i].token_type,
                token_modifiers_bitset: ts[i].modifiers,
            }
        }),
    decreases i - k,
{
    if i == k {
        if k + 1 < ts.len() {
            lemma_encode_len(ts, k + 1, ts[k].line, ts[k].start);
        }
    } else {
        lemma_encode_from_index(ts, k + 1, ts[k].line, ts[k].start, i);
    }
}

proof fn lemma_encode_len(ts: Seq<TokenModel>, k: int, pl: int, ps: int)
    requires
        0 <= k <= ts.len(),
    ensures
        encode_from(ts, k, pl, ps).len() == ts.len() - k,
    decreases ts.len() - k,
{
    if k < ts.len() {
        lemma_encode_len(ts, k + 1, ts[k].line, ts[k].start);
    }
}

/// The delta-encoding law: in an encoded sorted stream, a token on a new
/// line stores the line difference and its absolute start column, and a
/// token on the same line as its predecessor stores a zero line delta and
/// the column difference. In particular a keyword token on the line after
/// the previous token's line has `delta_line == 1` and `delta_start` equal
/// to its absolute column.
pub proof fn lemma_delta_encoding(ts: Seq<TokenModel>, i: int)
    requires
        0 < i < ts.len(),
    ensures
        encode_spec(ts).len() == ts.len(),
        encode_spec(ts)[i].delta_line == ts[i].line - ts[i - 1].line,
        ts[i].line != ts[i - 1].line ==> encode_spec(ts)[i].delta_start == ts[i].start,
        ts[i].line == ts[i - 1].line ==> encode_spec(ts)[i].delta_start == ts[i].start - ts[i
            - 1].start,
{
    lemma_encode_len(ts, 0, 0, 0);
    lemma_encode_from_index(ts, 0, 0, 0, i);
}

} // verus!
