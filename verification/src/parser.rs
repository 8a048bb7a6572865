//! The document model and the position-aware parser.
//!
//! `parse` turns raw text into a `SystemdUnit`: an ordered sequence of
//! sections, each holding its directives in source order, every piece
//! annotated with the lines and columns it came from. Parsing is total:
//! malformed lines are dropped from the model, never reported as errors.
//!
//! The whole parse is specified by the spec-level function `parse_spec`, so
//! the model a caller receives is a mathematical function of the input text.

use vstd::prelude::*;

use crate::store::DocumentStore;
use crate::store::store_contents;
use crate::text::find_char_in;
use crate::text::find_in;
use crate::text::first_non_ws_from;
use crate::text::first_non_ws_in;
use crate::text::is_ws;
use crate::text::is_ws_char;
use crate::text::last_non_ws_from;
use crate::text::last_non_ws_in;
use crate::text::lemma_find_in;
use crate::text::lemma_first_non_ws_in;
use crate::text::lemma_last_non_ws_in;
use crate::text::lemma_trimmed;
use crate::text::lines_spec;
use crate::text::split_lines;
use crate::text::count_trailing_backslashes;
use crate::text::trailing_backslashes_in;
use crate::text::trim_end_idx;
use crate::text::trim_start_idx;
use crate::text::trim_str;
use crate::text::trimmed;

verus! {

// ---------------------------------------------------------------------------
// Spec-level model
// ---------------------------------------------------------------------------
/// Model of a per-physical-line value span.
pub ghost struct SpanModel {
    pub line: int,
    pub start: int,
    pub end: int,
}

/// Model of a directive.
pub ghost struct DirectiveModel {
    pub key: Seq<char>,
    pub value: Seq<char>,
    pub line_number: int,
    pub col_start: int,
    pub col_end: int,
    pub end_line_number: int,
    pub value_spans: Seq<SpanModel>,
}

/// Model of a section.
pub ghost struct SectionModel {
    pub name: Seq<char>,
    pub directives: Seq<DirectiveModel>,
    pub line_start: int,
    pub line_end: int,
}

/// Model of a parsed document.
pub ghost struct UnitModel {
    pub sections: Seq<SectionModel>,
    pub raw_text: Seq<char>,
}

// ---------------------------------------------------------------------------
// Executable model types
// ---------------------------------------------------------------------------
/// A value span: the half-open column range `[start, end)` that a value
/// fragment occupies on physical line `line`.
#[derive(Clone, Copy, Debug, PartialEq, Eq)]
pub struct DirectiveValueSpan {
    pub line: usize,
    pub start: usize,
    pub end: usize,
}

impl View for DirectiveValueSpan {
    type V = SpanModel;

    open spec fn view(&self) -> SpanModel {
        SpanModel { line: self.line as int, start: self.start as int, end: self.end as int }
    }
}

impl DeepView for DirectiveValueSpan {
    type V = SpanModel;

    open spec fn deep_view(&self) -> SpanModel {
        self.view()
    }
}

/// A `key=value` directive. `value` is the continuation-joined,
/// whitespace-normalized value; `value_spans` holds one entry per physical
/// source line contributing to the value, in source order, and is never
/// empty: an empty value is represented by a single zero-width span anchored
/// where the value would begin.
#[derive(Debug)]
pub struct SystemdDirective {
    pub key: String,
    pub value: String,
    pub line_number: usize,
    pub column_range: (usize, usize),
    pub end_line_number: usize,
    pub value_spans: Vec<DirectiveValueSpan>,
}

impl View for SystemdDirective {
    type V = DirectiveModel;

    open spec fn view(&self) -> DirectiveModel {
        DirectiveModel {
            key: self.key@,
            value: self.value@,
            line_number: self.line_number as int,
            col_start: self.column_range.0 as int,
            col_end: self.column_range.1 as int,
            end_line_number: self.end_line_number as int,
            value_spans: self.value_spans.deep_view(),
        }
    }
}

impl DeepView for SystemdDirective {
    type V = DirectiveModel;

    open spec fn deep_view(&self) -> DirectiveModel {
        self.view()
    }
}

/// A `[Name]` section: its name as written, its directives in source order
/// (duplicate keys preserved as distinct entries), and the inclusive line
/// range `[first line of header, last line before the next header or EOF]`.
#[derive(Debug)]
pub struct SystemdSection {
    pub name: String,
    pub directives: Vec<SystemdDirective>,
    pub line_range: (usize, usize),
}

impl View for SystemdSection {
    type V = SectionModel;

    open spec fn view(&self) -> SectionModel {
        SectionModel {
            name: self.name@,
            directives: self.directives.deep_view(),
            line_start: self.line_range.0 as int,
            line_end: self.line_range.1 as int,
        }
    }
}

impl DeepView for SystemdSection {
    type V = SectionModel;

    open spec fn deep_view(&self) -> SectionModel {
        self.view()
    }
}

/// A parsed document: the exact source text and the ordered sections found
/// in it. Duplicate section names are kept as separate sections, in source
/// order.
#[derive(Debug)]
pub struct SystemdUnit {
    pub sections: Vec<SystemdSection>,
    pub raw_text: String,
}

impl View for SystemdUnit {
    type V = UnitModel;

    open spec fn view(&self) -> UnitModel {
        UnitModel { sections: self.sections.deep_view(), raw_text: self.raw_text@ }
    }
}

impl DeepView for SystemdUnit {
    type V = UnitModel;

    open spec fn deep_view(&self) -> UnitModel {
        self.view()
    }
}

// ---------------------------------------------------------------------------
// Line classification
// ---------------------------------------------------------------------------
/// A line whose trimmed content is empty or starts with `#` is skipped.
pub open spec fn is_skip_line(line: Seq<char>) -> bool {
    let a = trim_start_idx(line);
    let b = trim_end_idx(line);
    a == b || line[a] == '#'
}

/// A section header: trimmed content of the shape `[Name]` with a non-empty
/// `Name` containing no `]`.
pub open spec fn is_header_line(line: Seq<char>) -> bool {
    let a = trim_start_idx(line);
    let b = trim_end_idx(line);
    &&& b - a >= 3
    &&& line[a] == '['
    &&& line[b - 1] == ']'
    &&& forall|k: int| a + 1 <= k < b - 1 ==> line[k] != ']'
}

/// The name between the brackets of a header line.
pub open spec fn header_name_of(line: Seq<char>) -> Seq<char> {
    line.subrange(trim_start_idx(line) + 1, trim_end_idx(line) - 1)
}

/// A directive line: the trimmed content contains `=` with at least one
/// character before it.
pub open spec fn is_directive_line(line: Seq<char>) -> bool {
    let a = trim_start_idx(line);
    let b = trim_end_idx(line);
    let p = find_in(line, '=', a, b);
    a < p < b
}

// ---------------------------------------------------------------------------
// Value fragments
// ---------------------------------------------------------------------------
/// The bounds `(lo, hi)` of the value fragment found in the window
/// `[lo0, hi0)` of `s`, and whether the fragment announces a continuation
/// line. The window content is trimmed; if the trimmed content carries an
/// odd number of trailing backslashes, one backslash is removed, the result
/// is trimmed at the end again, and the continuation flag is set.
pub open spec fn fragment_in(s: Seq<char>, lo0: int, hi0: int) -> (int, int, bool) {
    let fl = first_non_ws_in(s, lo0, hi0);
    let fh = last_non_ws_in(s, fl, hi0);
    if fl >= fh {
        (fl, fl, false)
    } else {
        let bs = trailing_backslashes_in(s, fl, fh);
        if bs % 2 == 1 {
            (fl, last_non_ws_in(s, fl, fh - 1), true)
        } else {
            (fl, fh, false)
        }
    }
}

pub proof fn lemma_fragment_in(s: Seq<char>, lo0: int, hi0: int)
    requires
        0 <= lo0 <= hi0 <= s.len(),
    ensures
        ({
            let (lo, hi, cont) = fragment_in(s, lo0, hi0);
            lo0 <= lo <= hi <= hi0
        }),
{
    let fl = first_non_ws_in(s, lo0, hi0);
    lemma_first_non_ws_in(s, lo0, hi0);
    lemma_last_non_ws_in(s, fl, hi0);
    let fh = last_non_ws_in(s, fl, hi0);
    if fl < fh {
        lemma_last_non_ws_in(s, fl, fh - 1);
    }
}

/// Executable computation of `fragment_in`: returns the fragment bounds and
/// the continuation flag for the window `[lo0, hi0)` of `s`.
pub fn fragment_bounds(s: &str, lo0: usize, hi0: usize) -> (r: (usize, usize, bool))
    requires
        lo0 <= hi0 <= s@.len(),
    ensures
        (r.0 as int, r.1 as int, r.2) == fragment_in(s@, lo0 as int, hi0 as int),
        lo0 <= r.0 <= r.1 <= hi0,
{
    proof {
        lemma_fragment_in(s@, lo0 as int, hi0 as int);
    }
    let fl = first_non_ws_from(s, lo0, hi0);
    let fh = last_non_ws_from(s, fl, hi0);
    if fl >= fh {
        (fl, fl, false)
    } else {
        let bs = count_trailing_backslashes(s, fl, fh);
        if bs % 2 == 1 {
            let e = last_non_ws_from(s, fl, fh - 1);
            (fl, e, true)
        } else {
            (fl, fh, false)
        }
    }
}

/// The fragment character sequence selected by `fragment_in` over the whole
/// of `s`.
pub open spec fn fragment_seq_of(s: Seq<char>) -> Seq<char> {
    let (lo, hi, cont) = fragment_in(s, 0, s.len() as int);
    s.subrange(lo, hi)
}

/// Whether `s` as a whole announces a continuation line.
pub open spec fn fragment_cont_of(s: Seq<char>) -> bool {
    fragment_in(s, 0, s.len() as int).2
}

/// Extracts the value fragment of a raw right-hand side: the trimmed text,
/// with one trailing backslash removed (and the end trimmed again) when the
/// trimmed text ends in an odd number of backslashes, in which case the
/// directive continues on the next physical line.
pub fn parse_value_fragment(text: &str) -> (r: (String, bool))
    ensures
        r.0@ == fragment_seq_of(text@),
        r.1 == fragment_cont_of(text@),
{
    let n = text.unicode_len();
    let (lo, hi, cont) = fragment_bounds(text, 0, n);
    let frag = text.substring_char(lo, hi);
    (frag.to_owned(), cont)
}

// ---------------------------------------------------------------------------
// Cloning
// ---------------------------------------------------------------------------
fn clone_spans(v: &Vec<DirectiveValueSpan>) -> (r: Vec<DirectiveValueSpan>)
    ensures
        r.deep_view() == v.deep_view(),
{
    let mut r: Vec<DirectiveValueSpan> = Vec::new();
    let mut k: usize = 0;
    while k < v.len()
        invariant
            0 <= k <= v.len(),
            r@.len() == k as int,
            forall|t: int| 0 <= t < k ==> #[trigger] r@[t].deep_view() == v@[t].deep_view(),
        decreases v.len() - k,
    {
        let ghost prev_raw = r@;
        let c = v[k];
        r.push(c);
        proof {
            assert(r@ == prev_raw.push(c));
            assert forall|t: int| 0 <= t < k + 1 implies #[trigger] r@[t].deep_view()
                == v@[t].deep_view() by {
                assert(r@[t] == prev_raw.push(c)[t]);
                if t < k {
                    assert(prev_raw.push(c)[t] == prev_raw[t]);
                }
            }
        }
        k = k + 1;
    }
    proof {
        assert(r.deep_view() =~= v.deep_view());
    }
    r
}

impl Clone for SystemdDirective {
    fn clone(&self) -> (res: Self)
        ensures
            res@ == self@,
    {
        SystemdDirective {
            key: self.key.clone(),
            value: self.value.clone(),
            line_number: self.line_number,
            column_range: (self.column_range.0, self.column_range.1),
            end_line_number: self.end_line_number,
            value_spans: clone_spans(&self.value_spans),
        }
    }
}

fn clone_directives(v: &Vec<SystemdDirective>) -> (r: Vec<SystemdDirective>)
    ensures
        r.deep_view() == v.deep_view(),
{
    let mut r: Vec<SystemdDirective> = Vec::new();
    let mut k: usize = 0;
    while k < v.len()
        invariant
            0 <= k <= v.len(),
            r@.len() == k as int,
            forall|t: int| 0 <= t < k ==> #[trigger] r@[t].deep_view() == v@[t].deep_view(),
        decreases v.len() - k,
    {
        let ghost prev_raw = r@;
        let c = v[k].clone();
        r.push(c);
        proof {
            assert(r@ == prev_raw.push(c));
            assert forall|t: int| 0 <= t < k + 1 implies #[trigger] r@[t].deep_view()
                == v@[t].deep_view() by {
                assert(r@[t] == prev_raw.push(c)[t]);
                if t < k {
                    assert(prev_raw.push(c)[t] == prev_raw[t]);
                }
            }
        }
        k = k + 1;
    }
    proof {
        assert(r.deep_view() =~= v.deep_view());
    }
    r
}

impl Clone for SystemdSection {
    fn clone(&self) -> (res: Self)
        ensures
            res@ == self@,
    {
        SystemdSection {
            name: self.name.clone(),
            directives: clone_directives(&self.directives),
            line_range: (self.line_range.0, self.line_range.1),
        }
    }
}

fn clone_sections(v: &Vec<SystemdSection>) -> (r: Vec<SystemdSection>)
    ensures
        r.deep_view() == v.deep_view(),
{
    let mut r: Vec<SystemdSection> = Vec::new();
    let mut k: usize = 0;
    while k < v.len()
        invariant
            0 <= k <= v.len(),
            r@.len() == k as int,
            forall|t: int| 0 <= t < k ==> #[trigger] r@[t].deep_view() == v@[t].deep_view(),
        decreases v.len() - k,
    {
        let ghost prev_raw = r@;
        let c = v[k].clone();
        r.push(c);
        proof {
            assert(r@ == prev_raw.push(c));
            assert forall|t: int| 0 <= t < k + 1 implies #[trigger] r@[t].deep_view()
                == v@[t].deep_view() by {
                assert(r@[t] == prev_raw.push(c)[t]);
                if t < k {
                    assert(prev_raw.push(c)[t] == prev_raw[t]);
                }
            }
        }
        k = k + 1;
    }
    proof {
        assert(r.deep_view() =~= v.deep_view());
    }
    r
}

impl Clone for SystemdUnit {
    fn clone(&self) -> (res: Self)
        ensures
            res@ == self@,
    {
        SystemdUnit { sections: clone_sections(&self.sections), raw_text: self.raw_text.clone() }
    }
}

// ---------------------------------------------------------------------------
// The spec-level parser
// ---------------------------------------------------------------------------
/// Joins an accumulated value and a further fragment with a single space;
/// empty fragments contribute nothing.
pub open spec fn join_fragment(value: Seq<char>, frag: Seq<char>) -> Seq<char> {
    if frag.len() == 0 {
        value
    } else if value.len() == 0 {
        frag
    } else {
        value + seq![' '] + frag
    }
}

/// Consumes continuation lines starting at line `j`, extending the
/// accumulated `value`, `spans` and `end_line`. While the previous fragment
/// announced a continuation and a next physical line exists, that line's
/// fragment is joined to the value and recorded as a span at the line's
/// indentation (column 0 for an all-whitespace line). Returns the final
/// value, spans, last consumed line, and the index of the next unconsumed
/// line.
pub open spec fn continuation_from(
    lines: Seq<Seq<char>>,
    j: int,
    value: Seq<char>,
    spans: Seq<SpanModel>,
    end_line: int,
    cont: bool,
) -> (Seq<char>, Seq<SpanModel>, int, int)
    decreases lines.len() - j,
{
    if !cont || j < 0 || j >= lines.len() {
        (value, spans, end_line, j)
    } else {
        let l = lines[j];
        let fr = fragment_in(l, 0, l.len() as int);
        let frag = l.subrange(fr.0, fr.1);
        let indent = if trim_start_idx(l) == l.len() {
            0
        } else {
            trim_start_idx(l)
        };
        let span = SpanModel { line: j, start: indent, end: indent + frag.len() };
        continuation_from(lines, j + 1, join_fragment(value, frag), spans.push(span), j, fr.2)
    }
}

/// The directive model produced for the directive line at index `i` of
/// `lines`, together with the index of the first line after its continuation
/// block. The key is the trimmed text left of the first `=`; its column
/// range is where that text stands on the untrimmed line. The value starts
/// after the `=` and any immediately following whitespace, and is joined
/// across continuation lines; an empty value keeps a single zero-width span
/// where the value would begin.
pub open spec fn directive_at(lines: Seq<Seq<char>>, i: int) -> (DirectiveModel, int) {
    let line = lines[i];
    let a = trim_start_idx(line);
    let b = trim_end_idx(line);
    let p = find_in(line, '=', a, b);
    let ke = last_non_ws_in(line, a, p);
    let key = line.subrange(a, ke);
    let value_start = first_non_ws_in(line, p + 1, line.len() as int);
    let fr = fragment_in(line, p + 1, b);
    let frag0 = line.subrange(fr.0, fr.1);
    let span0 = SpanModel { line: i, start: value_start, end: value_start + frag0.len() };
    let st = continuation_from(lines, i + 1, frag0, seq![span0], i, fr.2);
    if st.0.len() == 0 {
        (
            DirectiveModel {
                key,
                value: st.0,
                line_number: i,
                col_start: a,
                col_end: ke,
                end_line_number: i,
                value_spans: seq![
                    SpanModel { line: i, start: value_start, end: value_start },
                ],
            },
            st.3,
        )
    } else {
        (
            DirectiveModel {
                key,
                value: st.0,
                line_number: i,
                col_start: a,
                col_end: ke,
                end_line_number: st.2,
                value_spans: st.1,
            },
            st.3,
        )
    }
}

/// Sets the closing line of the section currently open (the last one).
pub open spec fn close_last(secs: Seq<SectionModel>, line: int) -> Seq<SectionModel> {
    if secs.len() == 0 {
        secs
    } else {
        let last = secs[secs.len() - 1];
        secs.update(
            secs.len() - 1,
            SectionModel {
                name: last.name,
                directives: last.directives,
                line_start: last.line_start,
                line_end: line,
            },
        )
    }
}

/// Appends a directive to the section currently open (the last one).
pub open spec fn append_directive(secs: Seq<SectionModel>, d: DirectiveModel) -> Seq<
    SectionModel,
> {
    if secs.len() == 0 {
        secs
    } else {
        let last = secs[secs.len() - 1];
        secs.update(
            secs.len() - 1,
            SectionModel {
                name: last.name,
                directives: last.directives.push(d),
                line_start: last.line_start,
                line_end: last.line_end,
            },
        )
    }
}

/// Parses `lines` from index `i` on, given the sections accumulated so far.
/// Blank and comment lines are skipped; a header line closes the open
/// section at the previous line and opens a new one; a directive line inside
/// a section consumes its continuation block; anything else is dropped. At
/// the end of input the open section closes at the last line index.
pub open spec fn parse_rest(
    lines: Seq<Seq<char>>,
    i: int,
    secs: Seq<SectionModel>,
) -> Seq<SectionModel>
    decreases lines.len() - i,
{
    if i < 0 || i >= lines.len() {
        close_last(secs, lines.len() - 1)
    } else {
        let line = lines[i];
        if is_skip_line(line) {
            parse_rest(lines, i + 1, secs)
        } else if is_header_line(line) {
            let opened = close_last(secs, i - 1).push(
                SectionModel {
                    name: header_name_of(line),
                    directives: Seq::empty(),
                    line_start: i,
                    line_end: i,
                },
            );
            parse_rest(lines, i + 1, opened)
        } else if is_directive_line(line) && secs.len() > 0 {
            let dn = directive_at(lines, i);
            let ni = if i < dn.1 <= lines.len() {
                dn.1
            } else {
                i + 1
            };
            parse_rest(lines, ni, append_directive(secs, dn.0))
        } else {
            parse_rest(lines, i + 1, secs)
        }
    }
}

/// The model that parsing `text` produces.
pub open spec fn parse_spec(text: Seq<char>) -> UnitModel {
    UnitModel {
        sections: parse_rest(lines_spec(text), 0, Seq::empty()),
        raw_text: text,
    }
}


// ---------------------------------------------------------------------------
// The executable parser
// ---------------------------------------------------------------------------
/// Decides whether a line is a section header, given its trim bounds.
fn line_is_header(line: &str, a: usize, b: usize) -> (r: bool)
    requires
        a as int == trim_start_idx(line@),
        b as int == trim_end_idx(line@),
        a <= b <= line@.len(),
    ensures
        r == is_header_line(line@),
{
    if b - a < 3 {
        return false;
    }
    if line.get_char(a) != '[' {
        return false;
    }
    if line.get_char(b - 1) != ']' {
        return false;
    }
    let k = find_char_in(line, ']', a + 1, b - 1);
    proof {
        lemma_find_in(line@, ']', a + 1 as int, (b - 1) as int);
    }
    k == b - 1
}

/// Parses the directive that starts at line `i`, consuming its continuation
/// block; returns the directive and the index of the first unconsumed line.
fn parse_directive(lines: &Vec<String>, i: usize) -> (r: (SystemdDirective, usize))
    requires
        i < lines@.len(),
        is_directive_line(lines.deep_view()[i as int]),
    ensures
        r.0@ == directive_at(lines.deep_view(), i as int).0,
        r.1 as int == directive_at(lines.deep_view(), i as int).1,
        i < r.1 <= lines@.len(),
{
    let ghost ld = lines.deep_view();
    let nlines = lines.len();
    let line: &str = lines[i].as_str();
    proof {
        assert(line@ == ld[i as int]);
    }
    let n = line.unicode_len();
    let a = first_non_ws_from(line, 0, n);
    let b = last_non_ws_from(line, a, n);
    let p = find_char_in(line, '=', a, b);
    proof {
        assert(a < p < b);
        lemma_last_non_ws_in(line@, a as int, p as int);
    }
    let ke = last_non_ws_from(line, a, p);
    let key: String = line.substring_char(a, ke).to_owned();
    let value_start = first_non_ws_from(line, p + 1, n);
    let (flo, fhi, cont0) = fragment_bounds(line, p + 1, b);
    proof {
        // When the first fragment is non-empty, the value starts exactly at
        // the fragment, so the first span stays inside the line.
        lemma_first_non_ws_in(line@, (p + 1) as int, n as int);
        lemma_first_non_ws_in(line@, (p + 1) as int, b as int);
        if flo < fhi {
            assert(!is_ws(line@[flo as int]));
            assert(value_start as int == flo as int) by {
                if (value_start as int) < flo as int {
                    assert(is_ws(line@[value_start as int]));
                    assert(!is_ws(line@[value_start as int]));
                }
                if flo < value_start {
                    assert(is_ws(line@[flo as int]));
                }
            }
        }
    }
    let frag0: &str = line.substring_char(flo, fhi);
    let mut value: String = frag0.to_owned();
    let mut spans: Vec<DirectiveValueSpan> = Vec::new();
    let span0 = DirectiveValueSpan { line: i, start: value_start, end: value_start + (fhi - flo) };
    spans.push(span0);
    let mut end_line: usize = i;
    let mut cont: bool = cont0;
    let mut j: usize = i + 1;
    let ghost st0 = continuation_from(
        ld,
        (i + 1) as int,
        line@.subrange(flo as int, fhi as int),
        seq![span0@],
        i as int,
        cont0,
    );
    proof {
        assert(spans.deep_view() =~= seq![span0@]);
    }
    while cont && j < lines.len()
        invariant
            i < j <= lines@.len(),
            ld == lines.deep_view(),
            continuation_from(ld, j as int, value@, spans.deep_view(), end_line as int, cont)
                == st0,
        decreases lines@.len() - j,
    {
        let l: &str = lines[j].as_str();
        proof {
            assert(l@ == ld[j as int]);
        }
        let ln = l.unicode_len();
        let (flo2, fhi2, c2) = fragment_bounds(l, 0, ln);
        let tsi = first_non_ws_from(l, 0, ln);
        let indent = if tsi == ln {
            0
        } else {
            tsi
        };
        proof {
            // The fragment begins at the line's indentation, so the span
            // stays inside the line.
            if flo2 < fhi2 {
                assert(indent == flo2);
            } else {
                assert(fhi2 - flo2 == 0);
            }
        }
        let frag: &str = l.substring_char(flo2, fhi2);
        let ghost value_before = value@;
        if fhi2 > flo2 {
            if value.as_str().is_empty() {
                value = frag.to_owned();
            } else {
                value.append(" ");
                value.append(frag);
            }
        }
        proof {
            reveal_strlit(" ");
            assert(" "@ =~= seq![' ']);
            assert(value@ == join_fragment(value_before, l@.subrange(flo2 as int, fhi2 as int)));
        }
        let span = DirectiveValueSpan { line: j, start: indent, end: indent + (fhi2 - flo2) };
        let ghost spans_before = spans.deep_view();
        let ghost spans_raw = spans@;
        spans.push(span);
        proof {
            assert(spans@ == spans_raw.push(span));
            assert forall|t: int| 0 <= t < spans@.len() implies #[trigger] spans.deep_view()[t]
                == spans_before.push(span@)[t] by {
                assert(spans@[t] == spans_raw.push(span)[t]);
                if t < spans_raw.len() {
                    assert(spans_raw.push(span)[t] == spans_raw[t]);
                }
            }
            assert(spans.deep_view() =~= spans_before.push(span@));
        }
        end_line = j;
        cont = c2;
        j = j + 1;
        proof {
            assert(continuation_from(ld, j as int, value@, spans.deep_view(), end_line as int,
                cont) == st0);
        }
    }
    proof {
        assert(continuation_from(ld, j as int, value@, spans.deep_view(), end_line as int, cont)
            == (value@, spans.deep_view(), end_line as int, j as int));
        assert(st0.0 == value@);
        assert(st0.1 == spans.deep_view());
        assert(st0.2 == end_line as int);
        assert(st0.3 == j as int);
    }
    if value.as_str().is_empty() {
        let mut zspans: Vec<DirectiveValueSpan> = Vec::new();
        zspans.push(DirectiveValueSpan { line: i, start: value_start, end: value_start });
        let d = SystemdDirective {
            key,
            value,
            line_number: i,
            column_range: (a, ke),
            end_line_number: i,
            value_spans: zspans,
        };
        proof {
            assert(d.value_spans.deep_view() =~= seq![
                SpanModel { line: i as int, start: value_start as int, end: value_start as int },
            ]);
            assert(d@ == directive_at(ld, i as int).0);
        }
        (d, j)
    } else {
        let d = SystemdDirective {
            key,
            value,
            line_number: i,
            column_range: (a, ke),
            end_line_number: end_line,
            value_spans: spans,
        };
        proof {
            assert(d@ == directive_at(ld, i as int).0);
        }
        (d, j)
    }
}

/// Sets the closing line of the last (open) section, if any.
fn close_last_section(sections: &mut Vec<SystemdSection>, line: usize)
    ensures
        final(sections).deep_view() == close_last(old(sections).deep_view(), line as int),
{
    let ghost prev = sections.deep_view();
    let ghost prev_raw = sections@;
    if sections.len() > 0 {
        let mut last = match sections.pop() {
            Some(s) => s,
            None => {
                proof {
                    assert(false);
                }
                unreached()
            },
        };
        last.line_range = (last.line_range.0, line);
        let ghost lx = last;
        sections.push(last);
        proof {
            let n = prev_raw.len() as int;
            assert(sections@ == prev_raw.drop_last().push(lx));
            assert forall|t: int| 0 <= t < sections@.len() implies
                #[trigger] sections.deep_view()[t] == close_last(prev, line as int)[t] by {
                assert(sections@[t] == prev_raw.drop_last().push(lx)[t]);
                if t < n - 1 {
                    assert(prev_raw.drop_last().push(lx)[t] == prev_raw.drop_last()[t]);
                    assert(prev_raw.drop_last()[t] == prev_raw[t]);
                }
            }
            assert(sections.deep_view() =~= close_last(prev, line as int));
        }
    } else {
        proof {
            assert(sections.deep_view() =~= close_last(prev, line as int));
        }
    }
}

/// Appends a directive to the last (open) section, if any.
fn append_directive_to_last(sections: &mut Vec<SystemdSection>, d: SystemdDirective)
    ensures
        final(sections).deep_view() == append_directive(old(sections).deep_view(), d@),
{
    let ghost prev = sections.deep_view();
    let ghost prev_raw = sections@;
    let ghost dm = d@;
    if sections.len() > 0 {
        let mut last = match sections.pop() {
            Some(s) => s,
            None => {
                proof {
                    assert(false);
                }
                unreached()
            },
        };
        let ghost last_dirs = last.directives.deep_view();
        let ghost last_dirs_raw = last.directives@;
        let ghost dx = d;
        last.directives.push(d);
        proof {
            assert(last.directives@ == last_dirs_raw.push(dx));
            assert forall|t: int| 0 <= t < last.directives@.len() implies
                #[trigger] last.directives.deep_view()[t] == last_dirs.push(dm)[t] by {
                assert(last.directives@[t] == last_dirs_raw.push(dx)[t]);
                if t < last_dirs_raw.len() {
                    assert(last_dirs_raw.push(dx)[t] == last_dirs_raw[t]);
                }
            }
            assert(last.directives.deep_view() =~= last_dirs.push(dm));
        }
        sections.push(last);
        proof {
            let n = prev_raw.len() as int;
            assert(sections@ == prev_raw.drop_last().push(sections@[n - 1]));
            assert forall|t: int| 0 <= t < sections@.len() implies
                #[trigger] sections.deep_view()[t] == append_directive(prev, dm)[t] by {
                assert(sections@[t] == prev_raw.drop_last().push(sections@[n - 1])[t]);
                if t < n - 1 {
                    assert(prev_raw.drop_last().push(sections@[n - 1])[t]
                        == prev_raw.drop_last()[t]);
                    assert(prev_raw.drop_last()[t] == prev_raw[t]);
                }
            }
            assert(sections.deep_view() =~= append_directive(prev, dm));
        }
    } else {
        proof {
            assert(sections.deep_view() =~= append_directive(prev, dm));
        }
    }
}

/// The parser and document store. `parse` builds the model of a text;
/// `update_document` files the parsed model under a document identity, and
/// the getters read it back.
pub struct SystemdParser {
    documents: DocumentStore,
}

impl View for SystemdParser {
    type V = Map<Seq<char>, UnitModel>;

    /// The store's contents: each stored document identity, mapped to the
    /// model of the unit stored under it.
    closed spec fn view(&self) -> Map<Seq<char>, UnitModel> {
        store_contents(self.documents)
    }
}

impl SystemdParser {
    /// A parser with a document store.
    pub fn new() -> SystemdParser {
        SystemdParser { documents: DocumentStore::new() }
    }

    /// Parses raw text into the span-annotated document model. Parsing is
    /// total and equals the spec-level `parse_spec` on every input.
    pub fn parse(&self, text: &str) -> (r: SystemdUnit)
        ensures
            r@ == parse_spec(text@),
    {
        let lines = split_lines(text);
        let ghost ld = lines.deep_view();
        let mut sections: Vec<SystemdSection> = Vec::new();
        proof {
            assert(sections.deep_view() =~= Seq::<SectionModel>::empty());
        }
        let mut i: usize = 0;
        while i < lines.len()
            invariant
                0 <= i <= lines@.len(),
                ld == lines.deep_view(),
                parse_rest(ld, i as int, sections.deep_view()) == parse_rest(
                    ld,
                    0,
                    Seq::<SectionModel>::empty(),
                ),
                sections@.len() > 0 ==> i >= 1,
            decreases lines@.len() - i,
        {
            let ghost dv = sections.deep_view();
            let line: &str = lines[i].as_str();
            proof {
                assert(line@ == ld[i as int]);
            }
            let n = line.unicode_len();
            let a = first_non_ws_from(line, 0, n);
            let b = last_non_ws_from(line, a, n);
            let skip = if a == b {
                true
            } else {
                line.get_char(a) == '#'
            };
            if skip {
                proof {
                    assert(is_skip_line(ld[i as int]));
                    assert(parse_rest(ld, i as int, dv) == parse_rest(ld, i + 1, dv));
                }
                i = i + 1;
            } else if line_is_header(line, a, b) {
                close_last_section(&mut sections, if i > 0 {
                    i - 1
                } else {
                    0
                });
                proof {
                    assert(sections.deep_view() == close_last(dv, i - 1));
                }
                let name: String = line.substring_char(a + 1, b - 1).to_owned();
                let ghost closed = sections.deep_view();
                let ghost closed_raw = sections@;
                let fresh = SystemdSection {
                    name,
                    directives: Vec::new(),
                    line_range: (i, i),
                };
                let ghost fx = fresh;
                proof {
                    assert(fresh.directives.deep_view() =~= Seq::<DirectiveModel>::empty());
                    assert(fresh@ == SectionModel {
                        name: header_name_of(ld[i as int]),
                        directives: Seq::<DirectiveModel>::empty(),
                        line_start: i as int,
                        line_end: i as int,
                    });
                }
                sections.push(fresh);
                proof {
                    assert(sections@ == closed_raw.push(fx));
                    assert forall|t: int| 0 <= t < sections@.len() implies
                        #[trigger] sections.deep_view()[t] == closed.push(fx@)[t] by {
                        assert(sections@[t] == closed_raw.push(fx)[t]);
                        if t < closed_raw.len() {
                            assert(closed_raw.push(fx)[t] == closed_raw[t]);
                        }
                    }
                    assert(sections.deep_view() =~= closed.push(fx@));
                    assert(!is_skip_line(ld[i as int]));
                    assert(parse_rest(ld, i as int, dv) == parse_rest(
                        ld,
                        i + 1,
                        sections.deep_view(),
                    ));
                }
                i = i + 1;
            } else {
                let p = find_char_in(line, '=', a, b);
                if a < p && p < b && sections.len() > 0 {
                    proof {
                        assert(is_directive_line(ld[i as int]));
                        assert(!is_skip_line(ld[i as int]));
                    }
                    let (d, ni) = parse_directive(&lines, i);
                    append_directive_to_last(&mut sections, d);
                    proof {
                        assert(parse_rest(ld, i as int, dv) == parse_rest(
                            ld,
                            ni as int,
                            sections.deep_view(),
                        ));
                    }
                    i = ni;
                } else {
                    proof {
                        assert(!is_skip_line(ld[i as int]));
                        assert(!(is_directive_line(ld[i as int]) && dv.len() > 0));
                        assert(parse_rest(ld, i as int, dv) == parse_rest(ld, i + 1, dv));
                    }
                    i = i + 1;
                }
            }
        }
        let ghost dv_end = sections.deep_view();
        if sections.len() > 0 {
            close_last_section(&mut sections, lines.len() - 1);
        }
        proof {
            assert(sections.deep_view() == close_last(dv_end, ld.len() - 1));
            assert(parse_rest(ld, i as int, dv_end) == close_last(dv_end, ld.len() - 1));
        }
        let unit = SystemdUnit { sections, raw_text: text.to_owned() };
        proof {
            assert(unit@ == parse_spec(text@));
        }
        unit
    }

    /// Parses `text` and files the result in the store under `id`, replacing
    /// any earlier entry for the same document.
    pub fn update_document(&mut self, id: &str, text: &str)
        ensures
            final(self)@ == old(self)@.insert(id@, parse_spec(text@)),
    {
        let parsed = self.parse(text);
        self.documents.insert(id, parsed);
    }

    /// The latest parsed model stored under `id`, if any.
    pub fn get_parsed_document(&self, id: &str) -> (r: Option<SystemdUnit>)
        ensures
            match r {
                Some(unit) => self@.contains_key(id@) && unit@ == self@[id@],
                None => !self@.contains_key(id@),
            },
    {
        self.documents.get(id)
    }

    /// The raw text of the document stored under `id`, if any.
    pub fn get_document_text(&self, id: &str) -> (r: Option<String>)
        ensures
            match r {
                Some(text) => self@.contains_key(id@) && text@ == self@[id@].raw_text,
                None => !self@.contains_key(id@),
            },
    {
        match self.documents.get(id) {
            Some(unit) => Some(unit.raw_text),
            None => None,
        }
    }
}


// ---------------------------------------------------------------------------
// Position lookups
// ---------------------------------------------------------------------------
/// A cursor position: zero-based line and column.
#[derive(Clone, Copy, Debug, PartialEq, Eq)]
pub struct Position {
    pub line: usize,
    pub character: usize,
}

/// The name of the first section whose header stands on `line`, searching
/// from index `k`.
pub open spec fn header_at_from(secs: Seq<SectionModel>, line: int, k: int) -> Option<Seq<char>>
    decreases secs.len() - k,
{
    if k < 0 || k >= secs.len() {
        None
    } else if secs[k].line_start == line {
        Some(secs[k].name)
    } else {
        header_at_from(secs, line, k + 1)
    }
}

/// The index of the first section whose line range contains `line`,
/// searching from index `k`; `secs.len()` if none does.
pub open spec fn section_idx_at_line(secs: Seq<SectionModel>, line: int, k: int) -> int
    decreases secs.len() - k,
{
    if k < 0 || k >= secs.len() {
        secs.len() as int
    } else if secs[k].line_start <= line <= secs[k].line_end {
        k
    } else {
        section_idx_at_line(secs, line, k + 1)
    }
}

/// Whether `c` is a word character: alphanumeric, `-`, `_` or `.`.
pub open spec fn is_word_char(c: char) -> bool {
    is_alphanumeric_char(c) || c == '-' || c == '_' || c == '.'
}

/// What `char::is_alphanumeric` returns: a function of the character alone.
pub uninterp spec fn is_alphanumeric_char(c: char) -> bool;

/// Relies on `char::is_alphanumeric`: the result depends on the character
/// alone.
#[verifier::external_body]
fn char_is_alphanumeric(c: char) -> (r: bool)
    ensures
        r == is_alphanumeric_char(c),
{
    c.is_alphanumeric()
}

/// Executable word-character test.
fn is_word_char_exec(c: char) -> (r: bool)
    ensures
        r == is_word_char(c),
{
    char_is_alphanumeric(c) || c == '-' || c == '_' || c == '.'
}

/// Start of the word around index `i`: the least index reachable from `i`
/// by stepping left over word characters.
pub open spec fn word_start(s: Seq<char>, i: int) -> int
    decreases i,
{
    if i <= 0 {
        0
    } else if is_word_char(s[i - 1]) {
        word_start(s, i - 1)
    } else {
        i
    }
}

/// End of the word around index `i`: the greatest index reachable from `i`
/// by stepping right over word characters.
pub open spec fn word_end(s: Seq<char>, i: int) -> int
    decreases s.len() - i,
{
    if i < 0 || i >= s.len() {
        s.len() as int
    } else if is_word_char(s[i]) {
        word_end(s, i + 1)
    } else {
        i
    }
}

/// The word under the cursor at (`line`, `ch`) of `text`, if any: the
/// maximal run of word characters around the cursor.
pub open spec fn word_at_spec(text: Seq<char>, line: int, ch: int) -> Option<Seq<char>> {
    let ls = lines_spec(text);
    if 0 <= line < ls.len() && 0 <= ch < ls[line].len() {
        let l = ls[line];
        let ws = word_start(l, ch);
        let we = word_end(l, ch);
        if ws < we {
            Some(l.subrange(ws, we))
        } else {
            None
        }
    } else {
        None
    }
}

proof fn lemma_word_bounds(s: Seq<char>, i: int)
    requires
        0 <= i <= s.len(),
    ensures
        0 <= word_start(s, i) <= i,
        i <= word_end(s, i) <= s.len(),
    decreases s.len(),
{
    lemma_word_start(s, i);
    lemma_word_end(s, i);
}

proof fn lemma_word_start(s: Seq<char>, i: int)
    requires
        0 <= i <= s.len(),
    ensures
        0 <= word_start(s, i) <= i,
    decreases i,
{
    if i > 0 && is_word_char(s[i - 1]) {
        lemma_word_start(s, i - 1);
    }
}

proof fn lemma_word_end(s: Seq<char>, i: int)
    requires
        0 <= i <= s.len(),
    ensures
        i <= word_end(s, i) <= s.len(),
    decreases s.len() - i,
{
    if i < s.len() && is_word_char(s[i]) {
        lemma_word_end(s, i + 1);
    }
}

impl SystemdParser {
    /// The name of the section whose header line the position stands on, if
    /// any: sections are searched in source order.
    pub fn get_section_header_at_position(&self, unit: &SystemdUnit, position: &Position) -> (r:
        Option<String>)
        ensures
            match r {
                Some(name) => header_at_from(unit@.sections, position.line as int, 0)
                    == Some::<Seq<char>>(name@),
                None => header_at_from(unit@.sections, position.line as int, 0) is None,
            },
    {
        let ghost secs = unit@.sections;
        let mut k: usize = 0;
        while k < unit.sections.len()
            invariant
                0 <= k <= unit.sections@.len(),
                secs == unit@.sections,
                header_at_from(secs, position.line as int, 0) == header_at_from(
                    secs,
                    position.line as int,
                    k as int,
                ),
            decreases unit.sections@.len() - k,
        {
            if unit.sections[k].line_range.0 == position.line {
                return Some(unit.sections[k].name.clone());
            }
            k = k + 1;
        }
        None
    }

    /// The first section whose line range contains `line`, if any.
    pub fn get_section_at_line<'a>(&self, unit: &'a SystemdUnit, line: usize) -> (r: Option<
        &'a SystemdSection,
    >)
        ensures
            ({
                let idx = section_idx_at_line(unit@.sections, line as int, 0);
                match r {
                    Some(section) => idx < unit@.sections.len() && section@ == unit@.sections[idx],
                    None => idx == unit@.sections.len(),
                }
            }),
    {
        let ghost secs = unit@.sections;
        let mut k: usize = 0;
        while k < unit.sections.len()
            invariant
                0 <= k <= unit.sections@.len(),
                secs == unit@.sections,
                section_idx_at_line(secs, line as int, 0) == section_idx_at_line(
                    secs,
                    line as int,
                    k as int,
                ),
            decreases unit.sections@.len() - k,
        {
            let section = &unit.sections[k];
            if section.line_range.0 <= line && line <= section.line_range.1 {
                return Some(section);
            }
            k = k + 1;
        }
        None
    }

    /// The word under the cursor: the maximal run of alphanumeric, `-`, `_`
    /// and `.` characters around the cursor position, if the position is
    /// inside the text and a word surrounds it.
    pub fn get_word_at_position(&self, unit: &SystemdUnit, position: &Position) -> (r: Option<
        String,
    >)
        ensures
            match r {
                Some(word) => word_at_spec(unit@.raw_text, position.line as int,
                    position.character as int) == Some::<Seq<char>>(word@),
                None => word_at_spec(unit@.raw_text, position.line as int,
                    position.character as int) is None,
            },
    {
        let lines = split_lines(unit.raw_text.as_str());
        if position.line >= lines.len() {
            return None;
        }
        let line: &str = lines[position.line].as_str();
        proof {
            assert(line@ == lines.deep_view()[position.line as int]);
        }
        let n = line.unicode_len();
        if position.character >= n {
            return None;
        }
        let cursor = position.character;
        proof {
            lemma_word_bounds(line@, cursor as int);
        }
        let mut ws: usize = cursor;
        while ws > 0 && is_word_char_exec(line.get_char(ws - 1))
            invariant
                0 <= ws <= cursor <= line@.len(),
                word_start(line@, cursor as int) == word_start(line@, ws as int),
            decreases ws,
        {
            proof {
                assert(word_start(line@, ws as int) == word_start(line@, ws - 1));
            }
            ws = ws - 1;
        }
        proof {
            assert(word_start(line@, ws as int) == ws as int);
        }
        let mut we: usize = cursor;
        while we < n && is_word_char_exec(line.get_char(we))
            invariant
                cursor <= we <= n,
                n == line@.len(),
                word_end(line@, cursor as int) == word_end(line@, we as int),
            decreases n - we,
        {
            proof {
                assert(word_end(line@, we as int) == word_end(line@, we + 1));
            }
            we = we + 1;
        }
        proof {
            assert(word_end(line@, we as int) == we as int);
        }
        if ws < we {
            Some(line.substring_char(ws, we).to_owned())
        } else {
            None
        }
    }
}


// ---------------------------------------------------------------------------
// Laws of the parser
// ---------------------------------------------------------------------------
/// Parsing is deterministic on the model: two parses of identical text give
/// structurally equal documents.
pub proof fn lemma_parse_deterministic(text: Seq<char>, m1: UnitModel, m2: UnitModel)
    requires
        m1 == parse_spec(text),
        m2 == parse_spec(text),
    ensures
        m1 == m2,
{
}

/// A directive whose value occupies exactly one source line reads verbatim
/// from that line: the value equals the slice of the line at the recorded
/// span, and the span lies inside the line.
pub open spec fn span_matches_source(lines: Seq<Seq<char>>, d: DirectiveModel) -> bool {
    d.value_spans.len() == 1 ==> {
        let sp = d.value_spans[0];
        &&& 0 <= sp.line < lines.len()
        &&& 0 <= sp.start <= sp.end <= lines[sp.line].len()
        &&& d.value == lines[sp.line].subrange(sp.start, sp.end)
    }
}

/// Every directive of every section satisfies `span_matches_source`.
pub open spec fn unit_spans_match(lines: Seq<Seq<char>>, secs: Seq<SectionModel>) -> bool {
    forall|si: int, di: int|
        0 <= si < secs.len() && 0 <= di < secs[si].directives.len() ==> span_matches_source(
            lines,
            #[trigger] secs[si].directives[di],
        )
}

/// A continuation that adds no span changes nothing.
proof fn lemma_continuation_spans(
    lines: Seq<Seq<char>>,
    j: int,
    v: Seq<char>,
    sp: Seq<SpanModel>,
    e: int,
    c: bool,
)
    ensures
        ({
            let st = continuation_from(lines, j, v, sp, e, c);
            &&& st.1.len() >= sp.len()
            &&& (st.1.len() == sp.len() ==> st.0 == v && st.1 == sp && st.2 == e)
        }),
    decreases lines.len() - j,
{
    if !(!c || j < 0 || j >= lines.len()) {
        let l = lines[j];
        let fr = fragment_in(l, 0, l.len() as int);
        let frag = l.subrange(fr.0, fr.1);
        let indent = if trim_start_idx(l) == l.len() {
            0
        } else {
            trim_start_idx(l)
        };
        let span = SpanModel { line: j, start: indent, end: indent + frag.len() };
        lemma_continuation_spans(lines, j + 1, join_fragment(v, frag), sp.push(span), j, fr.2);
    }
}

/// The directive parsed at line `i` satisfies `span_matches_source`.
proof fn lemma_directive_span(lines: Seq<Seq<char>>, i: int)
    requires
        0 <= i < lines.len(),
        is_directive_line(lines[i]),
    ensures
        span_matches_source(lines, directive_at(lines, i).0),
{
    let line = lines[i];
    let a = trim_start_idx(line);
    let b = trim_end_idx(line);
    let p = find_in(line, '=', a, b);
    lemma_trimmed(line);
    lemma_find_in(line, '=', a, b);
    let value_start = first_non_ws_in(line, p + 1, line.len() as int);
    lemma_first_non_ws_in(line, p + 1, line.len() as int);
    let fr = fragment_in(line, p + 1, b);
    lemma_fragment_in(line, p + 1, b);
    let frag0 = line.subrange(fr.0, fr.1);
    let span0 = SpanModel { line: i, start: value_start, end: value_start + frag0.len() };
    let st = continuation_from(lines, i + 1, frag0, seq![span0], i, fr.2);
    let d = directive_at(lines, i).0;
    if st.0.len() == 0 {
        assert(d.value =~= line.subrange(value_start, value_start));
    } else {
        if d.value_spans.len() == 1 {
            lemma_continuation_spans(lines, i + 1, frag0, seq![span0], i, fr.2);
            assert(st.0 == frag0 && st.1 == seq![span0]);
            assert(frag0.len() > 0);
            lemma_first_non_ws_in(line, p + 1, b);
            assert(value_start == fr.0) by {
                assert(fr.0 < b);
                assert(!is_ws(line[fr.0]));
                if value_start < fr.0 {
                    assert(is_ws(line[value_start]));
                    assert(!is_ws(line[value_start]));
                }
                if fr.0 < value_start {
                    assert(is_ws(line[fr.0]));
                }
            }
            assert(d.value_spans[0] == span0);
            assert(d.value == line.subrange(span0.start, span0.end));
        }
    }
}

/// `close_last` and `append_directive` with a good directive preserve
/// `unit_spans_match`; a fresh section holds no directives.
proof fn lemma_parse_rest_spans(lines: Seq<Seq<char>>, i: int, secs: Seq<SectionModel>)
    requires
        unit_spans_match(lines, secs),
    ensures
        unit_spans_match(lines, parse_rest(lines, i, secs)),
    decreases lines.len() - i,
{
    let n = secs.len() as int;
    if i < 0 || i >= lines.len() {
        let closed = close_last(secs, lines.len() - 1);
        assert forall|si: int, di: int|
            0 <= si < closed.len() && 0 <= di < closed[si].directives.len()
            implies span_matches_source(lines, #[trigger] closed[si].directives[di]) by {
            assert(closed[si].directives == secs[si].directives);
        }
    } else {
        let line = lines[i];
        if is_skip_line(line) {
            lemma_parse_rest_spans(lines, i + 1, secs);
        } else if is_header_line(line) {
            let opened = close_last(secs, i - 1).push(
                SectionModel {
                    name: header_name_of(line),
                    directives: Seq::empty(),
                    line_start: i,
                    line_end: i,
                },
            );
            assert forall|si: int, di: int|
                0 <= si < opened.len() && 0 <= di < opened[si].directives.len()
                implies span_matches_source(lines, #[trigger] opened[si].directives[di]) by {
                if si < n {
                    assert(opened[si].directives == secs[si].directives);
                } else {
                    assert(opened[si].directives.len() == 0);
                }
            }
            lemma_parse_rest_spans(lines, i + 1, opened);
        } else if is_directive_line(line) && secs.len() > 0 {
            let dn = directive_at(lines, i);
            let ni = if i < dn.1 <= lines.len() {
                dn.1
            } else {
                i + 1
            };
            lemma_directive_span(lines, i);
            let appended = append_directive(secs, dn.0);
            assert forall|si: int, di: int|
                0 <= si < appended.len() && 0 <= di < appended[si].directives.len()
                implies span_matches_source(lines, #[trigger] appended[si].directives[di]) by {
                if si < n - 1 {
                    assert(appended[si].directives == secs[si].directives);
                } else {
                    assert(appended[si].directives == secs[si].directives.push(dn.0));
                    if di < secs[si].directives.len() {
                        assert(appended[si].directives[di] == secs[si].directives[di]);
                    } else {
                        assert(appended[si].directives[di] == dn.0);
                    }
                }
            }
            lemma_parse_rest_spans(lines, ni, appended);
        } else {
            lemma_parse_rest_spans(lines, i + 1, secs);
        }
    }
}

/// For every text: each directive of the parsed model whose value occupies
/// exactly one source line reads verbatim from the source at its recorded
/// span.
pub proof fn lemma_single_span_value_verbatim(text: Seq<char>)
    ensures
        unit_spans_match(lines_spec(text), parse_spec(text).sections),
{
    lemma_parse_rest_spans(lines_spec(text), 0, Seq::empty());
}


/// Whether the cursor at (`line`, `ch`) falls on the directive: on its key's
/// column range, or inside one of its value spans.
pub open spec fn directive_hit(d: DirectiveModel, line: int, ch: int) -> bool {
    (line == d.line_number && d.col_start <= ch < d.col_end) || exists|i: int|
        0 <= i < d.value_spans.len() && (#[trigger] d.value_spans[i]).line == line
            && d.value_spans[i].start <= ch < d.value_spans[i].end
}

/// The index of the first directive hit by the cursor, searching from `k`;
/// `dirs.len()` if none is.
pub open spec fn directive_idx_at(dirs: Seq<DirectiveModel>, line: int, ch: int, k: int) -> int
    decreases dirs.len() - k,
{
    if k < 0 || k >= dirs.len() {
        dirs.len() as int
    } else if directive_hit(dirs[k], line, ch) {
        k
    } else {
        directive_idx_at(dirs, line, ch, k + 1)
    }
}

impl SystemdParser {
    /// The first directive of the enclosing section whose key columns or
    /// value spans the cursor falls on, if any.
    #[verifier::loop_isolation(false)]
    pub fn directive_at_position<'a>(&self, unit: &'a SystemdUnit, position: &Position) -> (r:
        Option<&'a SystemdDirective>)
        ensures
            ({
                let sidx = section_idx_at_line(unit@.sections, position.line as int, 0);
                match r {
                    Some(directive) => sidx < unit@.sections.len() && {
                        let dirs = unit@.sections[sidx].directives;
                        let didx = directive_idx_at(dirs, position.line as int,
                            position.character as int, 0);
                        didx < dirs.len() && directive@ == dirs[didx]
                    },
                    None => sidx == unit@.sections.len() || {
                        let dirs = unit@.sections[sidx].directives;
                        directive_idx_at(dirs, position.line as int, position.character as int, 0)
                            == dirs.len()
                    },
                }
            }),
    {
        let section = match self.get_section_at_line(unit, position.line) {
            Some(section) => section,
            None => {
                return None;
            },
        };
        let ghost dirs = section@.directives;
        let ghost sidx = section_idx_at_line(unit@.sections, position.line as int, 0);
        proof {
            assert(section@ == unit@.sections[sidx]);
        }
        let mut di: usize = 0;
        while di < section.directives.len()
            invariant
                0 <= di <= section.directives@.len(),
                directive_idx_at(dirs, position.line as int, position.character as int, 0)
                    == directive_idx_at(dirs, position.line as int, position.character as int,
                    di as int),
            decreases section.directives@.len() - di,
        {
            let directive = &section.directives[di];
            proof {
                assert(dirs[di as int] == section.directives@[di as int]@);
            }
            let on_key = position.line == directive.line_number && directive.column_range.0
                <= position.character && position.character < directive.column_range.1;
            let mut on_value = false;
            let mut si: usize = 0;
            while si < directive.value_spans.len() && !on_value
                invariant
                    0 <= si <= directive.value_spans@.len(),
                    on_value ==> exists|i: int|
                        0 <= i < directive@.value_spans.len() && (#[trigger] directive@.value_spans[
                        i]).line == position.line as int && directive@.value_spans[i].start
                            <= position.character as int && (position.character as int)
                            < directive@.value_spans[i].end,
                    !on_value ==> forall|i: int|
                        0 <= i < si ==> !((#[trigger] directive@.value_spans[i]).line
                            == position.line as int && directive@.value_spans[i].start
                            <= position.character as int && (position.character as int)
                            < directive@.value_spans[i].end),
                decreases directive.value_spans@.len() - si + (if on_value { 0int } else { 1int }),
            {
                let span = &directive.value_spans[si];
                proof {
                    assert(directive@.value_spans[si as int] == directive.value_spans@[si as int]@);
                }
                if span.line == position.line && span.start <= position.character
                    && position.character < span.end {
                    on_value = true;
                } else {
                    si = si + 1;
                }
            }
            if on_key || on_value {
                proof {
                    assert(directive_hit(dirs[di as int], position.line as int,
                        position.character as int));
                }
                return Some(directive);
            }
            proof {
                assert(!directive_hit(dirs[di as int], position.line as int,
                    position.character as int));
            }
            di = di + 1;
        }
        None
    }
}

} // verus!




