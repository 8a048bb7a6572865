//! The opinionated re-formatter: blank lines are dropped, one blank line is
//! put before every section header but the first, comments and other lines
//! are trimmed, and a directive is rewritten as `key=value` with no spaces
//! around the `=`. A formatted non-empty text ends in exactly one newline.

use vstd::prelude::*;

use crate::diagnostics::TextRange;
use crate::parser::Position;
use crate::text::find_char_in;
use crate::text::find_in;
use crate::text::last_non_ws_from;
use crate::text::last_non_ws_in;
use crate::text::lines_spec;
use crate::text::split_lines;
use crate::text::str_eq;
use crate::text::trim_end_idx;
use crate::text::trim_start_idx;
use crate::text::trim_str;
use crate::text::trimmed;

verus! {

/// Model of a text edit.
pub ghost struct TextEditModel {
    pub start_line: int,
    pub start_col: int,
    pub end_line: int,
    pub end_col: int,
    pub new_text: Seq<char>,
}

/// A replacement of the text in `range` by `new_text`.
#[derive(Debug)]
pub struct TextEdit {
    pub range: TextRange,
    pub new_text: String,
}

impl View for TextEdit {
    type V = TextEditModel;

    open spec fn view(&self) -> TextEditModel {
        TextEditModel {
            start_line: self.range.start.line as int,
            start_col: self.range.start.character as int,
            end_line: self.range.end.line as int,
            end_col: self.range.end.character as int,
            new_text: self.new_text@,
        }
    }
}

impl DeepView for TextEdit {
    type V = TextEditModel;

    open spec fn deep_view(&self) -> TextEditModel {
        self.view()
    }
}

/// The formatted output lines from line `k` on. `in_section` and
/// `prev_was_section` carry whether a section header has been seen and
/// whether the previous emitted line was one.
pub open spec fn format_lines_from(
    lines: Seq<Seq<char>>,
    k: int,
    in_section: bool,
    prev_was_section: bool,
) -> Seq<Seq<char>>
    decreases lines.len() - k,
{
    if k < 0 || k >= lines.len() {
        Seq::empty()
    } else {
        let t = trimmed(lines[k]);
        if t.len() == 0 {
            format_lines_from(lines, k + 1, in_section, prev_was_section)
        } else if t[0] == '#' {
            seq![t] + format_lines_from(lines, k + 1, in_section, prev_was_section)
        } else if t[0] == '[' && t[t.len() - 1] == ']' {
            let blank: Seq<Seq<char>> = if in_section || prev_was_section {
                seq![Seq::empty()]
            } else {
                Seq::empty()
            };
            blank + seq![t] + format_lines_from(lines, k + 1, true, true)
        } else {
            let p = find_in(t, '=', 0, t.len() as int);
            if p < t.len() {
                let key = t.subrange(0, last_non_ws_in(t, 0, p));
                let value = trimmed(t.subrange(p + 1, t.len() as int));
                seq![key + "="@ + value] + format_lines_from(lines, k + 1, in_section, false)
            } else {
                seq![t] + format_lines_from(lines, k + 1, in_section, false)
            }
        }
    }
}

/// The output lines joined by single newlines.
pub open spec fn join_newlines_from(ls: Seq<Seq<char>>, k: int) -> Seq<char>
    decreases ls.len() - k,
{
    if k < 0 || k >= ls.len() {
        Seq::empty()
    } else if k == ls.len() - 1 {
        ls[k]
    } else {
        ls[k] + "\n"@ + join_newlines_from(ls, k + 1)
    }
}

/// The formatted text: the formatted lines joined by newlines, with a final
/// newline when the result is not empty.
pub open spec fn format_spec(text: Seq<char>) -> Seq<char> {
    let out = format_lines_from(lines_spec(text), 0, false, false);
    let joined = join_newlines_from(out, 0);
    if joined.len() > 0 {
        joined + "\n"@
    } else {
        joined
    }
}

/// The cosmetic re-formatter.
#[derive(Debug)]
pub struct SystemdFormatter;

impl SystemdFormatter {
    /// A formatter.
    pub fn new() -> SystemdFormatter {
        SystemdFormatter
    }

    /// Formats `content` as `format_spec` describes.
    #[verifier::loop_isolation(false)]
    pub fn apply_opinionated_formatting(&self, content: &str) -> (r: String)
        ensures
            r@ == format_spec(content@),
    {
        let lines = split_lines(content);
        let ghost ld = lines.deep_view();
        let mut out: Vec<String> = Vec::new();
        let mut in_section: bool = false;
        let mut prev_was_section: bool = false;
        proof {
            assert(out.deep_view() =~= Seq::<Seq<char>>::empty());
            assert(out.deep_view() + format_lines_from(ld, 0, false, false) =~= format_lines_from(
                ld,
                0,
                false,
                false,
            ));
        }
        let ghost target = format_lines_from(ld, 0, false, false);
        let mut k: usize = 0;
        while k < lines.len()
            invariant
                0 <= k <= lines@.len(),
                out.deep_view() + format_lines_from(ld, k as int, in_section, prev_was_section)
                    == target,
            decreases lines@.len() - k,
        {
            let line: &str = lines[k].as_str();
            proof {
                assert(line@ == ld[k as int]);
            }
            let t: &str = trim_str(line);
            let n = t.unicode_len();
            let ghost before = out.deep_view();
            if n == 0 {
                // Blank lines are dropped.
            } else if t.get_char(0) == '#' {
                push_line(&mut out, t.to_owned());
                proof {
                    assert(out.deep_view() =~= before.push(t@));
                }
            } else if t.get_char(0) == '[' && t.get_char(n - 1) == ']' {
                if in_section || prev_was_section {
                    push_line(&mut out, String::new());
                    proof {
                        assert(out.deep_view() =~= before.push(Seq::<char>::empty()));
                    }
                }
                let ghost mid = out.deep_view();
                push_line(&mut out, t.to_owned());
                proof {
                    assert(out.deep_view() =~= mid.push(t@));
                    if in_section || prev_was_section {
                        assert(out.deep_view() =~= before + seq![Seq::<char>::empty()]
                            + seq![t@]);
                    } else {
                        assert(out.deep_view() =~= before + seq![t@]);
                    }
                }
                in_section = true;
                prev_was_section = true;
                k = k + 1;
                continue;
            } else {
                let p = find_char_in(t, '=', 0, n);
                if p < n {
                    let ke = last_non_ws_from(t, 0, p);
                    let key: &str = t.substring_char(0, ke);
                    let value: &str = trim_str(t.substring_char(p + 1, n));
                    let mut formatted = key.to_owned();
                    formatted.append("=");
                    formatted.append(value);
                    proof {
                        assert(value@ =~= trimmed(t@.subrange(p + 1, t@.len() as int)));
                        assert(formatted@ == key@ + "="@ + value@);
                    }
                    push_line(&mut out, formatted);
                    proof {
                        assert(out.deep_view() =~= before.push(key@ + "="@ + value@));
                    }
                } else {
                    push_line(&mut out, t.to_owned());
                    proof {
                        assert(out.deep_view() =~= before.push(t@));
                    }
                }
                prev_was_section = false;
                k = k + 1;
                continue;
            }
            k = k + 1;
        }
        proof {
            assert(format_lines_from(ld, k as int, in_section, prev_was_section)
                =~= Seq::<Seq<char>>::empty());
            assert(out.deep_view() =~= target);
        }
        // Join with newlines; a non-empty result ends in one newline.
        let ghost outv = out.deep_view();
        let mut joined = String::new();
        let m = out.len();
        let mut j: usize = 0;
        while j < m
            invariant
                0 <= j <= m,
                m == out@.len(),
                j == 0 ==> joined@ == Seq::<char>::empty(),
                0 < j < m ==> join_newlines_from(outv, 0) == joined@ + "\n"@ + join_newlines_from(
                    outv,
                    j as int,
                ),
                j == m && m > 0 ==> joined@ == join_newlines_from(outv, 0),
            decreases m - j,
        {
            proof {
                assert(outv[j as int] == out@[j as int]@);
            }
            if j > 0 {
                joined.append("\n");
            }
            joined.append(out[j].as_str());
            proof {
                if j == 0 {
                    assert(joined@ =~= outv[0]);
                    if m > 1 {
                        assert(join_newlines_from(outv, 0) =~= joined@ + "\n"@
                            + join_newlines_from(outv, 1));
                    } else {
                        assert(joined@ == join_newlines_from(outv, 0));
                    }
                } else {
                    if j + 1 < m {
                        assert(join_newlines_from(outv, j as int) == outv[j as int] + "\n"@
                            + join_newlines_from(outv, j + 1));
                        assert(join_newlines_from(outv, 0) =~= joined@ + "\n"@
                            + join_newlines_from(outv, j + 1));
                    } else {
                        assert(join_newlines_from(outv, j as int) == outv[j as int]);
                        assert(joined@ =~= join_newlines_from(outv, 0));
                    }
                }
            }
            j = j + 1;
        }
        proof {
            if m == 0 {
                assert(joined@ =~= join_newlines_from(outv, 0));
            }
        }
        if !joined.as_str().is_empty() {
            joined.append("\n");
        }
        joined
    }

    /// The edits that bring `text` to its formatted form: one whole-document
    /// replacement when formatting changes anything, nothing otherwise.
    pub fn format_document(&self, text: &str) -> (r: Vec<TextEdit>)
        ensures
            format_spec(text@) == text@ ==> r.deep_view() == Seq::<TextEditModel>::empty(),
            format_spec(text@) != text@ ==> r.deep_view() == seq![
                TextEditModel {
                    start_line: 0,
                    start_col: 0,
                    end_line: lines_spec(text@).len() as int,
                    end_col: 0,
                    new_text: format_spec(text@),
                },
            ],
    {
        let formatted = self.apply_opinionated_formatting(text);
        if str_eq(formatted.as_str(), text) {
            let r: Vec<TextEdit> = Vec::new();
            proof {
                assert(r.deep_view() =~= Seq::<TextEditModel>::empty());
            }
            r
        } else {
            let lines = split_lines(text);
            let mut r: Vec<TextEdit> = Vec::new();
            let edit = TextEdit {
                range: TextRange {
                    start: Position { line: 0, character: 0 },
                    end: Position { line: lines.len(), character: 0 },
                },
                new_text: formatted,
            };
            let ghost em = edit@;
            r.push(edit);
            proof {
                assert(r.deep_view() =~= seq![em]);
            }
            r
        }
    }

    /// Range formatting formats the whole document, so that the spacing
    /// between sections stays consistent; the requested range is accepted
    /// and ignored.
    pub fn format_range(&self, text: &str, range: TextRange) -> (r: Vec<TextEdit>)
        ensures
            format_spec(text@) == text@ ==> r.deep_view() == Seq::<TextEditModel>::empty(),
            format_spec(text@) != text@ ==> r.deep_view() == seq![
                TextEditModel {
                    start_line: 0,
                    start_col: 0,
                    end_line: lines_spec(text@).len() as int,
                    end_col: 0,
                    new_text: format_spec(text@),
                },
            ],
    {
        let _ = range;
        self.format_document(text)
    }
}

/// Appends a line to the output, relating the views.
fn push_line(out: &mut Vec<String>, line: String)
    ensures
        final(out).deep_view() == old(out).deep_view().push(line@),
{
    let ghost before = out.deep_view();
    let ghost raw = out@;
    let ghost lx = line@;
    out.push(line);
    proof {
        assert(out@.len() == raw.len() + 1);
        assert forall|t: int| 0 <= t < out@.len() implies #[trigger] out.deep_view()[t]
            == before.push(lx)[t] by {
            assert(out@[t] == raw.push(out@[raw.len() as int])[t]);
            if t < raw.len() {
                assert(raw.push(out@[raw.len() as int])[t] == raw[t]);
            }
        }
        assert(out.deep_view() =~= before.push(lx));
    }
}

} // verus!
