//! The cursor-context resolver: classifies what a cursor position inside a
//! document is editing — a section header, a directive name, a directive
//! value, or nothing at all.

use vstd::prelude::*;

use crate::parser::DirectiveModel;
use crate::parser::Position;
use crate::parser::SpanModel;
use crate::parser::SystemdUnit;
use crate::parser::UnitModel;
use crate::parser::header_at_from;
use crate::parser::section_idx_at_line;
use crate::text::find_char_in;
use crate::text::find_in;
use crate::text::lines_spec;
use crate::text::split_lines;
use crate::text::trim_str;
use crate::text::trimmed;

verus! {

/// Model of an edit context.
pub ghost enum ContextModel {
    SectionHeaderEdit,
    DirectiveNameEdit(Seq<char>),
    ValueEdit(Seq<char>, Seq<char>),
    Unscoped,
}

/// What the cursor is editing: a section header, a directive name inside
/// the named section, a value of the named directive inside the named
/// section, or nothing that the document model scopes.
#[derive(Clone, Debug, PartialEq, Eq)]
pub enum Context {
    SectionHeaderEdit,
    DirectiveNameEdit(String),
    ValueEdit(String, String),
    Unscoped,
}

impl View for Context {
    type V = ContextModel;

    open spec fn view(&self) -> ContextModel {
        match self {
            Context::SectionHeaderEdit => ContextModel::SectionHeaderEdit,
            Context::DirectiveNameEdit(section) => ContextModel::DirectiveNameEdit(section@),
            Context::ValueEdit(section, key) => ContextModel::ValueEdit(section@, key@),
            Context::Unscoped => ContextModel::Unscoped,
        }
    }
}

/// Whether some value span, from index `k` on, lies on `line` with its start
/// at or before column `ch`.
pub open spec fn span_hit(spans: Seq<SpanModel>, line: int, ch: int, k: int) -> bool
    decreases spans.len() - k,
{
    if k < 0 || k >= spans.len() {
        false
    } else if spans[k].line == line && ch >= spans[k].start {
        true
    } else {
        span_hit(spans, line, ch, k + 1)
    }
}

/// The key of the first directive, from index `k` on, one of whose value
/// spans is hit by the cursor.
pub open spec fn directive_span_hit(
    dirs: Seq<DirectiveModel>,
    line: int,
    ch: int,
    k: int,
) -> Option<Seq<char>>
    decreases dirs.len() - k,
{
    if k < 0 || k >= dirs.len() {
        None
    } else if span_hit(dirs[k].value_spans, line, ch, 0) {
        Some(dirs[k].key)
    } else {
        directive_span_hit(dirs, line, ch, k + 1)
    }
}

/// The context at (`line`, `ch`) in the document `m`, in priority order:
/// a line past the end of the text is unscoped; a line whose content up to
/// and including the cursor column starts with `[` (checked on the raw
/// text, so that a header that failed to parse still counts), or on which a
/// parsed section's header stands, is a header edit; outside every section's line range the cursor
/// is unscoped; on a line containing `=` with the cursor strictly right of
/// it, the value of the key left of `=` is being edited; on a continuation
/// line of a recorded value span at or after its start column, that
/// directive's value is being edited; anything else edits a directive name.
pub open spec fn resolve_spec(m: UnitModel, line: int, ch: int) -> ContextModel {
    let ls = lines_spec(m.raw_text);
    if line < 0 || line >= ls.len() {
        ContextModel::Unscoped
    } else {
        let l = ls[line];
        let cut = if ch + 1 < l.len() {
            ch + 1
        } else {
            l.len() as int
        };
        let sliced = trimmed(l.subrange(0, cut));
        if sliced.len() > 0 && sliced[0] == '[' {
            ContextModel::SectionHeaderEdit
        } else if header_at_from(m.sections, line, 0) is Some {
            ContextModel::SectionHeaderEdit
        } else {
            let idx = section_idx_at_line(m.sections, line, 0);
            if idx == m.sections.len() {
                ContextModel::Unscoped
            } else {
                let sec = m.sections[idx];
                let eq = find_in(l, '=', 0, l.len() as int);
                if eq < l.len() && ch > eq {
                    ContextModel::ValueEdit(sec.name, trimmed(l.subrange(0, eq)))
                } else {
                    match directive_span_hit(sec.directives, line, ch, 0) {
                        Some(key) => ContextModel::ValueEdit(sec.name, key),
                        None => ContextModel::DirectiveNameEdit(sec.name),
                    }
                }
            }
        }
    }
}

/// Classifies what the cursor at `position` is editing in `unit`.
#[verifier::loop_isolation(false)]
pub fn resolve_context(unit: &SystemdUnit, position: &Position) -> (r: Context)
    ensures
        r@ == resolve_spec(unit@, position.line as int, position.character as int),
{
    let ghost m = unit@;
    let lines = split_lines(unit.raw_text.as_str());
    if position.line >= lines.len() {
        return Context::Unscoped;
    }
    let line: &str = lines[position.line].as_str();
    proof {
        assert(line@ == lines.deep_view()[position.line as int]);
    }
    let n = line.unicode_len();
    let cut = if position.character < n {
        position.character + 1
    } else {
        n
    };
    let sliced = trim_str(line.substring_char(0, cut));
    if !sliced.is_empty() && sliced.get_char(0) == '[' {
        return Context::SectionHeaderEdit;
    }
    // A parsed section whose header stands on this line.
    let mut k: usize = 0;
    while k < unit.sections.len()
        invariant
            0 <= k <= unit.sections@.len(),
            m == unit@,
            header_at_from(m.sections, position.line as int, 0) == header_at_from(
                m.sections,
                position.line as int,
                k as int,
            ),
        decreases unit.sections@.len() - k,
    {
        if unit.sections[k].line_range.0 == position.line {
            proof {
                assert(m.sections[k as int] == unit.sections@[k as int]@);
                assert(header_at_from(m.sections, position.line as int, k as int) is Some);
            }
            return Context::SectionHeaderEdit;
        }
        proof {
            assert(m.sections[k as int] == unit.sections@[k as int]@);
        }
        k = k + 1;
    }
    // The enclosing section, by line range.
    let mut idx: usize = 0;
    let mut found: bool = false;
    while idx < unit.sections.len() && !found
        invariant
            0 <= idx <= unit.sections@.len(),
            m == unit@,
            !found ==> section_idx_at_line(m.sections, position.line as int, 0)
                == section_idx_at_line(m.sections, position.line as int, idx as int),
            found ==> idx < unit.sections@.len() && section_idx_at_line(
                m.sections,
                position.line as int,
                0,
            ) == idx as int,
        decreases unit.sections@.len() - idx + (if found { 0int } else { 1int }),
    {
        let section = &unit.sections[idx];
        proof {
            assert(m.sections[idx as int] == unit.sections@[idx as int]@);
        }
        if section.line_range.0 <= position.line && position.line <= section.line_range.1 {
            found = true;
        } else {
            idx = idx + 1;
        }
    }
    if !found {
        return Context::Unscoped;
    }
    let section = &unit.sections[idx];
    proof {
        assert(section@ == m.sections[idx as int]);
    }
    let eq = find_char_in(line, '=', 0, n);
    if eq < n && position.character > eq {
        let key = trim_str(line.substring_char(0, eq));
        return Context::ValueEdit(section.name.clone(), key.to_owned());
    }
    // A continuation line of a recorded value span.
    let ghost dirs = section@.directives;
    let mut di: usize = 0;
    while di < section.directives.len()
        invariant
            0 <= di <= section.directives@.len(),
            dirs == section@.directives,
            directive_span_hit(dirs, position.line as int, position.character as int, 0)
                == directive_span_hit(
                dirs,
                position.line as int,
                position.character as int,
                di as int,
            ),
        decreases section.directives@.len() - di,
    {
        let directive = &section.directives[di];
        proof {
            assert(dirs[di as int] == section.directives@[di as int]@);
        }
        let ghost spans = directive@.value_spans;
        let mut si: usize = 0;
        let mut hit: bool = false;
        while si < directive.value_spans.len() && !hit
            invariant
                0 <= si <= directive.value_spans@.len(),
                spans == directive@.value_spans,
                !hit ==> span_hit(spans, position.line as int, position.character as int, 0)
                    == span_hit(spans, position.line as int, position.character as int, si as int),
                hit ==> span_hit(spans, position.line as int, position.character as int, 0),
            decreases directive.value_spans@.len() - si + (if hit { 0int } else { 1int }),
        {
            let span = &directive.value_spans[si];
            if span.line == position.line && position.character >= span.start {
                hit = true;
            } else {
                si = si + 1;
            }
        }
        if hit {
            proof {
                assert(dirs[di as int] == section.directives@[di as int]@);
                assert(directive_span_hit(dirs, position.line as int,
                    position.character as int, di as int) == Some(directive@.key));
            }
            return Context::ValueEdit(section.name.clone(), directive.key.clone());
        }
        proof {
            assert(!span_hit(spans, position.line as int, position.character as int, 0));
        }
        di = di + 1;
    }
    Context::DirectiveNameEdit(section.name.clone())
}

} // verus!
