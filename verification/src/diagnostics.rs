//! The validation engine: checks a parsed document against a vocabulary and
//! produces diagnostics. A diagnostic is data — a range, a severity and a
//! message — and each validation pass recomputes the full list.
//!
//! Rules, per section in source order, then per directive in source order:
//! an unknown section name gets one warning spanning the header and its
//! directives are not looked at further; an unknown directive key gets a
//! warning at the key's columns; `ExecStart` in `[Service]` with an empty
//! value gets the error `ExecStart cannot be empty` at its zero-width value
//! span, short-circuiting the generic value rule; a directive with an
//! enumerated value domain whose value is not in it (for the stream
//! selectors `StandardOutput`/`StandardError`, neither equal to nor starting
//! with an allowed token) gets an error spanning the whole multi-line extent
//! of the value.

use vstd::prelude::*;

use crate::parser::DirectiveModel;
use crate::parser::Position;
use crate::parser::SectionModel;
use crate::parser::SystemdUnit;
use crate::parser::UnitModel;
use crate::store::DiagnosticsStore;
use crate::store::diag_store_contents;
use crate::text::is_prefix_of;
use crate::text::str_eq;
use crate::text::str_starts_with;
use crate::vocabulary::Vocabulary;
use crate::vocabulary::VocabularyModel;
use crate::vocabulary::contains_string;
use crate::vocabulary::enumerated_values_spec;
use crate::vocabulary::lookup_values_from;
use crate::vocabulary::seq_contains_str;

verus! {

// ---------------------------------------------------------------------------
// Diagnostic data
// ---------------------------------------------------------------------------
/// How severe a diagnostic is.
#[derive(Clone, Copy, Debug, PartialEq, Eq)]
pub enum DiagnosticSeverity {
    Warning,
    Error,
}

/// A text range: start and end positions, half-open on columns.
#[derive(Clone, Copy, Debug, PartialEq, Eq)]
pub struct TextRange {
    pub start: Position,
    pub end: Position,
}

/// Model of a diagnostic.
pub ghost struct DiagnosticModel {
    pub start_line: int,
    pub start_col: int,
    pub end_line: int,
    pub end_col: int,
    pub severity: DiagnosticSeverity,
    pub message: Seq<char>,
}

/// One finding of the validation engine.
#[derive(Debug)]
pub struct Diagnostic {
    pub range: TextRange,
    pub severity: DiagnosticSeverity,
    pub message: String,
}

impl View for Diagnostic {
    type V = DiagnosticModel;

    open spec fn view(&self) -> DiagnosticModel {
        DiagnosticModel {
            start_line: self.range.start.line as int,
            start_col: self.range.start.character as int,
            end_line: self.range.end.line as int,
            end_col: self.range.end.character as int,
            severity: self.severity,
            message: self.message@,
        }
    }
}

impl DeepView for Diagnostic {
    type V = DiagnosticModel;

    open spec fn deep_view(&self) -> DiagnosticModel {
        self.view()
    }
}

impl Clone for Diagnostic {
    fn clone(&self) -> (res: Self)
        ensures
            res@ == self@,
    {
        Diagnostic {
            range: self.range,
            severity: self.severity,
            message: self.message.clone(),
        }
    }
}

// ---------------------------------------------------------------------------
// Messages
// ---------------------------------------------------------------------------
/// Message for an unknown section name.
pub open spec fn msg_unknown_section(name: Seq<char>) -> Seq<char> {
    "Unknown section: ["@ + name + "]"@
}

/// Message for an unknown directive key.
pub open spec fn msg_unknown_directive(key: Seq<char>, section: Seq<char>) -> Seq<char> {
    "Unknown directive '"@ + key + "' in ["@ + section + "] section"@
}

/// The elements of `values` from index `k` on, joined by `", "`.
pub open spec fn join_comma_from(values: Seq<Seq<char>>, k: int) -> Seq<char>
    decreases values.len() - k,
{
    if k < 0 || k >= values.len() {
        Seq::empty()
    } else if k == values.len() - 1 {
        values[k]
    } else {
        values[k] + ", "@ + join_comma_from(values, k + 1)
    }
}

/// Message for a value outside its enumerated domain.
pub open spec fn msg_invalid_value(
    key: Seq<char>,
    value: Seq<char>,
    values: Seq<Seq<char>>,
) -> Seq<char> {
    "Invalid "@ + key + " value '"@ + value + "'. Valid values: "@ + join_comma_from(values, 0)
}

/// Appends the elements of `values` joined by `", "` to a fresh string.
#[verifier::loop_isolation(false)]
pub fn join_comma(values: &Vec<String>) -> (r: String)
    ensures
        r@ == join_comma_from(values.deep_view(), 0),
{
    let ghost vs = values.deep_view();
    let mut acc = String::new();
    let n = values.len();
    let mut k: usize = 0;
    while k < n
        invariant
            0 <= k <= n,
            n == values@.len(),
            k == 0 ==> acc@ == Seq::<char>::empty(),
            0 < k < n ==> join_comma_from(vs, 0) == acc@ + ", "@ + join_comma_from(vs, k as int),
            k == n && n > 0 ==> acc@ == join_comma_from(vs, 0),
        decreases n - k,
    {
        proof {
            assert(vs[k as int] == values@[k as int]@);
        }
        if k > 0 {
            acc.append(", ");
        }
        acc.append(values[k].as_str());
        proof {
            if k == 0 {
                assert(acc@ =~= vs[0]);
                if n > 1 {
                    assert(join_comma_from(vs, 0) =~= acc@ + ", "@ + join_comma_from(vs, 1));
                } else {
                    assert(acc@ == join_comma_from(vs, 0));
                }
            } else {
                if k + 1 < n {
                    assert(join_comma_from(vs, k as int) == vs[k as int] + ", "@
                        + join_comma_from(vs, k + 1));
                    assert(join_comma_from(vs, 0) =~= acc@ + ", "@ + join_comma_from(vs, k + 1));
                } else {
                    assert(join_comma_from(vs, k as int) == vs[k as int]);
                    assert(acc@ =~= join_comma_from(vs, 0));
                }
            }
        }
        k = k + 1;
    }
    proof {
        if n == 0 {
            assert(acc@ =~= join_comma_from(vs, 0));
        }
    }
    acc
}

// ---------------------------------------------------------------------------
// Validation rules, spec level
// ---------------------------------------------------------------------------
/// Whether `value` is acceptable for `key` given the enumerated domain: for
/// the stream selectors it may also start with an allowed token (admitting
/// `file:/path`-style values); for every other key it must be a member.
pub open spec fn value_ok(key: Seq<char>, value: Seq<char>, values: Seq<Seq<char>>) -> bool {
    if key == "StandardOutput"@ || key == "StandardError"@ {
        exists|i: int|
            0 <= i < values.len() && (values[i] == value || is_prefix_of(values[i], value))
    } else {
        seq_contains_str(values, value)
    }
}

/// The range a value diagnostic covers: from the first value span's start to
/// the last value span's end (one diagnostic over the full multi-line extent
/// of a continued value); a directive without spans anchors one column after
/// its key.
pub open spec fn value_range(d: DirectiveModel) -> DiagnosticModel {
    if d.value_spans.len() == 0 {
        let col = if d.col_end + 1 <= usize::MAX as int {
            d.col_end + 1
        } else {
            usize::MAX as int
        };
        DiagnosticModel {
            start_line: d.line_number,
            start_col: col,
            end_line: d.line_number,
            end_col: col,
            severity: DiagnosticSeverity::Error,
            message: Seq::empty(),
        }
    } else {
        DiagnosticModel {
            start_line: d.value_spans[0].line,
            start_col: d.value_spans[0].start,
            end_line: d.value_spans[d.value_spans.len() - 1].line,
            end_col: d.value_spans[d.value_spans.len() - 1].end,
            severity: DiagnosticSeverity::Error,
            message: Seq::empty(),
        }
    }
}

/// An error diagnostic over a directive's value extent.
pub open spec fn value_diag(d: DirectiveModel, msg: Seq<char>) -> DiagnosticModel {
    DiagnosticModel { message: msg, ..value_range(d) }
}

/// The value diagnostics of one directive: the `ExecStart` special case,
/// else the generic enumerated-domain rule.
pub open spec fn directive_value_diags(
    v: VocabularyModel,
    sname: Seq<char>,
    d: DirectiveModel,
) -> Seq<DiagnosticModel> {
    if sname == "Service"@ && d.key == "ExecStart"@ && d.value.len() == 0 {
        seq![value_diag(d, "ExecStart cannot be empty"@)]
    } else {
        match enumerated_values_spec(v, sname, d.key) {
            Some(values) => if !value_ok(d.key, d.value, values) {
                seq![value_diag(d, msg_invalid_value(d.key, d.value, values))]
            } else {
                Seq::empty()
            },
            None => Seq::empty(),
        }
    }
}

/// The unknown-key warning of one directive, if its key is not allowed in
/// the section.
pub open spec fn directive_key_diags(
    allowed: Seq<Seq<char>>,
    sname: Seq<char>,
    d: DirectiveModel,
) -> Seq<DiagnosticModel> {
    if !seq_contains_str(allowed, d.key) {
        seq![
            DiagnosticModel {
                start_line: d.line_number,
                start_col: d.col_start,
                end_line: d.line_number,
                end_col: d.col_end,
                severity: DiagnosticSeverity::Warning,
                message: msg_unknown_directive(d.key, sname),
            },
        ]
    } else {
        Seq::empty()
    }
}

/// The diagnostics of the directives from index `k` on.
pub open spec fn directives_diags(
    v: VocabularyModel,
    sname: Seq<char>,
    allowed: Seq<Seq<char>>,
    dirs: Seq<DirectiveModel>,
    k: int,
) -> Seq<DiagnosticModel>
    decreases dirs.len() - k,
{
    if k < 0 || k >= dirs.len() {
        Seq::empty()
    } else {
        directive_key_diags(allowed, sname, dirs[k]) + directive_value_diags(v, sname, dirs[k])
            + directives_diags(v, sname, allowed, dirs, k + 1)
    }
}

/// The diagnostics of one section: one warning spanning the header when the
/// section name is unknown (its directives then unexamined), else the
/// directive diagnostics.
pub open spec fn section_diags(v: VocabularyModel, sec: SectionModel) -> Seq<DiagnosticModel> {
    if !seq_contains_str(v.sections, sec.name) {
        seq![
            DiagnosticModel {
                start_line: sec.line_start,
                start_col: 0,
                end_line: sec.line_start,
                end_col: if sec.name.len() + 2 <= usize::MAX as int {
                    sec.name.len() as int + 2
                } else {
                    usize::MAX as int
                },
                severity: DiagnosticSeverity::Warning,
                message: msg_unknown_section(sec.name),
            },
        ]
    } else {
        match lookup_values_from(v.section_directives, sec.name, 0) {
            Some(allowed) => directives_diags(v, sec.name, allowed, sec.directives, 0),
            None => Seq::empty(),
        }
    }
}

/// The diagnostics of the sections from index `k` on.
pub open spec fn validate_from(
    v: VocabularyModel,
    secs: Seq<SectionModel>,
    k: int,
) -> Seq<DiagnosticModel>
    decreases secs.len() - k,
{
    if k < 0 || k >= secs.len() {
        Seq::empty()
    } else {
        section_diags(v, secs[k]) + validate_from(v, secs, k + 1)
    }
}

/// All diagnostics of a document under a vocabulary, in source order.
pub open spec fn validate_spec(m: UnitModel, v: VocabularyModel) -> Seq<DiagnosticModel> {
    validate_from(v, m.sections, 0)
}

// ---------------------------------------------------------------------------
// Validation rules, executable
// ---------------------------------------------------------------------------
/// Builds the message for an unknown section.
fn build_msg_unknown_section(name: &str) -> (r: String)
    ensures
        r@ == msg_unknown_section(name@),
{
    let mut m = String::new();
    m.append("Unknown section: [");
    m.append(name);
    m.append("]");
    proof {
        assert(m@ =~= msg_unknown_section(name@));
    }
    m
}

/// Builds the message for an unknown directive key.
fn build_msg_unknown_directive(key: &str, section: &str) -> (r: String)
    ensures
        r@ == msg_unknown_directive(key@, section@),
{
    let mut m = String::new();
    m.append("Unknown directive '");
    m.append(key);
    m.append("' in [");
    m.append(section);
    m.append("] section");
    proof {
        assert(m@ =~= msg_unknown_directive(key@, section@));
    }
    m
}

/// Builds the message for a value outside its enumerated domain.
fn build_msg_invalid_value(key: &str, value: &str, values: &Vec<String>) -> (r: String)
    ensures
        r@ == msg_invalid_value(key@, value@, values.deep_view()),
{
    let joined = join_comma(values);
    let mut m = String::new();
    m.append("Invalid ");
    m.append(key);
    m.append(" value '");
    m.append(value);
    m.append("'. Valid values: ");
    m.append(joined.as_str());
    proof {
        assert(m@ =~= msg_invalid_value(key@, value@, values.deep_view()));
    }
    m
}

/// Whether `value` is acceptable for `key` under the enumerated domain.
#[verifier::loop_isolation(false)]
fn check_value_ok(key: &str, value: &str, values: &Vec<String>) -> (r: bool)
    ensures
        r == value_ok(key@, value@, values.deep_view()),
{
    let ghost vs = values.deep_view();
    if str_eq(key, "StandardOutput") || str_eq(key, "StandardError") {
        let mut i: usize = 0;
        while i < values.len()
            invariant
                0 <= i <= values@.len(),
                forall|j: int|
                    0 <= j < i ==> !(vs[j] == value@ || is_prefix_of(#[trigger] vs[j], value@)),
            decreases values@.len() - i,
        {
            proof {
                assert(vs[i as int] == values@[i as int]@);
            }
            if str_eq(values[i].as_str(), value) || str_starts_with(value, values[i].as_str()) {
                return true;
            }
            i = i + 1;
        }
        false
    } else {
        contains_string(values, value)
    }
}

/// The error range over a directive's whole value extent.
fn make_value_diag(directive: &crate::parser::SystemdDirective, message: String) -> (r: Diagnostic)
    ensures
        r@ == value_diag(directive@, message@),
{
    if directive.value_spans.len() == 0 {
        let col = if directive.column_range.1 < usize::MAX {
            directive.column_range.1 + 1
        } else {
            usize::MAX
        };
        proof {
            assert(directive@.value_spans.len() == 0);
        }
        Diagnostic {
            range: TextRange {
                start: Position { line: directive.line_number, character: col },
                end: Position { line: directive.line_number, character: col },
            },
            severity: DiagnosticSeverity::Error,
            message,
        }
    } else {
        let first = directive.value_spans[0];
        let last = directive.value_spans[directive.value_spans.len() - 1];
        proof {
            assert(directive@.value_spans[0] == first@);
            assert(directive@.value_spans[directive@.value_spans.len() - 1] == last@);
        }
        Diagnostic {
            range: TextRange {
                start: Position { line: first.line, character: first.start },
                end: Position { line: last.line, character: last.end },
            },
            severity: DiagnosticSeverity::Error,
            message,
        }
    }
}

/// Validates a document against a vocabulary: the full list of diagnostics,
/// recomputed from scratch, exactly as `validate_spec` describes.
#[verifier::loop_isolation(false)]
pub fn validate(unit: &SystemdUnit, vocab: &Vocabulary) -> (r: Vec<Diagnostic>)
    ensures
        r.deep_view() == validate_spec(unit@, vocab@),
{
    let ghost m = unit@;
    let ghost vm = vocab@;
    let mut diags: Vec<Diagnostic> = Vec::new();
    proof {
        assert(diags.deep_view() =~= Seq::<DiagnosticModel>::empty());
        assert(diags.deep_view() + validate_from(vm, m.sections, 0) =~= validate_spec(m, vm));
    }
    let mut si: usize = 0;
    while si < unit.sections.len()
        invariant
            0 <= si <= unit.sections@.len(),
            diags.deep_view() + validate_from(vm, m.sections, si as int) == validate_spec(m, vm),
        decreases unit.sections@.len() - si,
    {
        let section = &unit.sections[si];
        proof {
            assert(section@ == m.sections[si as int]);
        }
        let ghost before = diags.deep_view();
        if !vocab.has_section(section.name.as_str()) {
            let name_len = section.name.as_str().unicode_len();
            let end_col = if name_len <= usize::MAX - 2 {
                name_len + 2
            } else {
                usize::MAX
            };
            let ghost raw = diags@;
            let d = Diagnostic {
                range: TextRange {
                    start: Position { line: section.line_range.0, character: 0 },
                    end: Position { line: section.line_range.0, character: end_col },
                },
                severity: DiagnosticSeverity::Warning,
                message: build_msg_unknown_section(section.name.as_str()),
            };
            let ghost dx = d;
            diags.push(d);
            proof {
                assert(diags@ == raw.push(dx));
                assert forall|t: int| 0 <= t < diags@.len() implies #[trigger] diags.deep_view()[t]
                    == before.push(dx@)[t] by {
                    assert(diags@[t] == raw.push(dx)[t]);
                    if t < raw.len() {
                        assert(raw.push(dx)[t] == raw[t]);
                    }
                }
                assert(diags.deep_view() =~= before.push(dx@));
                assert(section_diags(vm, section@) =~= seq![dx@]);
                assert(diags.deep_view() + validate_from(vm, m.sections, si + 1) =~=
                    validate_spec(m, vm));
            }
        } else {
            match vocab.directives_of(section.name.as_str()) {
                Some(allowed) => {
                    let ghost al = allowed.deep_view();
                    let ghost dirs = section@.directives;
                    proof {
                        assert(section_diags(vm, section@) == directives_diags(vm, section@.name,
                            al, dirs, 0));
                        assert(diags.deep_view() + directives_diags(vm, section@.name, al, dirs, 0)
                            + validate_from(vm, m.sections, si + 1) =~= validate_spec(m, vm));
                    }
                    let mut di: usize = 0;
                    while di < section.directives.len()
                        invariant
                            0 <= di <= section.directives@.len(),
                            diags.deep_view() + directives_diags(vm, section@.name, al, dirs,
                                di as int) + validate_from(vm, m.sections, si + 1) == validate_spec(
                                m,
                                vm,
                            ),
                        decreases section.directives@.len() - di,
                    {
                        let directive = &section.directives[di];
                        proof {
                            assert(directive@ == dirs[di as int]);
                        }
                        let ghost before_d = diags.deep_view();
                        // Unknown directive key.
                        if !contains_string(allowed, directive.key.as_str()) {
                            let ghost raw = diags@;
                            let d = Diagnostic {
                                range: TextRange {
                                    start: Position {
                                        line: directive.line_number,
                                        character: directive.column_range.0,
                                    },
                                    end: Position {
                                        line: directive.line_number,
                                        character: directive.column_range.1,
                                    },
                                },
                                severity: DiagnosticSeverity::Warning,
                                message: build_msg_unknown_directive(
                                    directive.key.as_str(),
                                    section.name.as_str(),
                                ),
                            };
                            let ghost dx = d;
                            diags.push(d);
                            proof {
                                assert(diags@ == raw.push(dx));
                                assert forall|t: int| 0 <= t < diags@.len() implies
                                    #[trigger] diags.deep_view()[t] == before_d.push(dx@)[t] by {
                                    assert(diags@[t] == raw.push(dx)[t]);
                                    if t < raw.len() {
                                        assert(raw.push(dx)[t] == raw[t]);
                                    }
                                }
                                assert(diags.deep_view() =~= before_d.push(dx@));
                                assert(directive_key_diags(al, section@.name, directive@)
                                    =~= seq![dx@]);
                            }
                        } else {
                            proof {
                                assert(directive_key_diags(al, section@.name, directive@)
                                    =~= Seq::<DiagnosticModel>::empty());
                            }
                        }
                        let ghost after_key = diags.deep_view();
                        proof {
                            assert(after_key =~= before_d + directive_key_diags(al, section@.name,
                                directive@));
                        }
                        // Value rules.
                        if str_eq(section.name.as_str(), "Service") && str_eq(
                            directive.key.as_str(),
                            "ExecStart",
                        ) && directive.value.as_str().is_empty() {
                            let ghost raw = diags@;
                            let mut msg = String::new();
                            msg.append("ExecStart cannot be empty");
                            proof {
                                assert(msg@ =~= "ExecStart cannot be empty"@);
                            }
                            let d = make_value_diag(directive, msg);
                            let ghost dx = d;
                            diags.push(d);
                            proof {
                                assert(diags@ == raw.push(dx));
                                assert forall|t: int| 0 <= t < diags@.len() implies
                                    #[trigger] diags.deep_view()[t] == after_key.push(dx@)[t] by {
                                    assert(diags@[t] == raw.push(dx)[t]);
                                    if t < raw.len() {
                                        assert(raw.push(dx)[t] == raw[t]);
                                    }
                                }
                                assert(diags.deep_view() =~= after_key.push(dx@));
                                assert(directive_value_diags(vm, section@.name, directive@)
                                    =~= seq![dx@]);
                            }
                        } else {
                            match vocab.enumerated_values(
                                section.name.as_str(),
                                directive.key.as_str(),
                            ) {
                                Some(values) => {
                                    if !check_value_ok(
                                        directive.key.as_str(),
                                        directive.value.as_str(),
                                        values,
                                    ) {
                                        let ghost raw = diags@;
                                        let msg = build_msg_invalid_value(
                                            directive.key.as_str(),
                                            directive.value.as_str(),
                                            values,
                                        );
                                        let d = make_value_diag(directive, msg);
                                        let ghost dx = d;
                                        diags.push(d);
                                        proof {
                                            assert(diags@ == raw.push(dx));
                                            assert forall|t: int| 0 <= t < diags@.len() implies
                                                #[trigger] diags.deep_view()[t] == after_key.push(
                                                dx@,
                                            )[t] by {
                                                assert(diags@[t] == raw.push(dx)[t]);
                                                if t < raw.len() {
                                                    assert(raw.push(dx)[t] == raw[t]);
                                                }
                                            }
                                            assert(diags.deep_view() =~= after_key.push(dx@));
                                            assert(directive_value_diags(vm, section@.name,
                                                directive@) =~= seq![dx@]);
                                        }
                                    } else {
                                        proof {
                                            assert(directive_value_diags(vm, section@.name,
                                                directive@) =~= Seq::<DiagnosticModel>::empty());
                                        }
                                    }
                                },
                                None => {
                                    proof {
                                        assert(directive_value_diags(vm, section@.name, directive@)
                                            =~= Seq::<DiagnosticModel>::empty());
                                    }
                                },
                            }
                        }
                        proof {
                            assert(diags.deep_view() =~= after_key + directive_value_diags(vm,
                                section@.name, directive@));
                            assert(directives_diags(vm, section@.name, al, dirs, di as int)
                                =~= directive_key_diags(al, section@.name, directive@)
                                + directive_value_diags(vm, section@.name, directive@)
                                + directives_diags(vm, section@.name, al, dirs, di + 1));
                            assert(diags.deep_view() + directives_diags(vm, section@.name, al,
                                dirs, di + 1) + validate_from(vm, m.sections, si + 1)
                                =~= validate_spec(m, vm));
                        }
                        di = di + 1;
                    }
                    proof {
                        assert(directives_diags(vm, section@.name, al, dirs,
                            section.directives@.len() as int)
                            =~= Seq::<DiagnosticModel>::empty());
                        assert(diags.deep_view() + validate_from(vm, m.sections, si + 1)
                            =~= validate_spec(m, vm));
                    }
                },
                None => {
                    proof {
                        assert(section_diags(vm, section@) =~= Seq::<DiagnosticModel>::empty());
                        assert(diags.deep_view() + validate_from(vm, m.sections, si + 1)
                            =~= validate_spec(m, vm));
                    }
                },
            }
        }
        si = si + 1;
    }
    proof {
        assert(validate_from(vm, m.sections, si as int) =~= Seq::<DiagnosticModel>::empty());
        assert(diags.deep_view() =~= validate_spec(m, vm));
    }
    diags
}

// ---------------------------------------------------------------------------
// The diagnostics component
// ---------------------------------------------------------------------------
/// The validation engine with its vocabulary and its per-document store of
/// the latest diagnostics.
pub struct SystemdDiagnostics {
    vocabulary: Vocabulary,
    diagnostics: DiagnosticsStore,
}

impl View for SystemdDiagnostics {
    type V = (VocabularyModel, Map<Seq<char>, Seq<DiagnosticModel>>);

    /// The vocabulary in use and the store's contents.
    closed spec fn view(&self) -> (VocabularyModel, Map<Seq<char>, Seq<DiagnosticModel>>) {
        (self.vocabulary@, diag_store_contents(self.diagnostics))
    }
}

impl SystemdDiagnostics {
    /// A validation engine over the standard vocabulary, with an empty
    /// store.
    pub fn new() -> SystemdDiagnostics {
        SystemdDiagnostics {
            vocabulary: crate::constants::SystemdConstants::standard_vocabulary(),
            diagnostics: DiagnosticsStore::new(),
        }
    }

    /// A validation engine over the given vocabulary, with an empty store.
    pub fn with_vocabulary(vocabulary: Vocabulary) -> (r: SystemdDiagnostics)
        ensures
            r@.0 == vocabulary@,
    {
        SystemdDiagnostics { vocabulary, diagnostics: DiagnosticsStore::new() }
    }

    /// Validates `unit` and files the diagnostics under `id`, replacing all
    /// earlier diagnostics for that document.
    pub fn update(&mut self, id: &str, unit: &SystemdUnit)
        ensures
            final(self)@.0 == old(self)@.0,
            final(self)@.1 == old(self)@.1.insert(id@, validate_spec(unit@, old(self)@.0)),
    {
        let diags = validate(unit, &self.vocabulary);
        self.diagnostics.insert(id, diags);
    }

    /// The latest diagnostics stored under `id`; empty if none are stored.
    pub fn get_diagnostics(&self, id: &str) -> (r: Vec<Diagnostic>)
        ensures
            self@.1.contains_key(id@) ==> r.deep_view() == self@.1[id@],
            !self@.1.contains_key(id@) ==> r.deep_view() == Seq::<DiagnosticModel>::empty(),
    {
        match self.diagnostics.get(id) {
            Some(diags) => diags,
            None => {
                let r: Vec<Diagnostic> = Vec::new();
                proof {
                    assert(r.deep_view() =~= Seq::<DiagnosticModel>::empty());
                }
                r
            },
        }
    }
}

} // verus!
