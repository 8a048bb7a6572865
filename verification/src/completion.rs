//! Completion data: the items offered while editing — section headers and
//! the directives of the common sections — with their markdown
//! documentation, deduplicated by label.

use vstd::prelude::*;

use crate::constants::SystemdConstants;
use crate::text::lower_of;
use crate::text::str_eq;
use crate::text::to_lowercase;
use crate::vocabulary::seq_contains_str;

verus! {

/// What kind of item a completion inserts.
#[derive(Clone, Copy, Debug, PartialEq, Eq)]
pub enum CompletionKind {
    Module,
    Property,
}

/// Model of a completion entry.
pub ghost struct CompletionEntryModel {
    pub label: Seq<char>,
    pub kind: CompletionKind,
    pub detail: Seq<char>,
    pub documentation: Seq<char>,
    pub insert_text: Seq<char>,
}

/// One completion item: its label, kind, a one-line detail, markdown
/// documentation, and the text it inserts.
#[derive(Debug)]
pub struct CompletionEntry {
    pub label: String,
    pub kind: CompletionKind,
    pub detail: String,
    pub documentation: String,
    pub insert_text: String,
}

impl View for CompletionEntry {
    type V = CompletionEntryModel;

    open spec fn view(&self) -> CompletionEntryModel {
        CompletionEntryModel {
            label: self.label@,
            kind: self.kind,
            detail: self.detail@,
            documentation: self.documentation@,
            insert_text: self.insert_text@,
        }
    }
}

impl DeepView for CompletionEntry {
    type V = CompletionEntryModel;

    open spec fn deep_view(&self) -> CompletionEntryModel {
        self.view()
    }
}

impl Clone for CompletionEntry {
    fn clone(&self) -> (res: Self)
        ensures
            res@ == self@,
    {
        CompletionEntry {
            label: self.label.clone(),
            kind: self.kind,
            detail: self.detail.clone(),
            documentation: self.documentation.clone(),
            insert_text: self.insert_text.clone(),
        }
    }
}

/// The markdown documentation body: title in bold, the description, and a
/// reference line.
pub open spec fn doc_markdown(title: Seq<char>, description: Seq<char>, reference: Seq<char>) -> Seq<
    char,
> {
    "**"@ + title + "**\n\n"@ + description + "\n\n---\n*Reference: "@ + reference + "*"@
}

/// Builds the markdown documentation body.
pub fn create_documentation(title: &str, description: &str, reference: &str) -> (r: String)
    ensures
        r@ == doc_markdown(title@, description@, reference@),
{
    let mut m = String::new();
    m.append("**");
    m.append(title);
    m.append("**\n\n");
    m.append(description);
    m.append("\n\n---\n*Reference: ");
    m.append(reference);
    m.append("*");
    proof {
        assert(m@ =~= doc_markdown(title@, description@, reference@));
    }
    m
}

/// A completion entry for a directive key: labelled by the key, inserting
/// `key=`.
pub fn create_directive_completion(key: &str, description: &str) -> (r: CompletionEntry)
    ensures
        r@.label == key@,
        r@.kind == CompletionKind::Property,
        r@.detail == "systemd directive"@,
        r@.documentation == doc_markdown(key@, description@, "systemd.service(5), systemd.unit(5)"@),
        r@.insert_text == key@ + "="@,
    {
    let documentation = create_documentation(key, description, "systemd.service(5), systemd.unit(5)");
    let mut insert = key.to_owned();
    insert.append("=");
    let mut detail = String::new();
    detail.append("systemd directive");
    proof {
        assert(detail@ =~= "systemd directive"@);
    }
    CompletionEntry {
        label: key.to_owned(),
        kind: CompletionKind::Property,
        detail,
        documentation,
        insert_text: insert,
    }
}

/// Model of the completion tables.
pub ghost struct CompletionModel {
    pub section_completions: Seq<CompletionEntryModel>,
    pub directive_completions: Seq<(Seq<char>, Seq<CompletionEntryModel>)>,
}

/// The completion tables: one entry per known section header, and one list
/// of directive entries per section.
#[derive(Debug)]
pub struct SystemdCompletion {
    pub section_completions: Vec<CompletionEntry>,
    pub directive_completions: Vec<(String, Vec<CompletionEntry>)>,
}

impl View for SystemdCompletion {
    type V = CompletionModel;

    open spec fn view(&self) -> CompletionModel {
        CompletionModel {
            section_completions: self.section_completions.deep_view(),
            directive_completions: self.directive_completions.deep_view(),
        }
    }
}

/// The directive entries recorded for `section`, or empty if none are.
pub open spec fn group_of(
    groups: Seq<(Seq<char>, Seq<CompletionEntryModel>)>,
    section: Seq<char>,
    k: int,
) -> Seq<CompletionEntryModel>
    decreases groups.len() - k,
{
    if k < 0 || k >= groups.len() {
        Seq::empty()
    } else if groups[k].0 == section {
        groups[k].1
    } else {
        group_of(groups, section, k + 1)
    }
}

/// The candidates from index `k` on whose labels are not in `seen`, keeping
/// the first occurrence of each label.
pub open spec fn dedup_entries(
    cands: Seq<CompletionEntryModel>,
    k: int,
    seen: Seq<Seq<char>>,
) -> Seq<CompletionEntryModel>
    decreases cands.len() - k,
{
    if k < 0 || k >= cands.len() {
        Seq::empty()
    } else if seq_contains_str(seen, cands[k].label) {
        dedup_entries(cands, k + 1, seen)
    } else {
        seq![cands[k]] + dedup_entries(cands, k + 1, seen.push(cands[k].label))
    }
}

/// The completion list: the section entries first, then the directive
/// entries of the common sections, first occurrence of each label kept.
pub open spec fn completions_spec(m: CompletionModel) -> Seq<CompletionEntryModel> {
    let cands = m.section_completions + group_of(m.directive_completions, "Service"@, 0)
        + group_of(m.directive_completions, "Unit"@, 0) + group_of(
        m.directive_completions,
        "Install"@,
        0,
    ) + group_of(m.directive_completions, "Timer"@, 0) + group_of(
        m.directive_completions,
        "Socket"@,
        0,
    ) + group_of(m.directive_completions, "Mount"@, 0) + group_of(
        m.directive_completions,
        "Path"@,
        0,
    ) + group_of(m.directive_completions, "Swap"@, 0);
    dedup_entries(cands, 0, Seq::empty())
}

/// Every label occurs at most once in a deduplicated list.
pub proof fn lemma_dedup_labels_unique(
    cands: Seq<CompletionEntryModel>,
    k: int,
    seen: Seq<Seq<char>>,
)
    ensures
        ({
            let r = dedup_entries(cands, k, seen);
            &&& forall|i: int, j: int|
                0 <= i < j < r.len() ==> (#[trigger] r[i]).label != (#[trigger] r[j]).label
            &&& forall|i: int|
                0 <= i < r.len() ==> !seq_contains_str(seen, (#[trigger] r[i]).label)
        }),
    decreases cands.len() - k,
{
    if !(k < 0 || k >= cands.len()) {
        if seq_contains_str(seen, cands[k].label) {
            lemma_dedup_labels_unique(cands, k + 1, seen);
        } else {
            lemma_dedup_labels_unique(cands, k + 1, seen.push(cands[k].label));
            let r = dedup_entries(cands, k, seen);
            let rest = dedup_entries(cands, k + 1, seen.push(cands[k].label));
            assert forall|i: int, j: int| 0 <= i < j < r.len() implies (#[trigger] r[i]).label
                != (#[trigger] r[j]).label by {
                if i == 0 {
                    assert(r[j] == rest[j - 1]);
                    assert(!seq_contains_str(seen.push(cands[k].label), rest[j - 1].label));
                    assert(seen.push(cands[k].label)[seen.len() as int] == cands[k].label);
                } else {
                    assert(r[i] == rest[i - 1]);
                    assert(r[j] == rest[j - 1]);
                }
            }
            assert forall|i: int| 0 <= i < r.len() implies !seq_contains_str(
                seen,
                (#[trigger] r[i]).label,
            ) by {
                if i > 0 {
                    assert(r[i] == rest[i - 1]);
                    assert(!seq_contains_str(seen.push(cands[k].label), rest[i - 1].label));
                    assert forall|w: int| 0 <= w < seen.len() implies seen[w] != r[i].label by {
                        assert(seen.push(cands[k].label)[w] == seen[w]);
                    }
                }
            }
        }
    }
}

impl SystemdCompletion {
    /// Builds the completion tables from the static knowledge base.
    #[verifier::loop_isolation(false)]
    pub fn new() -> SystemdCompletion {
        let doc_entries = SystemdConstants::section_documentation_entries();
        let mut section_completions: Vec<CompletionEntry> = Vec::new();
        let mut k: usize = 0;
        while k < doc_entries.len()
            decreases doc_entries@.len() - k,
        {
            let name: &str = doc_entries[k].0;
            let description: &str = doc_entries[k].1;
            let lower = to_lowercase(name);
            let mut title = String::new();
            title.append("[");
            title.append(name);
            title.append("] Section");
            let mut reference = String::new();
            reference.append("systemd.");
            reference.append(lower.as_str());
            reference.append(".5");
            let documentation = create_documentation(
                title.as_str(),
                description,
                reference.as_str(),
            );
            let mut detail = String::new();
            detail.append("systemd ");
            detail.append(lower.as_str());
            detail.append(" section");
            let mut label = String::new();
            label.append("[");
            label.append(name);
            label.append("]");
            let insert_text = label.clone();
            section_completions.push(CompletionEntry {
                label,
                kind: CompletionKind::Module,
                detail,
                documentation,
                insert_text,
            });
            k = k + 1;
        }
        let dir_entries = SystemdConstants::section_directive_entries();
        let desc_entries = SystemdConstants::directive_description_entries();
        let mut directive_completions: Vec<(String, Vec<CompletionEntry>)> = Vec::new();
        let mut si: usize = 0;
        while si < dir_entries.len()
            decreases dir_entries@.len() - si,
        {
            let section: &str = dir_entries[si].0;
            let mut items: Vec<CompletionEntry> = Vec::new();
            let mut di: usize = 0;
            while di < dir_entries[si].1.len()
                decreases dir_entries@[si as int].1@.len() - di,
            {
                let directive: &str = dir_entries[si].1[di];
                let mut description: &str = "systemd directive";
                let mut ei: usize = 0;
                while ei < desc_entries.len()
                    decreases desc_entries@.len() - ei,
                {
                    if str_eq(desc_entries[ei].0, section) && str_eq(
                        desc_entries[ei].1,
                        directive,
                    ) {
                        description = desc_entries[ei].2;
                    }
                    ei = ei + 1;
                }
                items.push(create_directive_completion(directive, description));
                di = di + 1;
            }
            directive_completions.push((section.to_owned(), items));
            si = si + 1;
        }
        SystemdCompletion { section_completions, directive_completions }
    }

    /// The completion list offered at a cursor: all section headers, then
    /// the directives of the common sections, with the first occurrence of
    /// every label kept and later duplicates dropped.
    #[verifier::loop_isolation(false)]
    pub fn get_completions(&self) -> (r: Vec<CompletionEntry>)
        ensures
            r.deep_view() == completions_spec(self@),
    {
        let mut cands: Vec<CompletionEntry> = Vec::new();
        append_entries(&mut cands, &self.section_completions);
        proof {
            assert(cands.deep_view() =~= self@.section_completions);
        }
        self.append_group(&mut cands, "Service");
        self.append_group(&mut cands, "Unit");
        self.append_group(&mut cands, "Install");
        self.append_group(&mut cands, "Timer");
        self.append_group(&mut cands, "Socket");
        self.append_group(&mut cands, "Mount");
        self.append_group(&mut cands, "Path");
        self.append_group(&mut cands, "Swap");
        let ghost cv = cands.deep_view();
        let mut out: Vec<CompletionEntry> = Vec::new();
        let mut seen: Vec<String> = Vec::new();
        proof {
            assert(out.deep_view() =~= Seq::<CompletionEntryModel>::empty());
            assert(seen.deep_view() =~= Seq::<Seq<char>>::empty());
            assert(out.deep_view() + dedup_entries(cv, 0, seen.deep_view()) =~= dedup_entries(
                cv,
                0,
                Seq::empty(),
            ));
        }
        let mut k: usize = 0;
        while k < cands.len()
            invariant
                0 <= k <= cands@.len(),
                out.deep_view() + dedup_entries(cv, k as int, seen.deep_view()) == dedup_entries(
                    cv,
                    0,
                    Seq::empty(),
                ),
            decreases cands@.len() - k,
        {
            let entry = &cands[k];
            proof {
                assert(entry@ == cv[k as int]);
            }
            let ghost before_out = out.deep_view();
            let ghost before_seen = seen.deep_view();
            if !crate::vocabulary::contains_string(&seen, entry.label.as_str()) {
                let ghost raw_out = out@;
                let ghost raw_seen = seen@;
                let c = entry.clone();
                let ghost cx = c;
                out.push(c);
                let lab = entry.label.clone();
                let ghost lx = lab;
                seen.push(lab);
                proof {
                    assert(out@ == raw_out.push(cx));
                    assert forall|t: int| 0 <= t < out@.len() implies #[trigger] out.deep_view()[t]
                        == before_out.push(cx@)[t] by {
                        assert(out@[t] == raw_out.push(cx)[t]);
                        if t < raw_out.len() {
                            assert(raw_out.push(cx)[t] == raw_out[t]);
                        }
                    }
                    assert(out.deep_view() =~= before_out.push(cx@));
                    assert(seen@ == raw_seen.push(lx));
                    assert forall|t: int| 0 <= t < seen@.len() implies
                        #[trigger] seen.deep_view()[t] == before_seen.push(lx@)[t] by {
                        assert(seen@[t] == raw_seen.push(lx)[t]);
                        if t < raw_seen.len() {
                            assert(raw_seen.push(lx)[t] == raw_seen[t]);
                        }
                    }
                    assert(seen.deep_view() =~= before_seen.push(lx@));
                    assert(dedup_entries(cv, k as int, before_seen) =~= seq![cv[k as int]]
                        + dedup_entries(cv, k + 1, before_seen.push(cv[k as int].label)));
                    assert(out.deep_view() + dedup_entries(cv, k + 1, seen.deep_view())
                        =~= dedup_entries(cv, 0, Seq::empty()));
                }
            } else {
                proof {
                    assert(dedup_entries(cv, k as int, before_seen) == dedup_entries(
                        cv,
                        k + 1,
                        before_seen,
                    ));
                }
            }
            k = k + 1;
        }
        proof {
            assert(dedup_entries(cv, k as int, seen.deep_view())
                =~= Seq::<CompletionEntryModel>::empty());
            assert(out.deep_view() =~= dedup_entries(cv, 0, Seq::empty()));
            assert(cv =~= self@.section_completions + group_of(
                self@.directive_completions,
                "Service"@,
                0,
            ) + group_of(self@.directive_completions, "Unit"@, 0) + group_of(
                self@.directive_completions,
                "Install"@,
                0,
            ) + group_of(self@.directive_completions, "Timer"@, 0) + group_of(
                self@.directive_completions,
                "Socket"@,
                0,
            ) + group_of(self@.directive_completions, "Mount"@, 0) + group_of(
                self@.directive_completions,
                "Path"@,
                0,
            ) + group_of(self@.directive_completions, "Swap"@, 0));
        }
        out
    }

    /// Appends the directive entries recorded for `section` to `cands`.
    #[verifier::loop_isolation(false)]
    fn append_group(&self, cands: &mut Vec<CompletionEntry>, section: &str)
        ensures
            final(cands).deep_view() == old(cands).deep_view() + group_of(
                self@.directive_completions,
                section@,
                0,
            ),
    {
        let ghost groups = self@.directive_completions;
        let mut k: usize = 0;
        while k < self.directive_completions.len()
            invariant
                0 <= k <= self.directive_completions@.len(),
                cands.deep_view() == old(cands).deep_view(),
                group_of(groups, section@, 0) == group_of(groups, section@, k as int),
            decreases self.directive_completions@.len() - k,
        {
            let entry = &self.directive_completions[k];
            proof {
                assert(groups[k as int] == self.directive_completions@[k as int].deep_view());
            }
            if str_eq(entry.0.as_str(), section) {
                append_entries(cands, &entry.1);
                proof {
                    assert(group_of(groups, section@, k as int) == entry.1.deep_view());
                }
                return ;
            }
            k = k + 1;
        }
        proof {
            assert(group_of(groups, section@, k as int) =~= Seq::<CompletionEntryModel>::empty());
            assert(cands.deep_view() =~= old(cands).deep_view() + group_of(
                groups,
                section@,
                0,
            ));
        }
    }

    /// One-paragraph markdown documentation of a known section, with its
    /// manual-page reference; `None` for a section without documentation.
    pub fn get_section_documentation(&self, section_name: &str) -> Option<String> {
        let entries = SystemdConstants::section_documentation_entries();
        let mut k: usize = 0;
        while k < entries.len()
            decreases entries@.len() - k,
        {
            if str_eq(entries[k].0, section_name) {
                let lower = to_lowercase(section_name);
                let mut m = String::new();
                m.append("**[");
                m.append(section_name);
                m.append("] Section**\n\n");
                m.append(entries[k].1);
                m.append("\n\n**Reference:** systemd.");
                m.append(lower.as_str());
                m.append(".5");
                return Some(m);
            }
            k = k + 1;
        }
        None
    }

    /// Detailed documentation of the few directives that carry it, matched
    /// case-insensitively on the directive name: `Description` and `Wants`
    /// in `[Unit]`, `Type` and `ExecStart` in `[Service]`, and `WantedBy` in
    /// `[Install]`.
    pub fn get_directive_documentation(&self, directive_name: &str, section_name: &str) -> (r:
        Option<String>)
        ensures
            r is Some <==> (section_name@ == "Unit"@ && (lower_of(directive_name@) == lower_of(
                "Description"@,
            ) || lower_of(directive_name@) == lower_of("Wants"@))) || (section_name@
                == "Service"@ && (lower_of(directive_name@) == lower_of("Type"@) || lower_of(
                directive_name@,
            ) == lower_of("ExecStart"@))) || (section_name@ == "Install"@ && lower_of(
                directive_name@,
            ) == lower_of("WantedBy"@)),
    {
        let lower = to_lowercase(directive_name);
        if str_eq(section_name, "Unit") {
            if str_eq(lower.as_str(), to_lowercase("Description").as_str()) {
                let mut m = String::new();
                m.append(
                    "Description= sets a short human readable title for the unit. It is used by the service manager wherever the unit is shown: status output, listings, and log messages about state changes. Keep it a capitalized noun phrase naming the service, without ending punctuation and without repeating the word service.",
                );
                return Some(m);
            }
            if str_eq(lower.as_str(), to_lowercase("Wants").as_str()) {
                let mut m = String::new();
                m.append(
                    "Wants= pulls in the listed units as weak dependencies: they are queued for start together with this unit, but their failure or absence does not fail it. Combine with After= when this unit must also wait for them to finish starting.",
                );
                return Some(m);
            }
            proof {
                reveal_strlit("Unit");
                reveal_strlit("Service");
                reveal_strlit("Install");
                assert("Unit"@.len() == 4 && "Service"@.len() == 7 && "Install"@.len() == 7);
                assert("Service"@[0] == 'S' && "Install"@[0] == 'I');
                assert(section_name@ != "Service"@ && section_name@ != "Install"@);
            }
            return None;
        }
        if str_eq(section_name, "Service") {
            if str_eq(lower.as_str(), to_lowercase("Type").as_str()) {
                let mut m = String::new();
                m.append(
                    "Type= configures the process start-up type. simple considers the unit started immediately after the main process has been forked; exec waits until the service binary has been executed; forking expects the started process to fork and exit; oneshot waits for the process to exit before follow-up units start; dbus waits for a bus name; notify waits for a readiness notification; idle delays execution until active jobs are dispatched.",
                );
                return Some(m);
            }
            if str_eq(lower.as_str(), to_lowercase("ExecStart").as_str()) {
                let mut m = String::new();
                m.append(
                    "ExecStart= sets the command line that is executed when this service is started: an absolute executable path followed by its arguments. Unless Type=oneshot is used, exactly one command line must be given, and it must not be empty.",
                );
                return Some(m);
            }
            proof {
                reveal_strlit("Service");
                reveal_strlit("Install");
                assert("Service"@[0] == 'S' && "Install"@[0] == 'I');
                assert(section_name@ != "Install"@);
            }
            return None;
        }
        if str_eq(section_name, "Install") {
            if str_eq(lower.as_str(), to_lowercase("WantedBy").as_str()) {
                let mut m = String::new();
                m.append(
                    "WantedBy= lists the units that gain a Wants= dependency on this one when it is enabled: a symlink is placed in each listed unit's .wants directory. multi-user.target is the usual choice for services started at boot.",
                );
                return Some(m);
            }
            return None;
        }
        None
    }
}

/// Appends clones of `entries` to `cands`.
#[verifier::loop_isolation(false)]
fn append_entries(cands: &mut Vec<CompletionEntry>, entries: &Vec<CompletionEntry>)
    ensures
        final(cands).deep_view() == old(cands).deep_view() + entries.deep_view(),
{
    let mut k: usize = 0;
    while k < entries.len()
        invariant
            0 <= k <= entries@.len(),
            cands.deep_view() == old(cands).deep_view() + entries.deep_view().subrange(
                0,
                k as int,
            ),
        decreases entries@.len() - k,
    {
        let ghost before = cands.deep_view();
        let ghost raw = cands@;
        let c = entries[k].clone();
        let ghost cx = c;
        cands.push(c);
        proof {
            assert(cands@ == raw.push(cx));
            assert forall|t: int| 0 <= t < cands@.len() implies #[trigger] cands.deep_view()[t]
                == before.push(cx@)[t] by {
                assert(cands@[t] == raw.push(cx)[t]);
                if t < raw.len() {
                    assert(raw.push(cx)[t] == raw[t]);
                }
            }
            assert(cands.deep_view() =~= before.push(cx@));
            assert(cx@ == entries.deep_view()[k as int]);
            assert(cands.deep_view() =~= old(cands).deep_view() + entries.deep_view().subrange(
                0,
                k + 1,
            ));
        }
        k = k + 1;
    }
    proof {
        assert(entries.deep_view().subrange(0, entries@.len() as int) =~= entries.deep_view());
    }
}

} // verus!
