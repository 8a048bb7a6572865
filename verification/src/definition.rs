//! The embedded documentation provider: full documentation bodies for the
//! known section kinds, keyed by lower-case section name, and the hover
//! logic that picks the right body for a cursor position.

use vstd::prelude::*;

use crate::completion::SystemdCompletion;
use crate::parser::Position;
use crate::parser::SystemdParser;
use crate::parser::SystemdUnit;
use crate::parser::header_at_from;
use crate::parser::section_idx_at_line;
use crate::text::lower_of;
use crate::text::str_eq;
use crate::text::to_lowercase;

verus! {

/// The documentation body filed under `key`, searching from index `k`.
pub open spec fn doc_lookup(
    entries: Seq<(Seq<char>, Seq<char>)>,
    key: Seq<char>,
    k: int,
) -> Option<Seq<char>>
    decreases entries.len() - k,
{
    if k < 0 || k >= entries.len() {
        None
    } else if entries[k].0 == key {
        Some(entries[k].1)
    } else {
        doc_lookup(entries, key, k + 1)
    }
}

/// The embedded documentation bodies, keyed by lower-case section name.
#[derive(Debug)]
pub struct SystemdDefinitionProvider {
    pub documentation: Vec<(String, String)>,
}

impl View for SystemdDefinitionProvider {
    type V = Seq<(Seq<char>, Seq<char>)>;

    open spec fn view(&self) -> Seq<(Seq<char>, Seq<char>)> {
        self.documentation.deep_view()
    }
}

fn doc_entry(key: &str, body: &str) -> (String, String) {
    (key.to_owned(), body.to_owned())
}

impl SystemdDefinitionProvider {
    /// Builds the embedded documentation table.
    pub fn new() -> SystemdDefinitionProvider {
        let mut documentation: Vec<(String, String)> = Vec::new();
        documentation.push(doc_entry(
            "unit",
            "# [Unit] Section\n\nGeneric information about the unit.\n\n- Description= gives the unit a short human readable title.\n- Documentation= lists links to documentation for this unit.\n- Requires= declares hard dependencies that are started along with this unit and whose failure deactivates it.\n- Wants= declares weaker dependencies that are started along with this unit but may fail.\n- Before= and After= order this unit against others when both are started in the same transaction.\n- Conflicts= stops the listed units when this one starts.\n- ConditionPathExists= skips activation unless the path exists.",
        ));
        documentation.push(doc_entry(
            "service",
            "# [Service] Section\n\nConfiguration of a supervised process.\n\n- Type= selects the start-up type: simple, exec, forking, oneshot, dbus, notify or idle.\n- ExecStart= gives the command line to run; ExecStartPre= and ExecStartPost= run around it.\n- ExecReload= and ExecStop= run on reload and stop.\n- Restart= configures when the process is restarted: no, on-success, on-failure, on-abnormal, on-watchdog, on-abort or always.\n- User= and Group= select the credentials the process runs with.\n- Environment= and EnvironmentFile= populate its environment.\n- StandardOutput= and StandardError= route its output streams.",
        ));
        documentation.push(doc_entry(
            "install",
            "# [Install] Section\n\nInstallation information used by enable and disable.\n\n- WantedBy= lists the targets that gain a Wants dependency on this unit when it is enabled; multi-user.target is the common choice for services that should start at boot.\n- RequiredBy= does the same with a hard dependency.\n- Alias= installs additional names for the unit.\n- Also= enables or disables further units together with this one.",
        ));
        documentation.push(doc_entry(
            "socket",
            "# [Socket] Section\n\nSockets and FIFOs supervised for socket activation.\n\n- ListenStream=, ListenDatagram= and ListenSequentialPacket= configure the addresses to listen on.\n- Accept= selects whether a service instance is spawned per connection.\n- SocketUser=, SocketGroup= and SocketMode= set the ownership and mode of file system sockets.\n- Service= names the service unit activated by traffic.",
        ));
        documentation.push(doc_entry(
            "timer",
            "# [Timer] Section\n\nMonotonic and calendar timers.\n\n- OnActiveSec=, OnBootSec=, OnStartupSec=, OnUnitActiveSec= and OnUnitInactiveSec= define monotonic timers relative to different starting points.\n- OnCalendar= defines calendar event expressions.\n- AccuracySec= and RandomizedDelaySec= spread the wake-ups.\n- Persistent= catches up on elapsed time spent powered off.\n- Unit= names the unit to activate when the timer elapses.",
        ));
        documentation.push(doc_entry(
            "mount",
            "# [Mount] Section\n\nA supervised file system mount point.\n\n- What= names the device, file or network share to mount.\n- Where= gives the absolute path of the mount point.\n- Type= and Options= pass the file system type and the mount options.\n- TimeoutSec= bounds the mount operation.",
        ));
        documentation.push(doc_entry(
            "path",
            "# [Path] Section\n\nPath-based activation.\n\n- PathExists=, PathExistsGlob=, PathChanged=, PathModified= and DirectoryNotEmpty= watch the given paths.\n- Unit= names the unit to activate when a watched path triggers.\n- MakeDirectory= creates the watched directories before watching.",
        ));
        documentation.push(doc_entry(
            "swap",
            "# [Swap] Section\n\nA supervised swap device or file.\n\n- What= gives the absolute path of the device or file.\n- Priority= orders this swap area against the others.\n- Options= passes swapon options.\n- TimeoutSec= bounds the activation.",
        ));
        documentation.push(doc_entry(
            "container",
            "# [Container] Section\n\nA container run by the container engine under service supervision.\n\n- Image= names the image the container starts from.\n- Exec= overrides the command run inside the container.\n- PublishPort= maps container ports to the host.\n- Volume= attaches volumes or host paths to the container file system.\n- Environment= sets variables inside the container.",
        ));
        documentation.push(doc_entry(
            "pod",
            "# [Pod] Section\n\nA pod grouping several containers under one network and lifecycle.\n\n- PodName= sets the name the engine uses for the pod.\n- Network= attaches the pod to a named network.\n- PublishPort= maps pod ports to the host.\n- Volume= attaches shared volumes available to the pod's containers.",
        ));
        documentation.push(doc_entry(
            "volume",
            "# [Volume] Section\n\nA named volume managed by the container engine.\n\n- VolumeName= sets the name the engine uses for the volume.\n- Driver= selects the volume driver.\n- Options= passes driver-specific options.\n- Label= attaches metadata labels to the volume.",
        ));
        documentation.push(doc_entry(
            "network",
            "# [Network] Section\n\nA named network managed by the container engine.\n\n- NetworkName= sets the name the engine uses for the network.\n- Subnet=, Gateway= and IPRange= configure addressing.\n- Driver= selects the network driver.\n- Internal= keeps the network unreachable from outside the host.",
        ));
        documentation.push(doc_entry(
            "kube",
            "# [Kube] Section\n\nA workload described by a Kubernetes YAML file and run by the container engine.\n\n- Yaml= points at the YAML file describing the workload.\n- PublishPort= maps workload ports to the host.\n- Network= attaches the workload to a named network.\n- ConfigMap= supplies additional configuration objects.",
        ));
        documentation.push(doc_entry(
            "build",
            "# [Build] Section\n\nAn image built by the container engine before dependent units start.\n\n- ImageTag= names the image that the build produces.\n- File= points at the container build file to use.\n- SetWorkingDirectory= selects the build context directory.\n- Label= attaches metadata labels to the built image.",
        ));
        documentation.push(doc_entry(
            "image",
            "# [Image] Section\n\nAn image pulled by the container engine before dependent units start.\n\n- Image= names the image to pull.\n- AuthFile= points at the registry authentication file.\n- TLSVerify= controls certificate verification against the registry.\n- Arch= and OS= select a platform variant of the image.",
        ));
        SystemdDefinitionProvider { documentation }
    }

    /// The embedded documentation filed under `section_key` (a lower-case
    /// section name), if any.
    #[verifier::loop_isolation(false)]
    pub fn get_embedded_documentation(&self, section_key: &str) -> (r: Option<String>)
        ensures
            match r {
                Some(body) => doc_lookup(self@, section_key@, 0) == Some::<Seq<char>>(body@),
                None => doc_lookup(self@, section_key@, 0) is None,
            },
    {
        let ghost entries = self@;
        let mut k: usize = 0;
        while k < self.documentation.len()
            invariant
                0 <= k <= self.documentation@.len(),
                doc_lookup(entries, section_key@, 0) == doc_lookup(entries, section_key@, k as int),
            decreases self.documentation@.len() - k,
        {
            let entry = &self.documentation[k];
            proof {
                assert(entries[k as int] == self.documentation@[k as int].deep_view());
            }
            if str_eq(entry.0.as_str(), section_key) {
                return Some(entry.1.clone());
            }
            k = k + 1;
        }
        None
    }
}

/// The hover text for a cursor position: on a section header line, the full
/// embedded documentation of the section (by its lower-cased name), falling
/// back to the short section documentation; on a word inside a section, the
/// detailed directive documentation if that directive carries any; anywhere
/// else inside a section, a generic hint; outside every section and header,
/// nothing.
pub fn hover_content(
    parser: &SystemdParser,
    completion: &SystemdCompletion,
    provider: &SystemdDefinitionProvider,
    unit: &SystemdUnit,
    position: &Position,
) -> (r: Option<String>)
    ensures
        ({
            let hdr = header_at_from(unit@.sections, position.line as int, 0);
            &&& (hdr is Some && doc_lookup(provider@, lower_of(hdr->0), 0) is Some) ==> (
            r is Some && r->0@ == doc_lookup(provider@, lower_of(hdr->0), 0)->0)
            &&& (hdr is None && section_idx_at_line(unit@.sections, position.line as int, 0)
                == unit@.sections.len()) ==> r is None
        }),
{
    if let Some(section_name) = parser.get_section_header_at_position(unit, position) {
        let section_key = to_lowercase(section_name.as_str());
        if let Some(full_docs) = provider.get_embedded_documentation(section_key.as_str()) {
            return Some(full_docs);
        }
        if let Some(docs) = completion.get_section_documentation(section_name.as_str()) {
            return Some(docs);
        }
    }
    if let Some(word) = parser.get_word_at_position(unit, position) {
        match parser.get_section_at_line(unit, position.line) {
            Some(section) => {
                let docs = completion.get_directive_documentation(
                    word.as_str(),
                    section.name.as_str(),
                );
                if let Some(d) = docs {
                    return Some(d);
                }
            },
            None => {},
        }
    }
    match parser.get_section_at_line(unit, position.line) {
        Some(section) => {
            let lower = to_lowercase(section.name.as_str());
            let mut m = String::new();
            m.append("**systemd ");
            m.append(lower.as_str());
            m.append(
                " configuration**\n\nHover over section headers `[",
            );
            m.append(section.name.as_str());
            m.append(
                "]` or directive names for detailed documentation.\n\n*Press Ctrl+Space for completions*",
            );
            Some(m)
        },
        None => None,
    }
}

} // verus!
