//! The static knowledge base: known section names, the directive names each
//! section accepts, enumerated value domains, short per-directive
//! descriptions, and one-paragraph section documentation.

use std::collections::HashMap;

use vstd::prelude::*;

use crate::vocabulary::Vocabulary;

verus! {

/// The static tables of the unit-file vocabulary.
#[derive(Debug)]
pub struct SystemdConstants;

/// Appends string copies of `xs` to a fresh vector.
fn to_string_vec(xs: Vec<&str>) -> (r: Vec<String>)
    ensures
        r.deep_view() == xs.deep_view(),
{
    let mut r: Vec<String> = Vec::new();
    let mut k: usize = 0;
    while k < xs.len()
        invariant
            0 <= k <= xs@.len(),
            r@.len() == k as int,
            forall|t: int| 0 <= t < k ==> #[trigger] r@[t].deep_view() == xs@[t].deep_view(),
        decreases xs@.len() - k,
    {
        let ghost raw = r@;
        let c = xs[k].to_owned();
        let ghost cx = c;
        r.push(c);
        proof {
            assert(r@ == raw.push(cx));
            assert forall|t: int| 0 <= t < k + 1 implies #[trigger] r@[t].deep_view()
                == xs@[t].deep_view() by {
                assert(r@[t] == raw.push(cx)[t]);
                if t < k {
                    assert(raw.push(cx)[t] == raw[t]);
                }
            }
        }
        k = k + 1;
    }
    proof {
        assert(r.deep_view() =~= xs.deep_view());
    }
    r
}

impl SystemdConstants {
    /// The name this analyzer reports as itself.
    pub const APP_NAME: &'static str = "systemdls";

    /// The section names the validator accepts.
    pub fn valid_sections() -> (r: Vec<&'static str>)
        ensures
            r.deep_view() =~= seq![
                "Unit"@,
                "Service"@,
                "Install"@,
                "Timer"@,
                "Socket"@,
                "Mount"@,
                "Automount"@,
                "Swap"@,
                "Path"@,
                "Target"@,
                "Device"@,
                "Slice"@,
                "Scope"@,
            ],
    {
        let mut r: Vec<&'static str> = Vec::new();
        r.push("Unit");
        r.push("Service");
        r.push("Install");
        r.push("Timer");
        r.push("Socket");
        r.push("Mount");
        r.push("Automount");
        r.push("Swap");
        r.push("Path");
        r.push("Target");
        r.push("Device");
        r.push("Slice");
        r.push("Scope");
        proof {
            assert(r.deep_view() =~= seq![
                "Unit"@,
                "Service"@,
                "Install"@,
                "Timer"@,
                "Socket"@,
                "Mount"@,
                "Automount"@,
                "Swap"@,
                "Path"@,
                "Target"@,
                "Device"@,
                "Slice"@,
                "Scope"@,
            ]);
        }
        r
    }

    /// The directive names each section accepts, as ordered entries.
    pub fn section_directive_entries() -> Vec<(&'static str, Vec<&'static str>)> {
        let mut entries: Vec<(&'static str, Vec<&'static str>)> = Vec::new();
        entries.push(("Unit", vec![
            "Description", "Documentation", "Requires", "Requisite", "Wants", "BindsTo",
            "PartOf", "Upholds", "Conflicts", "Before", "After", "OnFailure", "OnSuccess",
            "PropagatesReloadTo", "ReloadPropagatedFrom", "JoinsNamespaceOf",
            "RequiresMountsFor", "StartLimitIntervalSec", "StartLimitBurst",
            "StartLimitAction", "SourcePath", "StopWhenUnneeded", "RefuseManualStart",
            "RefuseManualStop", "AllowIsolate", "DefaultDependencies",
            "ConditionPathExists", "ConditionPathIsDirectory", "ConditionFileNotEmpty",
            "AssertPathExists",
        ]));
        entries.push(("Service", vec![
            "Type", "ExitType", "RemainAfterExit", "GuessMainPID", "PIDFile", "BusName",
            "ExecStart", "ExecStartPre", "ExecStartPost", "ExecCondition", "ExecReload",
            "ExecStop", "ExecStopPost", "RestartSec", "Restart", "TimeoutStartSec",
            "TimeoutStopSec", "TimeoutAbortSec", "TimeoutSec", "RuntimeMaxSec",
            "WatchdogSec", "User", "Group", "SupplementaryGroups", "WorkingDirectory",
            "RootDirectory", "UMask", "Environment", "EnvironmentFile", "PassEnvironment",
            "UnsetEnvironment", "StandardInput", "StandardOutput", "StandardError",
            "SyslogIdentifier", "SyslogFacility", "SyslogLevel", "KillMode", "KillSignal",
            "NotifyAccess", "Sockets", "OOMPolicy", "OOMScoreAdjust", "Nice",
            "CPUWeight", "CPUQuota", "MemoryMax", "MemoryHigh", "MemoryLow", "TasksMax",
            "IOWeight", "Slice", "Delegate", "ProtectSystem", "ProtectHome",
            "NoNewPrivileges", "PrivateTmp", "PrivateDevices", "PrivateNetwork",
            "PrivateUsers", "PrivateMounts", "ProtectKernelTunables",
            "ProtectKernelModules", "ProtectKernelLogs", "ProtectControlGroups",
            "ProtectClock", "ProtectHostname", "ProtectProc", "RestrictRealtime",
            "RestrictSUIDSGID", "RestrictNamespaces", "RestrictAddressFamilies",
            "RemoveIPC", "DynamicUser", "MountAPIVFS", "SystemCallFilter",
            "SystemCallArchitectures", "SystemCallErrorNumber", "AmbientCapabilities",
            "CapabilityBoundingSet", "LockPersonality", "MemoryDenyWriteExecute",
            "ReadWritePaths", "ReadOnlyPaths", "InaccessiblePaths", "RuntimeDirectory",
            "StateDirectory", "CacheDirectory", "LogsDirectory", "ConfigurationDirectory",
            "LimitNOFILE", "LimitNPROC", "LimitCORE", "LimitMEMLOCK",
        ]));
        entries.push(("Install", vec![
            "WantedBy", "RequiredBy", "UpheldBy", "Alias", "Also", "DefaultInstance",
        ]));
        entries.push(("Timer", vec![
            "OnActiveSec", "OnBootSec", "OnStartupSec", "OnUnitActiveSec",
            "OnUnitInactiveSec", "OnCalendar", "AccuracySec", "RandomizedDelaySec",
            "FixedRandomDelay", "OnClockChange", "OnTimezoneChange", "Persistent",
            "WakeSystem", "RemainAfterElapse", "Unit",
        ]));
        entries.push(("Socket", vec![
            "ListenStream", "ListenDatagram", "ListenSequentialPacket", "ListenFIFO",
            "ListenSpecial", "ListenNetlink", "ListenMessageQueue", "ListenUSBFunction",
            "SocketProtocol", "BindIPv6Only", "Backlog", "BindToDevice", "SocketUser",
            "SocketGroup", "SocketMode", "DirectoryMode", "Accept", "Writable",
            "FlushPending", "MaxConnections", "MaxConnectionsPerSource", "KeepAlive",
            "KeepAliveTimeSec", "KeepAliveIntervalSec", "KeepAliveProbes", "NoDelay",
            "Priority", "DeferAcceptSec", "ReceiveBuffer", "SendBuffer", "Service",
            "RemoveOnStop", "Symlinks", "FileDescriptorName", "TriggerLimitIntervalSec",
            "TriggerLimitBurst",
        ]));
        entries.push(("Mount", vec![
            "What", "Where", "Type", "Options", "SloppyOptions", "LazyUnmount",
            "ReadWriteOnly", "ForceUnmount", "DirectoryMode", "TimeoutSec",
        ]));
        entries.push(("Automount", vec![
            "Where", "ExtraOptions", "DirectoryMode", "TimeoutIdleSec",
        ]));
        entries.push(("Swap", vec!["What", "Priority", "Options", "TimeoutSec"]));
        entries.push(("Path", vec![
            "PathExists", "PathExistsGlob", "PathChanged", "PathModified",
            "DirectoryNotEmpty", "Unit", "MakeDirectory", "DirectoryMode",
            "TriggerLimitIntervalSec", "TriggerLimitBurst",
        ]));
        entries.push(("Target", Vec::new()));
        entries.push(("Device", Vec::new()));
        entries.push(("Slice", vec![
            "CPUWeight", "CPUQuota", "MemoryMax", "MemoryHigh", "MemoryLow", "TasksMax",
            "IOWeight",
        ]));
        entries.push(("Scope", vec![
            "RuntimeMaxSec", "TimeoutStopSec", "OOMPolicy", "OOMScoreAdjust", "Slice",
        ]));
        entries
    }

    /// The directive names each section accepts, keyed by section name.
    pub fn section_directives() -> HashMap<&'static str, Vec<&'static str>> {
        let entries = Self::section_directive_entries();
        let mut map: HashMap<&'static str, Vec<&'static str>> = HashMap::new();
        let mut k: usize = 0;
        while k < entries.len()
            decreases entries@.len() - k,
        {
            let entry = &entries[k];
            map.insert(entry.0, clone_str_vec(&entry.1));
            k = k + 1;
        }
        map
    }

    /// Short descriptions of a few frequently used directives, keyed by
    /// (section, directive).
    pub fn directive_descriptions() -> HashMap<(&'static str, &'static str), &'static str> {
        let entries = Self::directive_description_entries();
        let mut map: HashMap<(&'static str, &'static str), &'static str> = HashMap::new();
        let mut k: usize = 0;
        while k < entries.len()
            decreases entries@.len() - k,
        {
            map.insert((entries[k].0, entries[k].1), entries[k].2);
            k = k + 1;
        }
        map
    }

    /// The enumerated value domains, as ordered entries keyed by directive
    /// name.
    pub fn value_entries() -> Vec<(&'static str, Vec<&'static str>)> {
        let mut entries: Vec<(&'static str, Vec<&'static str>)> = Vec::new();
        entries.push(("Type", vec![
            "simple", "exec", "forking", "oneshot", "dbus", "notify", "idle",
        ]));
        entries.push(("Restart", vec![
            "no", "on-success", "on-failure", "on-abnormal", "on-watchdog", "on-abort",
            "always",
        ]));
        entries.push(("ProtectSystem", vec![
            "true", "false", "strict", "full", "yes", "no",
        ]));
        entries.push(("ProtectHome", vec![
            "true", "false", "read-only", "tmpfs", "yes", "no",
        ]));
        entries.push(("NotifyAccess", vec!["none", "main", "exec", "all"]));
        entries.push(("KillMode", vec!["control-group", "mixed", "process", "none"]));
        entries.push(("OOMPolicy", vec!["continue", "stop", "kill"]));
        let mut k: usize = 0;
        let booleans = vec![
            "NoNewPrivileges", "PrivateTmp", "PrivateDevices", "PrivateNetwork",
            "PrivateUsers", "PrivateMounts", "ProtectKernelTunables",
            "ProtectKernelModules", "ProtectKernelLogs", "ProtectControlGroups",
            "RestrictRealtime", "RestrictSUIDSGID", "RemoveIPC", "DynamicUser",
            "MountAPIVFS",
        ];
        while k < booleans.len()
            decreases booleans@.len() - k,
        {
            entries.push((booleans[k], vec!["true", "false", "yes", "no", "1", "0"]));
            k = k + 1;
        }
        entries.push(("StandardOutput", vec![
            "inherit", "null", "tty", "journal", "kmsg", "journal+console", "kmsg+console",
            "file:", "append:", "truncate:", "socket",
        ]));
        entries.push(("StandardError", vec![
            "inherit", "null", "tty", "journal", "kmsg", "journal+console", "kmsg+console",
            "file:", "append:", "truncate:", "socket",
        ]));
        entries
    }

    /// The enumerated value domains, keyed by directive name.
    pub fn valid_values() -> HashMap<&'static str, Vec<&'static str>> {
        let entries = Self::value_entries();
        let mut map: HashMap<&'static str, Vec<&'static str>> = HashMap::new();
        let mut k: usize = 0;
        while k < entries.len()
            decreases entries@.len() - k,
        {
            let entry = &entries[k];
            map.insert(entry.0, clone_str_vec(&entry.1));
            k = k + 1;
        }
        map
    }

    /// One-paragraph documentation of each section, as ordered entries.
    pub fn section_documentation_entries() -> Vec<(&'static str, &'static str)> {
        let mut entries: Vec<(&'static str, &'static str)> = Vec::new();
        entries.push((
            "Unit",
            "Carries generic information about the unit: its description, documentation links, and its dependencies and ordering against other units.",
        ));
        entries.push((
            "Service",
            "Configures a process controlled and supervised by the service manager: how it is started, stopped, reloaded, and how its sandbox looks.",
        ));
        entries.push((
            "Install",
            "Carries the installation information used when the unit is enabled or disabled: which targets want it and under which aliases it is known.",
        ));
        entries.push((
            "Timer",
            "Configures monotonic or calendar timers that activate another unit when they elapse.",
        ));
        entries.push((
            "Socket",
            "Configures sockets or FIFOs supervised for socket-based activation of a matching service unit.",
        ));
        entries.push((
            "Mount",
            "Configures a file system mount point supervised by the service manager.",
        ));
        entries.push((
            "Path",
            "Configures paths watched for existence or changes, activating another unit when they trigger.",
        ));
        entries.push((
            "Swap",
            "Configures a swap device or file supervised by the service manager.",
        ));
        entries.push((
            "Automount",
            "Configures an automount point that mounts its matching mount unit on first access.",
        ));
        entries.push((
            "Device",
            "Exposes a kernel device in the unit dependency tree; device units carry no options of their own.",
        ));
        entries.push((
            "Slice",
            "Groups units in a hierarchy for resource management through the control group tree.",
        ));
        entries.push((
            "Scope",
            "Manages a set of externally created processes; scopes are created programmatically, not from unit files.",
        ));
        entries
    }

    /// One-paragraph documentation of each section, keyed by section name.
    pub fn section_documentation() -> HashMap<&'static str, &'static str> {
        let entries = Self::section_documentation_entries();
        let mut map: HashMap<&'static str, &'static str> = HashMap::new();
        let mut k: usize = 0;
        while k < entries.len()
            decreases entries@.len() - k,
        {
            map.insert(entries[k].0, entries[k].1);
            k = k + 1;
        }
        map
    }

    /// Short descriptions of a few frequently used directives, as ordered
    /// (section, directive, description) entries.
    pub fn directive_description_entries() -> Vec<(&'static str, &'static str, &'static str)> {
        let mut entries: Vec<(&'static str, &'static str, &'static str)> = Vec::new();
        entries.push((
            "Unit",
            "Description",
            "A short human readable title of the unit, shown by status and list output.",
        ));
        entries.push((
            "Unit",
            "Wants",
            "Units that are pulled in as a weak dependency: they are started with this unit, but a failure does not stop it.",
        ));
        entries.push((
            "Service",
            "Type",
            "The process start-up type: simple, exec, forking, oneshot, dbus, notify or idle.",
        ));
        entries.push((
            "Service",
            "ExecStart",
            "The command line that is executed when this service is started.",
        ));
        entries.push((
            "Install",
            "WantedBy",
            "The targets that gain a Wants dependency on this unit when it is enabled.",
        ));
        entries
    }

    /// The vocabulary the validator runs with: the sections, per-section
    /// directive names and enumerated value domains above, with no
    /// (section, directive)-specific value entries.
    pub fn standard_vocabulary() -> Vocabulary {
        let sections = to_string_vec(Self::valid_sections());
        let dir_entries = Self::section_directive_entries();
        let mut section_directives: Vec<(String, Vec<String>)> = Vec::new();
        let mut k: usize = 0;
        while k < dir_entries.len()
            decreases dir_entries@.len() - k,
        {
            let entry = &dir_entries[k];
            section_directives.push((entry.0.to_owned(), to_string_vec(clone_str_vec(&entry.1))));
            k = k + 1;
        }
        let val_entries = Self::value_entries();
        let mut directive_values: Vec<(String, Vec<String>)> = Vec::new();
        let mut j: usize = 0;
        while j < val_entries.len()
            decreases val_entries@.len() - j,
        {
            let entry = &val_entries[j];
            directive_values.push((entry.0.to_owned(), to_string_vec(clone_str_vec(&entry.1))));
            j = j + 1;
        }
        Vocabulary {
            sections,
            section_directives,
            pair_values: Vec::new(),
            directive_values,
        }
    }
}

/// Copies a vector of string slices.
fn clone_str_vec(v: &Vec<&'static str>) -> (r: Vec<&'static str>)
    ensures
        r.deep_view() == v.deep_view(),
{
    let mut r: Vec<&'static str> = Vec::new();
    let mut k: usize = 0;
    while k < v.len()
        invariant
            0 <= k <= v@.len(),
            r@.len() == k as int,
            forall|t: int| 0 <= t < k ==> #[trigger] r@[t].deep_view() == v@[t].deep_view(),
        decreases v@.len() - k,
    {
        let ghost raw = r@;
        let c = v[k];
        r.push(c);
        proof {
            assert(r@ == raw.push(c));
            assert forall|t: int| 0 <= t < k + 1 implies #[trigger] r@[t].deep_view()
                == v@[t].deep_view() by {
                assert(r@[t] == raw.push(c)[t]);
                if t < k {
                    assert(raw.push(c)[t] == raw[t]);
                }
            }
        }
        k = k + 1;
    }
    proof {
        assert(r.deep_view() =~= v.deep_view());
    }
    r
}

} // verus!
