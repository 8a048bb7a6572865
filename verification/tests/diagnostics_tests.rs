use systemd_lsp::Diagnostic;
use systemd_lsp::DiagnosticSeverity;
use systemd_lsp::DirectiveValueSpan;
use systemd_lsp::SystemdDiagnostics;
use systemd_lsp::SystemdDirective;
use systemd_lsp::SystemdSection;
use systemd_lsp::SystemdUnit;
use systemd_lsp::SystemdParser;

fn create_test_unit(sections: Vec<(&str, Vec<(&str, &str)>)>) -> SystemdUnit {
    let mut unit_sections = Vec::new();

    for (i, (section_name, directives)) in sections.iter().enumerate() {
        let mut section_directives = Vec::new();

        for (j, (key, value)) in directives.iter().enumerate() {
            let line_number = i * 10 + j + 1;
            let value_start = key.len() + 1;
            let end_column = value_start + value.len();
            let spans = vec![DirectiveValueSpan {
                line: line_number,
                start: value_start,
                end: end_column,
            }];

            section_directives.push(SystemdDirective {
                key: key.to_string(),
                value: value.to_string(),
                line_number,
                column_range: (0, key.len()),
                end_line_number: line_number,
                value_spans: spans,
            });
        }

        unit_sections.push(SystemdSection {
            name: section_name.to_string(),
            directives: section_directives,
            line_range: (i, i + 1),
        });
    }

    SystemdUnit { sections: unit_sections, raw_text: String::new() }
}

fn run(unit: &SystemdUnit, uri: &str) -> Vec<Diagnostic> {
    let mut diagnostics = SystemdDiagnostics::new();
    diagnostics.update(uri, unit);
    diagnostics.get_diagnostics(uri)
}

#[test]
fn test_valid_unit_no_diagnostics() {
    let unit = create_test_unit(vec![
        ("Unit", vec![("Description", "Test service")]),
        ("Service", vec![("Type", "simple"), ("ExecStart", "/bin/test")]),
        ("Install", vec![("WantedBy", "multi-user.target")]),
    ]);

    let result = run(&unit, "file:///test.service");
    assert_eq!(result.len(), 0);
}

#[test]
fn test_invalid_section_diagnostic() {
    let unit = create_test_unit(vec![("InvalidSection", vec![("SomeKey", "SomeValue")])]);

    let result = run(&unit, "file:///test.service");

    assert_eq!(result.len(), 1);
    assert_eq!(result[0].message, "Unknown section: [InvalidSection]");
    assert_eq!(result[0].range.start.line, 0);
}

#[test]
fn test_invalid_directive_diagnostic() {
    let unit = create_test_unit(vec![("Unit", vec![("InvalidDirective", "SomeValue")])]);

    let result = run(&unit, "file:///test.service");

    assert_eq!(result.len(), 1);
    assert_eq!(
        result[0].message,
        "Unknown directive 'InvalidDirective' in [Unit] section"
    );
    assert_eq!(result[0].severity, DiagnosticSeverity::Warning);
}

#[test]
fn test_empty_execstart_diagnostic() {
    let unit = create_test_unit(vec![("Service", vec![("ExecStart", "")])]);

    let result = run(&unit, "file:///test.service");

    assert_eq!(result.len(), 1);
    assert_eq!(result[0].message, "ExecStart cannot be empty");
    assert_eq!(result[0].severity, DiagnosticSeverity::Error);
}

#[test]
fn test_invalid_type_value_diagnostic() {
    let unit = create_test_unit(vec![("Service", vec![("Type", "invalid_type")])]);

    let result = run(&unit, "file:///test.service");

    assert_eq!(result.len(), 1);
    assert!(result[0].message.starts_with("Invalid Type value 'invalid_type'"));
    assert_eq!(result[0].severity, DiagnosticSeverity::Error);
}

#[test]
fn test_multiple_diagnostics() {
    let unit = create_test_unit(vec![
        ("InvalidSection", vec![("SomeKey", "SomeValue")]),
        ("Unit", vec![("InvalidDirective", "SomeValue")]),
        ("Service", vec![("ExecStart", ""), ("Type", "invalid_type")]),
    ]);

    let result = run(&unit, "file:///test.service");

    assert!(result.len() >= 3);
}

#[test]
fn test_diagnostics_persistence() {
    let mut diagnostics = SystemdDiagnostics::new();
    let uri1 = "file:///test1.service";
    let uri2 = "file:///test2.service";

    let unit1 = create_test_unit(vec![("InvalidSection", vec![("SomeKey", "SomeValue")])]);
    let unit2 = create_test_unit(vec![("Unit", vec![("Description", "Valid service")])]);

    diagnostics.update(uri1, &unit1);
    diagnostics.update(uri2, &unit2);

    let result1 = diagnostics.get_diagnostics(uri1);
    let result2 = diagnostics.get_diagnostics(uri2);

    assert_eq!(result1.len(), 1);
    assert_eq!(result2.len(), 0);
}

#[test]
fn invalid_type_message_names_the_full_allowed_list() {
    let unit = create_test_unit(vec![("Service", vec![("Type", "invalid_type")])]);

    let result = run(&unit, "file:///test.service");

    assert_eq!(result.len(), 1);
    assert_eq!(result[0].severity, DiagnosticSeverity::Error);
    assert_eq!(
        result[0].message,
        "Invalid Type value 'invalid_type'. Valid values: simple, exec, forking, oneshot, dbus, notify, idle"
    );
}

#[test]
fn empty_execstart_yields_no_duplicate_generic_diagnostic() {
    // ExecStart has no enumerated value domain, but even for a directive that
    // had one, the empty-value rule short-circuits the generic check.
    let unit = create_test_unit(vec![("Service", vec![("ExecStart", "")])]);
    let result = run(&unit, "file:///test.service");
    assert_eq!(result.len(), 1);
}

#[test]
fn stream_selector_accepts_prefixed_values() {
    let ok = create_test_unit(vec![("Service", vec![
        ("StandardOutput", "file:/var/log/test.log"),
        ("StandardError", "journal"),
    ])]);
    assert_eq!(run(&ok, "file:///ok.service").len(), 0);

    let bad = create_test_unit(vec![("Service", vec![("StandardOutput", "invalid-stream")])]);
    let result = run(&bad, "file:///bad.service");
    assert_eq!(result.len(), 1);
    assert!(result[0].message.starts_with("Invalid StandardOutput value 'invalid-stream'"));
}

#[test]
fn multiline_value_diagnostic_spans_full_extent() {
    let parser = SystemdParser::new();
    let content = "[Service]\nRestart=bad \\\n    policy\n";
    let unit = parser.parse(content);
    let result = run(&unit, "file:///multi.service");

    assert_eq!(result.len(), 1);
    assert_eq!(result[0].range.start.line, 1);
    assert_eq!(result[0].range.start.character, 8);
    assert_eq!(result[0].range.end.line, 2);
    assert_eq!(result[0].range.end.character, 10);
}

#[test]
fn unknown_section_skips_directive_validation() {
    let unit = create_test_unit(vec![("Mystery", vec![("Type", "invalid_type")])]);
    let result = run(&unit, "file:///skip.service");
    assert_eq!(result.len(), 1);
    assert_eq!(result[0].message, "Unknown section: [Mystery]");
}
