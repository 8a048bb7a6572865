use systemd_lsp::Position;
use systemd_lsp::SystemdParser;
use systemd_lsp::SystemdSection;
use systemd_lsp::SystemdUnit;
use systemd_lsp::parser::parse_value_fragment;

fn section<'a>(unit: &'a SystemdUnit, name: &str) -> Option<&'a SystemdSection> {
    unit.sections.iter().find(|s| s.name == name)
}

fn has_directive(section: &SystemdSection, key: &str) -> bool {
    section.directives.iter().any(|d| d.key == key)
}

#[test]
fn test_parse_basic_systemd_file() {
    let parser = SystemdParser::new();
    let content = "[Unit]\nDescription=Test service\nAfter=network.target\n\n[Service]\nType=simple\nExecStart=/bin/test\n";

    let parsed = parser.parse(content);

    assert_eq!(parsed.sections.len(), 2);
    assert!(section(&parsed, "Unit").is_some());
    assert!(section(&parsed, "Service").is_some());

    let unit_section = section(&parsed, "Unit").unwrap();
    assert_eq!(unit_section.line_range.0, 0);
    assert_eq!(unit_section.directives.len(), 2);
    assert!(has_directive(unit_section, "Description"));
    assert!(has_directive(unit_section, "After"));

    let service_section = section(&parsed, "Service").unwrap();
    assert_eq!(service_section.line_range.0, 4);
    assert_eq!(service_section.directives.len(), 2);
    assert!(has_directive(service_section, "Type"));
    assert!(has_directive(service_section, "ExecStart"));
}

#[test]
fn test_parse_with_comments_and_empty_lines() {
    let parser = SystemdParser::new();
    let content = "# This is a comment\n\n[Unit]\n# Another comment\nDescription=Test\n\n[Service]\nType=simple\n";

    let parsed = parser.parse(content);

    assert_eq!(parsed.sections.len(), 2);
    assert!(section(&parsed, "Unit").is_some());
    assert!(section(&parsed, "Service").is_some());

    // Comments and empty lines should be ignored
    let unit_section = section(&parsed, "Unit").unwrap();
    assert_eq!(unit_section.directives.len(), 1);
    assert!(has_directive(unit_section, "Description"));
}

#[test]
fn test_get_section_header_at_position() {
    let parser = SystemdParser::new();
    let content = "[Unit]\nDescription=Test\n\n[Service]\nType=simple\n\n[Install]\nWantedBy=multi-user.target\n";
    let parsed = parser.parse(content);

    // Test section headers
    assert_eq!(
        parser.get_section_header_at_position(&parsed, &Position { line: 0, character: 0 }),
        Some("Unit".to_string())
    );
    assert_eq!(
        parser.get_section_header_at_position(&parsed, &Position { line: 3, character: 0 }),
        Some("Service".to_string())
    );
    assert_eq!(
        parser.get_section_header_at_position(&parsed, &Position { line: 6, character: 0 }),
        Some("Install".to_string())
    );

    // Test non-header lines
    assert_eq!(
        parser.get_section_header_at_position(&parsed, &Position { line: 1, character: 0 }),
        None
    );
    assert_eq!(
        parser.get_section_header_at_position(&parsed, &Position { line: 4, character: 0 }),
        None
    );
    assert_eq!(
        parser.get_section_header_at_position(&parsed, &Position { line: 7, character: 0 }),
        None
    );
}

#[test]
fn test_get_section_at_line() {
    let parser = SystemdParser::new();
    let content = "[Unit]\nDescription=Test\nAfter=network.target\n\n[Service]\nType=simple\nExecStart=/bin/test\n";
    let parsed = parser.parse(content);

    // Test lines within sections
    let unit_section = parser.get_section_at_line(&parsed, 0).unwrap();
    assert_eq!(unit_section.name, "Unit");

    let unit_section = parser.get_section_at_line(&parsed, 1).unwrap();
    assert_eq!(unit_section.name, "Unit");

    let unit_section = parser.get_section_at_line(&parsed, 2).unwrap();
    assert_eq!(unit_section.name, "Unit");

    let service_section = parser.get_section_at_line(&parsed, 4).unwrap();
    assert_eq!(service_section.name, "Service");

    let service_section = parser.get_section_at_line(&parsed, 5).unwrap();
    assert_eq!(service_section.name, "Service");

    // A line far beyond the end of the file lies in no section.
    assert!(parser.get_section_at_line(&parsed, 100).is_none());
}

#[test]
fn test_get_word_at_position() {
    let parser = SystemdParser::new();
    let content = "[Unit]\nDescription=Test service\nAfter=network.target\n";
    let parsed = parser.parse(content);

    // Test getting directive names
    assert_eq!(
        parser.get_word_at_position(&parsed, &Position { line: 1, character: 0 }),
        Some("Description".to_string())
    );
    assert_eq!(
        parser.get_word_at_position(&parsed, &Position { line: 1, character: 5 }),
        Some("Description".to_string())
    );
    assert_eq!(
        parser.get_word_at_position(&parsed, &Position { line: 2, character: 0 }),
        Some("After".to_string())
    );

    // Test getting values - the word extraction includes dots and hyphens as valid word characters
    assert_eq!(
        parser.get_word_at_position(&parsed, &Position { line: 1, character: 12 }),
        Some("Test".to_string())
    );
    assert_eq!(
        parser.get_word_at_position(&parsed, &Position { line: 2, character: 6 }),
        Some("network.target".to_string())
    );

    // Test position at different parts of "network.target"
    assert_eq!(
        parser.get_word_at_position(&parsed, &Position { line: 2, character: 10 }),
        Some("network.target".to_string())
    );
    assert_eq!(
        parser.get_word_at_position(&parsed, &Position { line: 2, character: 14 }),
        Some("network.target".to_string())
    );
}

#[test]
fn test_document_storage_and_retrieval() {
    let mut parser = SystemdParser::new();
    let content = "[Unit]\nDescription=Test\n";
    let uri = "file:///test.service";

    // Test that initially there's no document
    assert!(parser.get_parsed_document(uri).is_none());
    assert!(parser.get_document_text(uri).is_none());

    // Store document
    parser.update_document(uri, content);

    // Test retrieval
    let retrieved = parser.get_parsed_document(uri).unwrap();
    assert_eq!(retrieved.sections.len(), 1);
    assert!(section(&retrieved, "Unit").is_some());

    let text = parser.get_document_text(uri).unwrap();
    assert_eq!(text, content);
}

#[test]
fn test_parse_edge_cases() {
    let parser = SystemdParser::new();

    // Test empty file
    let empty_parsed = parser.parse("");
    assert_eq!(empty_parsed.sections.len(), 0);

    // Test file with only comments
    let comments_only = parser.parse("# Comment 1\n# Comment 2\n");
    assert_eq!(comments_only.sections.len(), 0);

    // Test section with no directives
    let empty_section = parser.parse("[Unit]\n\n[Service]\n");
    assert_eq!(empty_section.sections.len(), 2);
    assert_eq!(section(&empty_section, "Unit").unwrap().directives.len(), 0);
    assert_eq!(section(&empty_section, "Service").unwrap().directives.len(), 0);

    // Test directive with empty value
    let empty_value = parser.parse("[Unit]\nDescription=\n");
    assert_eq!(empty_value.sections.len(), 1);
    assert_eq!(
        section(&empty_value, "Unit").unwrap().directives[0].value,
        ""
    );

    // Test directive with spaces around equals
    let spaced_equals = parser.parse("[Unit]\nDescription = Test Service \n");
    assert_eq!(spaced_equals.sections.len(), 1);
    assert_eq!(
        section(&spaced_equals, "Unit").unwrap().directives[0].value,
        "Test Service"
    );
}

#[test]
fn test_case_sensitivity() {
    let parser = SystemdParser::new();
    let content = "[UNIT]\nDESCRIPTION=Test\n[service]\ntype=simple\n";
    let parsed = parser.parse(content);

    // Section names should preserve case
    assert!(section(&parsed, "UNIT").is_some());
    assert!(section(&parsed, "service").is_some());
    assert!(section(&parsed, "Unit").is_none());
    assert!(section(&parsed, "Service").is_none());

    // Directive names should preserve case
    assert!(has_directive(section(&parsed, "UNIT").unwrap(), "DESCRIPTION"));
    assert!(has_directive(section(&parsed, "service").unwrap(), "type"));
}

#[test]
fn test_parse_multiline_directive_execstart() {
    let parser = SystemdParser::new();
    let content = "[Service]\nExecStart=/usr/bin/test \\\n    --flag value \\\n    --another-flag\n";

    let parsed = parser.parse(content);
    let service_section = section(&parsed, "Service").expect("Service section missing");
    let exec_start = service_section
        .directives
        .iter()
        .find(|d| d.key == "ExecStart")
        .expect("ExecStart directive missing");

    assert_eq!(exec_start.value, "/usr/bin/test --flag value --another-flag");
    assert_eq!(exec_start.line_number, 1);
    assert_eq!(exec_start.end_line_number, 3);
    assert_eq!(exec_start.value_spans.len(), 3);

    let first_span = &exec_start.value_spans[0];
    assert_eq!(first_span.line, 1);
    assert_eq!(first_span.start, 10);
    assert_eq!(first_span.end, 23);

    let second_span = &exec_start.value_spans[1];
    assert_eq!(second_span.line, 2);
    assert_eq!(second_span.start, 4);
    assert_eq!(second_span.end, 16);

    let third_span = &exec_start.value_spans[2];
    assert_eq!(third_span.line, 3);
    assert_eq!(third_span.start, 4);
    assert_eq!(third_span.end, 18);
}

#[test]
fn parse_is_deterministic_on_the_model() {
    let parser = SystemdParser::new();
    let content = "[Unit]\nDescription=Test \\\n  continued\n# comment\n[Service]\nType=simple\n";
    let a = parser.parse(content);
    let b = parser.parse(content);

    assert_eq!(a.raw_text, b.raw_text);
    assert_eq!(a.sections.len(), b.sections.len());
    for (sa, sb) in a.sections.iter().zip(b.sections.iter()) {
        assert_eq!(sa.name, sb.name);
        assert_eq!(sa.line_range, sb.line_range);
        assert_eq!(sa.directives.len(), sb.directives.len());
        for (da, db) in sa.directives.iter().zip(sb.directives.iter()) {
            assert_eq!(da.key, db.key);
            assert_eq!(da.value, db.value);
            assert_eq!(da.line_number, db.line_number);
            assert_eq!(da.column_range, db.column_range);
            assert_eq!(da.end_line_number, db.end_line_number);
            assert_eq!(da.value_spans, db.value_spans);
        }
    }
}

#[test]
fn single_line_value_matches_source_verbatim() {
    let parser = SystemdParser::new();
    let content = "[Service]\nExecStart=/bin/test --flag\n";
    let parsed = parser.parse(content);
    let d = &section(&parsed, "Service").unwrap().directives[0];
    assert_eq!(d.value_spans.len(), 1);
    let span = &d.value_spans[0];
    let line = content.lines().nth(span.line).unwrap();
    assert_eq!(&line[span.start..span.end], d.value);
}

#[test]
fn fragment_with_odd_trailing_backslashes_continues() {
    assert_eq!(parse_value_fragment("abc"), ("abc".to_string(), false));
    assert_eq!(parse_value_fragment("abc \\"), ("abc".to_string(), true));
    assert_eq!(parse_value_fragment("abc \\\\"), ("abc \\\\".to_string(), false));
    assert_eq!(parse_value_fragment("   "), ("".to_string(), false));
    assert_eq!(parse_value_fragment("\\"), ("".to_string(), true));
}
