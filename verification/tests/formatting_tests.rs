use systemd_lsp::SystemdFormatter;
use systemd_lsp::Position;
use systemd_lsp::TextRange;

#[test]
fn test_opinionated_formatting_section_spacing() {
    let formatter = SystemdFormatter::new();
    let input = "[Unit]\nDescription=Test\n[Service]\nType=simple\n[Install]\nWantedBy=multi-user.target\n";
    let expected = "[Unit]\nDescription=Test\n\n[Service]\nType=simple\n\n[Install]\nWantedBy=multi-user.target\n";

    let formatted = formatter.apply_opinionated_formatting(input);
    assert_eq!(formatted, expected);
}

#[test]
fn test_opinionated_formatting_no_spaces_around_equals() {
    let formatter = SystemdFormatter::new();
    let input = "[Unit]\nDescription = Test Service\nAfter =  network.target\nWants=   network-online.target\n";
    let expected =
        "[Unit]\nDescription=Test Service\nAfter=network.target\nWants=network-online.target\n";

    let formatted = formatter.apply_opinionated_formatting(input);
    assert_eq!(formatted, expected);
}

#[test]
fn test_opinionated_formatting_preserves_comments() {
    let formatter = SystemdFormatter::new();
    let input = "# This is a comment\n[Unit]\n# Another comment\nDescription=Test\n";
    let expected = "# This is a comment\n[Unit]\n# Another comment\nDescription=Test\n";

    let formatted = formatter.apply_opinionated_formatting(input);
    assert_eq!(formatted, expected);
}

#[test]
fn test_opinionated_formatting_removes_extra_blank_lines() {
    let formatter = SystemdFormatter::new();
    let input = "\n\n[Unit]\n\n\nDescription=Test\n\n\n\n[Service]\n\n\nType=simple\n\n\n";
    let expected = "[Unit]\nDescription=Test\n\n[Service]\nType=simple\n";

    let formatted = formatter.apply_opinionated_formatting(input);
    assert_eq!(formatted, expected);
}

#[test]
fn test_opinionated_formatting_single_section() {
    let formatter = SystemdFormatter::new();
    let input = "[Unit]\nDescription=Test\nAfter=network.target\n";
    let expected = "[Unit]\nDescription=Test\nAfter=network.target\n";

    let formatted = formatter.apply_opinionated_formatting(input);
    assert_eq!(formatted, expected);
}

#[test]
fn test_format_document_integration() {
    let formatter = SystemdFormatter::new();
    let input = "[Unit]\nDescription = Test\n[Service]\nType = simple\n";

    let edits = formatter.format_document(input);
    assert_eq!(edits.len(), 1);

    let expected = "[Unit]\nDescription=Test\n\n[Service]\nType=simple\n";
    assert_eq!(edits[0].new_text, expected);
}

#[test]
fn test_format_document_no_changes_needed() {
    let formatter = SystemdFormatter::new();
    let input = "[Unit]\nDescription=Test\n\n[Service]\nType=simple\n";

    let edits = formatter.format_document(input);
    assert_eq!(edits.len(), 0);
}

#[test]
fn test_opinionated_formatting_no_blank_lines_within_sections() {
    let formatter = SystemdFormatter::new();
    let input = "[Unit]\nDescription=Test\n\nAfter=network.target\n\n\n[Service]\nType=simple\n\nExecStart=/bin/test\n\nRestart=always\n";
    let expected = "[Unit]\nDescription=Test\nAfter=network.target\n\n[Service]\nType=simple\nExecStart=/bin/test\nRestart=always\n";

    let formatted = formatter.apply_opinionated_formatting(input);
    assert_eq!(formatted, expected);
}

#[test]
fn format_range_formats_the_whole_document() {
    let formatter = SystemdFormatter::new();
    let input = "[Unit]\nDescription = Test\n";
    let range = TextRange {
        start: Position { line: 0, character: 0 },
        end: Position { line: 0, character: 1 },
    };

    let edits = formatter.format_range(input, range);
    assert_eq!(edits.len(), 1);
    assert_eq!(edits[0].new_text, "[Unit]\nDescription=Test\n");
    assert_eq!(edits[0].range.start.line, 0);
    assert_eq!(edits[0].range.end.line, 2);
}
