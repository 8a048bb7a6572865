use systemd_lsp::Position;
use systemd_lsp::SystemdCompletion;
use systemd_lsp::SystemdConstants;
use systemd_lsp::SystemdDefinitionProvider;
use systemd_lsp::SystemdParser;
use systemd_lsp::hover_content;

fn parse_document(content: &str) -> (SystemdParser, &'static str) {
    let mut parser = SystemdParser::new();
    let uri = "file:///test.service";
    parser.update_document(uri, content);
    (parser, uri)
}

fn embedded(provider: &SystemdDefinitionProvider, key: &str) -> Option<String> {
    provider.get_embedded_documentation(key)
}

#[test]
fn section_hover_returns_documentation() {
    let provider = SystemdDefinitionProvider::new();
    let sections = ["unit", "service", "install", "socket", "timer"];

    for section in sections {
        let docs = embedded(&provider, section);
        assert!(docs.is_some(), "{} should have docs", section);
        assert!(docs.unwrap().len() > 100, "{} docs should be substantial", section);
    }
}

#[test]
fn directive_hover_returns_documentation() {
    let completion = SystemdCompletion::new();
    let directives = [
        ("Unit", "Description"),
        ("Unit", "Wants"),
        ("Service", "Type"),
        ("Service", "ExecStart"),
        ("Install", "WantedBy"),
    ];

    for (section, directive) in directives {
        let docs = completion.get_directive_documentation(directive, section);
        assert!(docs.is_some(), "{}/{} should have docs", section, directive);
        assert!(!docs.unwrap().is_empty());
    }
}

#[test]
fn hover_is_case_insensitive() {
    let completion = SystemdCompletion::new();
    let variants = ["Description", "description", "DESCRIPTION"];

    for variant in variants {
        let docs = completion.get_directive_documentation(variant, "Unit");
        assert!(docs.is_some(), "Case variant '{}' should work", variant);
    }
}

#[test]
fn unknown_directive_returns_none() {
    let completion = SystemdCompletion::new();
    assert!(completion.get_directive_documentation("FakeDirective", "Unit").is_none());
}

#[test]
fn directive_in_wrong_section_returns_none() {
    let completion = SystemdCompletion::new();
    assert!(completion.get_directive_documentation("Type", "Unit").is_none());
}

#[test]
fn parser_identifies_section_headers() {
    let (parser, uri) = parse_document("[Unit]\nDescription=Test\n");
    let parsed = parser.get_parsed_document(uri).unwrap();
    let position = Position { line: 0, character: 2 };

    let section = parser.get_section_header_at_position(&parsed, &position);
    assert_eq!(section.as_deref(), Some("Unit"));
}

#[test]
fn parser_extracts_directive_names() {
    let (parser, uri) = parse_document("[Unit]\nDescription=Test\n");
    let parsed = parser.get_parsed_document(uri).unwrap();
    let position = Position { line: 1, character: 5 };

    let word = parser.get_word_at_position(&parsed, &position);
    assert_eq!(word.as_deref(), Some("Description"));
}

#[test]
fn parser_tracks_section_context() {
    let (parser, _) = parse_document("[Unit]\nDescription=Test\n\n[Service]\nType=simple\n");
    let parsed = parser.parse("[Unit]\nDescription=Test\n\n[Service]\nType=simple\n");

    let unit_section = parser.get_section_at_line(&parsed, 1).unwrap();
    assert_eq!(unit_section.name, "Unit");

    let service_section = parser.get_section_at_line(&parsed, 4).unwrap();
    assert_eq!(service_section.name, "Service");
}

#[test]
fn parser_stores_directive_positions() {
    let parser = SystemdParser::new();
    let parsed = parser.parse("[Service]\nType=simple\nExecStart=/bin/test\n");

    let section = parsed.sections.iter().find(|s| s.name == "Service").unwrap();
    assert_eq!(section.directives.len(), 2);
    assert_eq!(section.directives[0].key, "Type");
    assert_eq!(section.directives[0].line_number, 1);
    assert_eq!(section.directives[1].key, "ExecStart");
    assert_eq!(section.directives[1].line_number, 2);
}

#[test]
fn all_documented_sections_accessible() {
    let provider = SystemdDefinitionProvider::new();
    let sections = [
        "unit", "service", "install", "socket", "timer", "mount", "path", "swap", "container",
        "pod", "volume", "network", "kube", "build", "image",
    ];

    for section in sections {
        assert!(
            embedded(&provider, section).is_some(),
            "Section '{}' should have docs",
            section
        );
    }
}

#[test]
fn directive_descriptions_exist() {
    let descriptions = SystemdConstants::directive_descriptions();
    assert!(descriptions.contains_key(&("Unit", "Description")));
    assert!(descriptions.contains_key(&("Service", "Type")));
    assert!(descriptions.contains_key(&("Install", "WantedBy")));

    for content in descriptions.values() {
        assert!(!content.is_empty(), "Descriptions should not be empty");
    }
}

#[test]
fn section_directives_defined() {
    let directives = SystemdConstants::section_directives();
    assert!(directives.contains_key("Unit"));
    assert!(directives.contains_key("Service"));
    assert!(directives.contains_key("Install"));
    assert!(!directives["Unit"].is_empty());
    assert!(!directives["Service"].is_empty());
}

#[test]
fn test_embedded_documentation_exists() {
    let provider = SystemdDefinitionProvider::new();

    // Test that all expected documentation is embedded
    for key in ["unit", "service", "install", "socket", "timer", "mount", "path", "swap"] {
        assert!(provider.documentation.iter().any(|(k, _)| k == key));
    }

    // Test content is not empty
    assert!(!embedded(&provider, "unit").unwrap().is_empty());
    assert!(!embedded(&provider, "service").unwrap().is_empty());
    assert!(!embedded(&provider, "install").unwrap().is_empty());

    // Test content contains expected headers
    assert!(embedded(&provider, "unit").unwrap().contains("# [Unit] Section"));
    assert!(embedded(&provider, "service").unwrap().contains("# [Service] Section"));
    assert!(embedded(&provider, "install").unwrap().contains("# [Install] Section"));
}

#[test]
fn test_documentation_content_quality() {
    let provider = SystemdDefinitionProvider::new();

    // Test that documentation contains useful content
    let unit_docs = embedded(&provider, "unit").unwrap();
    assert!(unit_docs.contains("Description="));
    assert!(unit_docs.contains("Requires="));
    assert!(unit_docs.contains("After="));

    let service_docs = embedded(&provider, "service").unwrap();
    assert!(service_docs.contains("Type="));
    assert!(service_docs.contains("ExecStart="));
    assert!(service_docs.contains("Restart="));

    let install_docs = embedded(&provider, "install").unwrap();
    assert!(install_docs.contains("WantedBy="));
    assert!(install_docs.contains("multi-user.target"));
}

#[test]
fn hover_on_section_header_returns_full_documentation() {
    let mut parser = SystemdParser::new();
    let uri = "file:///hover.service";
    let content = "[Unit]\nDescription=Test\n";
    parser.update_document(uri, content);
    let unit = parser.get_parsed_document(uri).unwrap();

    let completion = SystemdCompletion::new();
    let provider = SystemdDefinitionProvider::new();

    let on_header = hover_content(
        &parser,
        &completion,
        &provider,
        &unit,
        &Position { line: 0, character: 1 },
    );
    assert!(on_header.is_some());
    assert!(on_header.unwrap().contains("# [Unit] Section"));

    let on_directive = hover_content(
        &parser,
        &completion,
        &provider,
        &unit,
        &Position { line: 1, character: 3 },
    );
    assert!(on_directive.is_some());

    let outside = hover_content(
        &parser,
        &completion,
        &provider,
        &unit,
        &Position { line: 50, character: 0 },
    );
    assert!(outside.is_none());
}
