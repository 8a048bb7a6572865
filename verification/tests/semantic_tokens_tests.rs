use systemd_lsp::SemanticToken;
use systemd_lsp::SystemdParser;
use systemd_lsp::SystemdSemanticTokens;
use systemd_lsp::semantic_tokens::TOKEN_TYPE_KEYWORD;
use systemd_lsp::semantic_tokens::TOKEN_TYPE_STRING;
use systemd_lsp::semantic_tokens::sort_tokens;
use systemd_lsp::SystemdDiagnostics;

struct DecodedToken {
    line: usize,
    start: usize,
    length: usize,
    token_type: usize,
}

fn decode_tokens(data: &[SemanticToken]) -> Vec<DecodedToken> {
    let mut result = Vec::new();
    let mut current_line = 0usize;
    let mut current_start = 0usize;

    for token in data {
        current_line += token.delta_line;
        if token.delta_line == 0 {
            current_start += token.delta_start;
        } else {
            current_start = token.delta_start;
        }

        result.push(DecodedToken {
            line: current_line,
            start: current_start,
            length: token.length,
            token_type: token.token_type,
        });
    }

    result
}

#[test]
fn test_multiline_execstart_tokens_cover_all_lines() {
    let mut parser = SystemdParser::new();
    let uri = "file:///test.service";
    let content = "[Service]\nExecStart=/usr/bin/test \\\n    --flag value \\\n    --another-flag\n";

    parser.update_document(uri, content);
    let semantic = SystemdSemanticTokens::new();
    let tokens = semantic
        .get_semantic_tokens(&parser, uri)
        .expect("semantic tokens");

    let decoded = decode_tokens(&tokens);
    let string_tokens: Vec<&DecodedToken> = decoded
        .iter()
        .filter(|token| token.token_type == TOKEN_TYPE_STRING)
        .collect();

    assert_eq!(string_tokens.len(), 3);
    assert_eq!(string_tokens[0].line, 1);
    assert_eq!(string_tokens[0].start, 10);
    assert_eq!(string_tokens[0].length, 13);

    assert_eq!(string_tokens[1].line, 2);
    assert_eq!(string_tokens[1].start, 4);
    assert_eq!(string_tokens[1].length, 12);

    assert_eq!(string_tokens[2].line, 3);
    assert_eq!(string_tokens[2].start, 4);
    assert_eq!(string_tokens[2].length, 14);
}

#[test]
fn cross_line_token_stores_absolute_column() {
    // The first directive is indented, so a wrongly transposed encoding (a
    // relative column across a line change) could not produce 0 here.
    let mut parser = SystemdParser::new();
    let uri = "file:///delta.service";
    let content = "[Service]\n  Type=simple\nRestart=always\n";

    parser.update_document(uri, content);
    let semantic = SystemdSemanticTokens::new();
    let tokens = semantic.get_semantic_tokens(&parser, uri).expect("tokens");

    // Tokens: keyword (1,2,4), string (1,7,6), keyword (2,0,7), string (2,8,6).
    assert_eq!(tokens.len(), 4);
    assert_eq!(tokens[0].delta_line, 1);
    assert_eq!(tokens[0].delta_start, 2);
    assert_eq!(tokens[0].token_type, TOKEN_TYPE_KEYWORD);

    assert_eq!(tokens[1].delta_line, 0);
    assert_eq!(tokens[1].delta_start, 5);
    assert_eq!(tokens[1].token_type, TOKEN_TYPE_STRING);

    // The second keyword token is on the next line: delta_line is 1 and
    // delta_start is its absolute column, not a difference.
    assert_eq!(tokens[2].delta_line, 1);
    assert_eq!(tokens[2].delta_start, 0);
    assert_eq!(tokens[2].token_type, TOKEN_TYPE_KEYWORD);

    assert_eq!(tokens[3].delta_line, 0);
    assert_eq!(tokens[3].delta_start, 8);
    assert_eq!(tokens[3].token_type, TOKEN_TYPE_STRING);
}

#[test]
fn sort_orders_tokens_by_line_then_column() {
    let parser = SystemdParser::new();
    let unit = parser.parse("[Service]\nType=simple\nExecStart=/bin/test\n");
    let collected = SystemdSemanticTokens::collect_tokens(&unit);
    let sorted = sort_tokens(collected);

    for pair in sorted.windows(2) {
        let earlier = &pair[0];
        let later = &pair[1];
        assert!(
            earlier.line < later.line
                || (earlier.line == later.line && earlier.start <= later.start)
        );
    }
}

#[test]
fn legend_names_keyword_then_string() {
    let legend = SystemdSemanticTokens::legend();
    assert_eq!(legend, vec!["keyword".to_string(), "string".to_string()]);
    assert_eq!(TOKEN_TYPE_KEYWORD, 0);
    assert_eq!(TOKEN_TYPE_STRING, 1);
}

#[test]
fn missing_document_yields_no_tokens() {
    let parser = SystemdParser::new();
    let semantic = SystemdSemanticTokens::new();
    assert!(semantic.get_semantic_tokens(&parser, "file:///absent.service").is_none());
}

#[test]
fn round_trip_parse_then_validate_is_clean() {
    let parser = SystemdParser::new();
    let content = "[Unit]\nDescription=Test\n\n[Service]\nType=simple\n";
    let unit = parser.parse(content);

    assert_eq!(unit.sections.len(), 2);
    let unit_section = unit.sections.iter().find(|s| s.name == "Unit").unwrap();
    assert_eq!(unit_section.directives.len(), 1);
    let service_section = unit.sections.iter().find(|s| s.name == "Service").unwrap();
    assert_eq!(service_section.directives.len(), 1);

    let mut diagnostics = SystemdDiagnostics::new();
    diagnostics.update("file:///round.service", &unit);
    assert_eq!(diagnostics.get_diagnostics("file:///round.service").len(), 0);
}
