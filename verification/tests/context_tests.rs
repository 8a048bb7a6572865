use systemd_lsp::Context;
use systemd_lsp::Position;
use systemd_lsp::SystemdParser;
use systemd_lsp::resolve_context;

fn resolve(content: &str, line: usize, character: usize) -> Context {
    let parser = SystemdParser::new();
    let unit = parser.parse(content);
    resolve_context(&unit, &Position { line, character })
}

#[test]
fn partial_header_resolves_to_section_header_edit() {
    // A header still being typed offers header completions even though it
    // never parsed.
    let ctx = resolve("[Un", 0, 0);
    assert_eq!(ctx, Context::SectionHeaderEdit);

    let ctx_mid = resolve("[Un", 0, 3);
    assert_eq!(ctx_mid, Context::SectionHeaderEdit);
}

#[test]
fn completed_header_line_resolves_to_section_header_edit() {
    let ctx = resolve("[Unit]\nDescription=Test\n", 0, 3);
    assert_eq!(ctx, Context::SectionHeaderEdit);
}

#[test]
fn cursor_after_equals_resolves_to_value_edit() {
    let content = "[Service]\nRestart=\n";
    let ctx = resolve(content, 1, 8);
    assert_eq!(
        ctx,
        Context::ValueEdit("Service".to_string(), "Restart".to_string())
    );
}

#[test]
fn cursor_past_end_of_text_is_unscoped() {
    let ctx = resolve("[Unit]\nDescription=Test\n", 10, 0);
    assert_eq!(ctx, Context::Unscoped);
}

#[test]
fn cursor_before_any_section_is_unscoped() {
    let ctx = resolve("# comment\n\n[Unit]\nDescription=Test\n", 1, 0);
    assert_eq!(ctx, Context::Unscoped);
}

#[test]
fn continuation_line_resolves_to_value_edit() {
    let content = "[Service]\nExecStart=/usr/bin/test \\\n    --flag value\n";
    let ctx = resolve(content, 2, 6);
    assert_eq!(
        ctx,
        Context::ValueEdit("Service".to_string(), "ExecStart".to_string())
    );
}

#[test]
fn plain_line_in_section_resolves_to_directive_name_edit() {
    let content = "[Service]\nType=simple\nRes\n";
    let ctx = resolve(content, 2, 3);
    assert_eq!(ctx, Context::DirectiveNameEdit("Service".to_string()));
}

#[test]
fn fresh_key_line_wins_over_prior_continuation() {
    // The same-line `=` rule outranks the continuation-span rule, so a fresh
    // `key=` line below a multi-line value is not taken for a continuation.
    let content = "[Service]\nExecStart=/usr/bin/test \\\n    --flag\nType=simple\n";
    let ctx = resolve(content, 3, 5);
    assert_eq!(
        ctx,
        Context::ValueEdit("Service".to_string(), "Type".to_string())
    );
}
