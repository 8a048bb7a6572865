//! Analysis engine for INI-like configuration files in the systemd unit-file
//! grammar: bracketed sections containing `key=value` directives, with
//! backslash line continuation.
//!
//! The crate parses raw text into a span-annotated document model, classifies
//! what a cursor position is editing, validates the document against a
//! vocabulary of known sections, directives and values, and delta-encodes a
//! token stream for syntax highlighting.

pub mod completion;
pub mod constants;
pub mod context;
pub mod definition;
pub mod diagnostics;
pub mod formatting;
pub mod parser;
pub mod semantic_tokens;
pub mod store;
pub mod vocabulary;
pub mod text;

pub use completion::CompletionEntry;
pub use completion::CompletionKind;
pub use completion::SystemdCompletion;
pub use constants::SystemdConstants;
pub use context::Context;
pub use definition::SystemdDefinitionProvider;
pub use definition::hover_content;
pub use diagnostics::Diagnostic;
pub use diagnostics::DiagnosticSeverity;
pub use diagnostics::SystemdDiagnostics;
pub use diagnostics::TextRange;
pub use diagnostics::validate;
pub use context::resolve_context;
pub use formatting::SystemdFormatter;
pub use formatting::TextEdit;
pub use parser::DirectiveValueSpan;
pub use parser::Position;
pub use parser::SystemdParser;
pub use parser::SystemdDirective;
pub use parser::SystemdSection;
pub use parser::SystemdUnit;
pub use semantic_tokens::SemanticToken;
pub use semantic_tokens::SystemdSemanticTokens;
pub use semantic_tokens::TokenData;
pub use vocabulary::Vocabulary;
