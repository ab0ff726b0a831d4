use vstd::prelude::*;
use vstd::utf8::encode_utf8;

use crate::diagnostics::{CompileDiagnostic, CompileWarning, warning_messages, warning_views, warnings_of};
use crate::html::{extract_body, page_body};
use crate::options::FlattenedOptions;

verus! {

broadcast use vstd::string::group_string_axioms;

/// Result of a compilation attempt.
///
/// `html` is empty when the compile halted; `metadata` is a JSON text, or
/// none; `diagnostics` lists every warning and error; `warnings` lists the
/// messages of the warnings among `diagnostics`, in order.
#[derive(Clone, Debug, PartialEq)]
pub struct CompileResult {
    pub html: String,
    pub metadata: Option<String>,
    pub diagnostics: Vec<CompileDiagnostic>,
    pub warnings: Vec<CompileWarning>,
}

/// How the Typst side of a compile ended.
#[derive(Clone, Debug, PartialEq)]
pub enum CompileOutcome {
    /// Typst halted with these errors.
    Halted(Vec<CompileDiagnostic>),
    /// Typst produced a document, exported to this HTML; `metadata` is the
    /// JSON text of the document's metadata, if it was extracted and found.
    Exported { html: String, metadata: Option<String> },
}

/// Whether a compile extracts metadata from its document.
pub fn wants_metadata(opts: &FlattenedOptions) -> (wanted: bool)
    ensures
        wanted == !opts.no_metadata,
{
    !opts.no_metadata
}

/// Assembles the result of a compile from the diagnostics of Typst's
/// warnings and the way the compile ended.
///
/// A halted compile yields no HTML and no metadata, and lists the errors
/// after the warnings' diagnostics. A compile that ran through yields the
/// HTML (only its body when `body_only` is set) and the metadata unless
/// `no_metadata` is set. Either way, `warnings` holds the messages of the
/// warnings among the result's diagnostics.
pub fn compile_result(opts: &FlattenedOptions, diagnostics: Vec<CompileDiagnostic>, outcome: CompileOutcome) -> (result: CompileResult)
    ensures
        match outcome {
            CompileOutcome::Halted(errors) => {
                &&& result.html@.len() == 0
                &&& result.metadata is None
                &&& result.diagnostics@ == diagnostics@ + errors@
                &&& warning_views(result.warnings@) == warnings_of(result.diagnostics@)
            },
            CompileOutcome::Exported { html, metadata } => {
                &&& if opts.body_only {
                    encode_utf8(result.html@) == page_body(encode_utf8(html@))
                } else {
                    result.html@ == html@
                }
                &&& result.metadata == (if opts.no_metadata {
                    None
                } else {
                    metadata
                })
                &&& result.diagnostics@ == diagnostics@
                &&& warning_views(result.warnings@) == warnings_of(result.diagnostics@)
            },
        },
{
    match outcome {
        CompileOutcome::Halted(errors) => {
            let mut all = diagnostics;
            let mut errors = errors;
            all.append(&mut errors);
            let warnings = warning_messages(&all);
            CompileResult { html: String::new(), metadata: None, diagnostics: all, warnings }
        },
        CompileOutcome::Exported { html, metadata } => {
            let warnings = warning_messages(&diagnostics);
            let html_final = if opts.body_only {
                extract_body(html.as_str()).to_string()
            } else {
                html
            };
            let metadata = if opts.no_metadata {
                None
            } else {
                metadata
            };
            CompileResult { html: html_final, metadata, diagnostics, warnings }
        },
    }
}

} // verus!
