use vstd::prelude::*;
use vstd::string::StringSliceAdditionalSpecFns;
use vstd::utf8::is_char_boundary;

verus! {

broadcast use vstd::string::group_string_axioms;

/// Severity of a diagnostic. The variants are lowercase because their names
/// are what JavaScript sees.
#[allow(non_camel_case_types)]
#[derive(Clone, Copy, PartialEq, Eq, Structural, Debug)]
pub enum CompileDiagnosticSeverity {
    warning,
    error,
}

/// A single warning emitted during compilation.
#[derive(Clone, Debug, PartialEq)]
pub struct CompileWarning {
    pub message: String,
}

/// A warning or error of the compile pipeline, located where Typst can
/// locate it. The location fields are all present or all absent.
#[derive(Clone, Debug, PartialEq)]
pub struct CompileDiagnostic {
    pub severity: CompileDiagnosticSeverity,
    pub message: String,
    /// Path of the main input file, when the diagnostic lies in it.
    pub file: Option<String>,
    pub line: Option<u32>,
    pub column: Option<u32>,
}

/// What a diagnostic of the compiler tells about itself once its span has
/// been resolved against the files of the compile.
#[derive(Clone, Debug, PartialEq)]
pub struct DiagnosticSource {
    pub severity: CompileDiagnosticSeverity,
    pub message: String,
    /// The diagnostic's span lies in the main input file.
    pub in_main_file: bool,
    /// The text of the file the span lies in, when it could be loaded.
    pub source_text: Option<String>,
    /// The byte offset at which the span starts, when it resolves.
    pub offset: Option<usize>,
}

/// The line and column that Typst's line table of `text` gives for a byte
/// offset, both counted from zero.
pub uninterp spec fn typst_line_column(text: Seq<char>, offset: usize) -> Option<(usize, usize)>;

/// Calls `typst::syntax::Lines::byte_to_line_column` on the line table of
/// `text`. Trusted to return what `typst_line_column` names for these
/// arguments; nothing for an offset past the end of the text (the method's
/// first step, `byte_to_line`, checks exactly that); and a position for an
/// offset within the text on a character boundary (the line found starts at
/// a boundary no later than the offset, so the slice between them exists).
#[verifier::external_body]
fn line_column(text: &str, offset: usize) -> (lc: Option<(usize, usize)>)
    ensures
        lc == typst_line_column(text@, offset),
        offset > text.spec_bytes().len() ==> lc is None,
        offset <= text.spec_bytes().len() && is_char_boundary(text.spec_bytes(), offset as int)
            ==> lc is Some,
{
    typst::syntax::Lines::new(text).byte_to_line_column(offset)
}

/// A diagnostic is located when it lies in the main file and both the text
/// of that file and the offset of its span are known.
pub open spec fn is_located(src: DiagnosticSource) -> bool {
    src.in_main_file && src.source_text is Some && src.offset is Some
}

/// The line and column reported, both counted from one, for a position that
/// Typst's line table gives counting from zero: that position moved by one,
/// or `(1, 1)` when the table has none.
pub open spec fn position_or_default(lc: Option<(usize, usize)>) -> (int, int) {
    match lc {
        Some(p) => (p.0 + 1, p.1 + 1),
        None => (1, 1),
    }
}

/// The line and column reported for a located diagnostic, counted from one.
pub open spec fn reported_position(src: DiagnosticSource) -> (int, int) {
    position_or_default(typst_line_column(src.source_text.unwrap()@, src.offset.unwrap()))
}

/// A position counted from zero, moved to count from one and cut to 32 bits.
fn one_based(p: usize) -> (r: u32)
    ensures
        r == (p + 1) as u32,
{
    let low = p as u32;
    let r = low.wrapping_add(1);
    assert(r == (p + 1) as u32) by (bit_vector)
        requires
            low == p as u32,
            r == (if low == u32::MAX { 0u32 } else { (low + 1) as u32 }),
    ;
    r
}

/// The location fields of a diagnostic in the main file, given the position
/// that Typst's line table gives for its offset: the main file's path, and
/// the line and column counted from one (`(1, 1)` without a position), each
/// cut to 32 bits.
pub fn main_file_location(line_column: Option<(usize, usize)>, main_path: &str) -> (loc: (
    Option<String>,
    Option<u32>,
    Option<u32>,
))
    ensures
        loc.0 matches Some(f) && f@ == main_path@,
        loc.1 == Some(position_or_default(line_column).0 as u32),
        loc.2 == Some(position_or_default(line_column).1 as u32),
        match line_column {
            Some((l, c)) => loc.1 == Some((l + 1) as u32) && loc.2 == Some((c + 1) as u32),
            None => loc.1 == Some(1u32) && loc.2 == Some(1u32),
        },
{
    let (line, column) = match line_column {
        Some((l, c)) => (one_based(l), one_based(c)),
        None => (1u32, 1u32),
    };
    (Some(main_path.to_string()), Some(line), Some(column))
}

/// Builds the diagnostic handed to JavaScript. A located diagnostic carries
/// the main file's path and its position; any other carries no location.
pub fn diagnostic_from_source(src: DiagnosticSource, main_path: &str) -> (diag: Option<CompileDiagnostic>)
    ensures
        diag matches Some(d) && {
            &&& d.severity == src.severity
            &&& d.message@ == src.message@
            &&& (d.file is Some <==> d.line is Some)
            &&& (d.line is Some <==> d.column is Some)
            &&& if is_located(src) {
                &&& d.file matches Some(f) && f@ == main_path@
                &&& d.line == Some(reported_position(src).0 as u32)
                &&& d.column == Some(reported_position(src).1 as u32)
            } else {
                &&& d.file is None
                &&& d.line is None
                &&& d.column is None
            }
        },
{
    let DiagnosticSource { severity, message, in_main_file, source_text, offset } = src;
    let (file, line, column) = if in_main_file {
        match (source_text, offset) {
            (Some(text), Some(off)) => main_file_location(line_column(text.as_str(), off), main_path),
            _ => (None, None, None),
        }
    } else {
        (None, None, None)
    };
    Some(CompileDiagnostic { severity, message, file, line, column })
}

/// The messages of the warnings among `diagnostics`, in order.
pub open spec fn warnings_of(diagnostics: Seq<CompileDiagnostic>) -> Seq<Seq<char>>
    decreases diagnostics.len(),
{
    if diagnostics.len() == 0 {
        Seq::empty()
    } else if diagnostics.last().severity == CompileDiagnosticSeverity::warning {
        warnings_of(diagnostics.drop_last()).push(diagnostics.last().message@)
    } else {
        warnings_of(diagnostics.drop_last())
    }
}

/// The warning messages of a list of diagnostics are the messages of exactly
/// those diagnostics whose severity is `warning`, in order, whatever their
/// location.
pub proof fn lemma_warnings_are_warning_diagnostics(diagnostics: Seq<CompileDiagnostic>)
    ensures
        warnings_of(diagnostics) == diagnostics.filter(
            |d: CompileDiagnostic| d.severity == CompileDiagnosticSeverity::warning,
        ).map_values(|d: CompileDiagnostic| d.message@),
    decreases diagnostics.len(),
{
    reveal(Seq::filter);
    let is_warning = |d: CompileDiagnostic| d.severity == CompileDiagnosticSeverity::warning;
    let message = |d: CompileDiagnostic| d.message@;
    if diagnostics.len() == 0 {
        assert(diagnostics.filter(is_warning).map_values(message) =~= Seq::<Seq<char>>::empty());
    } else {
        let rest = diagnostics.drop_last();
        lemma_warnings_are_warning_diagnostics(rest);
        let f = rest.filter(is_warning);
        if is_warning(diagnostics.last()) {
            assert(diagnostics.filter(is_warning) == f.push(diagnostics.last()));
            assert(f.push(diagnostics.last()).map_values(message) =~= f.map_values(message).push(
                diagnostics.last().message@,
            ));
        } else {
            assert(diagnostics.filter(is_warning) == f);
        }
    }
}

/// The messages of a list of warnings.
pub open spec fn warning_views(warnings: Seq<CompileWarning>) -> Seq<Seq<char>> {
    warnings.map_values(|w: CompileWarning| w.message@)
}

/// The warnings among `diagnostics`, message only, in order.
pub fn warning_messages(diagnostics: &Vec<CompileDiagnostic>) -> (warnings: Vec<CompileWarning>)
    ensures
        warning_views(warnings@) == warnings_of(diagnostics@),
        warning_views(warnings@) == diagnostics@.filter(
            |d: CompileDiagnostic| d.severity == CompileDiagnosticSeverity::warning,
        ).map_values(|d: CompileDiagnostic| d.message@),
{
    proof {
        lemma_warnings_are_warning_diagnostics(diagnostics@);
    }
    let mut warnings: Vec<CompileWarning> = Vec::new();
    let mut i: usize = 0;
    assert(diagnostics@.take(0) =~= Seq::<CompileDiagnostic>::empty());
    assert(warning_views(warnings@) =~= Seq::<Seq<char>>::empty());
    while i < diagnostics.len()
        invariant
            i <= diagnostics@.len(),
            warning_views(warnings@) == warnings_of(diagnostics@.take(i as int)),
        decreases diagnostics@.len() - i,
    {
        let d = &diagnostics[i];
        let ghost before = warnings@;
        if d.severity == CompileDiagnosticSeverity::warning {
            warnings.push(CompileWarning { message: d.message.clone() });
            assert(warning_views(warnings@) =~= warning_views(before).push(d.message@));
        }
        proof {
            let t = diagnostics@.take(i + 1);
            assert(t.drop_last() =~= diagnostics@.take(i as int));
            assert(t.last() == diagnostics@[i as int]);
        }
        i = i + 1;
    }
    assert(diagnostics@.take(diagnostics@.len() as int) =~= diagnostics@);
    warnings
}

} // verus!
