use tyhtml::compile::{compile_result, wants_metadata, CompileOutcome};
use tyhtml::diagnostics::{
    diagnostic_from_source, main_file_location, warning_messages, CompileDiagnostic, CompileDiagnosticSeverity,
    DiagnosticSource,
};
use tyhtml::dirs::{typst_cache_dir, typst_data_dir, DirEnv, Platform};
use tyhtml::html::extract_body;
use tyhtml::metadata::{value_to_json, JsonValue, MetaValue};
use tyhtml::options::{CompileOptions, FlattenedOptions, TyHtmlOptions};
use tyhtml::package::{package_dir_candidates, package_dir_for, version_string, PackageSpec};

fn strings(items: &[&str]) -> Vec<String> {
    items.iter().map(|s| s.to_string()).collect()
}

fn flat(body_only: bool, no_metadata: bool) -> FlattenedOptions {
    FlattenedOptions {
        body_only,
        pretty: false,
        no_metadata,
        label_name: "meta".to_string(),
        extra_font_paths: vec![],
    }
}

fn diag(severity: CompileDiagnosticSeverity, message: &str) -> CompileDiagnostic {
    CompileDiagnostic { severity, message: message.to_string(), file: None, line: None, column: None }
}

#[test]
fn absent_options_resolve_to_defaults() {
    let f = CompileOptions::flatten_or_default(None);
    assert!(!f.body_only);
    assert!(!f.pretty);
    assert!(!f.no_metadata);
    assert_eq!(f.label_name, "meta");
    assert!(f.extra_font_paths.is_empty());
}

#[test]
fn empty_options_resolve_like_absent_options() {
    let empty = CompileOptions {
        body_only: None,
        pretty: None,
        no_metadata: None,
        metadata_label: None,
        font_paths: None,
    };
    assert_eq!(
        CompileOptions::flatten_or_default(Some(empty)),
        CompileOptions::flatten_or_default(None)
    );
}

#[test]
fn given_options_are_kept() {
    let opts = CompileOptions {
        body_only: Some(true),
        pretty: Some(true),
        no_metadata: Some(false),
        metadata_label: Some("post_info".to_string()),
        font_paths: Some(strings(&["/tmp/extra", "/opt/fonts"])),
    };
    let f = CompileOptions::flatten_or_default(Some(opts));
    assert!(f.body_only);
    assert!(f.pretty);
    assert!(!f.no_metadata);
    assert_eq!(f.label_name, "post_info");
    assert_eq!(f.extra_font_paths, strings(&["/tmp/extra", "/opt/fonts"]));
}

#[test]
fn constructor_font_dirs() {
    assert!(TyHtmlOptions::font_dirs(None).is_empty());
    assert!(TyHtmlOptions::font_dirs(Some(TyHtmlOptions { font_paths: None })).is_empty());
    let dirs = TyHtmlOptions::font_dirs(Some(TyHtmlOptions { font_paths: Some(strings(&["C:/extra/fonts"])) }));
    assert_eq!(dirs, strings(&["C:/extra/fonts"]));
}

#[test]
fn body_is_cut_out() {
    let page = "<!DOCTYPE html><html><head></head><body class=\"x\"><p>Hi</p></body></html>";
    assert_eq!(extract_body(page), "<p>Hi</p>");
}

#[test]
fn body_with_non_ascii_content() {
    let page = "<html><body>Grüße 黑风雷 👨‍👩‍👧</body></html>";
    assert_eq!(extract_body(page), "Grüße 黑风雷 👨‍👩‍👧");
}

#[test]
fn page_without_body_comes_back_whole() {
    assert_eq!(extract_body("<p>no body</p>"), "<p>no body</p>");
    assert_eq!(extract_body("<body><p>unclosed</p>"), "<body><p>unclosed</p>");
    assert_eq!(extract_body(""), "");
}

#[test]
fn empty_body_is_empty() {
    assert_eq!(extract_body("<body></body>"), "");
    assert_eq!(extract_body("<!DOCTYPE html><html><head></head><body></body></html>"), "");
}

#[test]
fn reversed_body_comes_back_whole() {
    assert_eq!(extract_body("</body><body>x"), "</body><body>x");
    assert_eq!(extract_body("<body</body>"), "<body</body>");
}

#[test]
fn first_body_and_first_close_are_used() {
    assert_eq!(extract_body("<body>a</body><body>b</body>"), "a");
}

fn env() -> DirEnv {
    DirEnv {
        local_app_data: Some("C:\\Users\\me\\AppData\\Local".to_string()),
        home: Some("/home/me".to_string()),
        xdg_data_home: None,
        xdg_cache_home: None,
    }
}

#[test]
fn data_and_cache_dirs_on_unix() {
    assert_eq!(typst_data_dir(Platform::Unix, &env()), strings(&["/home/me", ".local", "share", "typst"]));
    assert_eq!(typst_cache_dir(Platform::Unix, &env()), strings(&["/home/me", ".cache", "typst"]));
    let mut e = env();
    e.xdg_data_home = Some("/xdg/data".to_string());
    e.xdg_cache_home = Some("/xdg/cache".to_string());
    assert_eq!(typst_data_dir(Platform::Unix, &e), strings(&["/xdg/data", "typst"]));
    assert_eq!(typst_cache_dir(Platform::Unix, &e), strings(&["/xdg/cache", "typst"]));
}

#[test]
fn data_and_cache_dirs_on_macos() {
    assert_eq!(
        typst_data_dir(Platform::MacOs, &env()),
        strings(&["/home/me", "Library", "Application Support", "typst"])
    );
    assert_eq!(typst_cache_dir(Platform::MacOs, &env()), strings(&["/home/me", "Library", "Caches", "typst"]));
}

#[test]
fn data_and_cache_dirs_on_windows_coincide() {
    let d = typst_data_dir(Platform::Windows, &env());
    assert_eq!(d, strings(&["C:\\Users\\me\\AppData\\Local", "typst"]));
    assert_eq!(typst_cache_dir(Platform::Windows, &env()), d);
}

#[test]
fn missing_variables_fall_back_to_current_dir() {
    let e = DirEnv { local_app_data: None, home: None, xdg_data_home: None, xdg_cache_home: None };
    assert_eq!(typst_data_dir(Platform::Windows, &e), strings(&[".", "typst"]));
    assert_eq!(typst_cache_dir(Platform::Unix, &e), strings(&[".", ".cache", "typst"]));
}

#[test]
fn version_notation() {
    assert_eq!(version_string(0, 1, 0), "0.1.0");
    assert_eq!(version_string(12, 305, 4294967295), "12.305.4294967295");
}

fn spec() -> PackageSpec {
    PackageSpec { namespace: "preview".to_string(), name: "cetz".to_string(), major: 0, minor: 3, patch: 10 }
}

#[test]
fn package_candidates_data_before_cache() {
    let data = strings(&["/d", "typst"]);
    let cache = strings(&["/c", "typst"]);
    let c = package_dir_candidates(&spec(), &data, &cache);
    assert_eq!(c.len(), 2);
    assert_eq!(c[0], strings(&["/d", "typst", "packages", "preview", "cetz", "0.3.10"]));
    assert_eq!(c[1], strings(&["/c", "typst", "packages", "preview", "cetz", "0.3.10"]));
}

#[test]
fn first_existing_package_dir_wins() {
    let data = strings(&["/d"]);
    let cache = strings(&["/c"]);
    let c = package_dir_candidates(&spec(), &data, &cache);
    assert_eq!(package_dir_for(c.clone(), &vec![true, true]), Some(c[0].clone()));
    assert_eq!(package_dir_for(c.clone(), &vec![false, true]), Some(c[1].clone()));
    assert_eq!(package_dir_for(c, &vec![false, false]), None);
}

#[test]
fn none_has_no_json() {
    assert_eq!(value_to_json(&MetaValue::Absent), None);
}

#[test]
fn scalars_map_to_json_scalars() {
    assert_eq!(value_to_json(&MetaValue::Bool(true)), Some(JsonValue::Bool(true)));
    assert_eq!(value_to_json(&MetaValue::Int(-7)), Some(JsonValue::Int(-7)));
    let bits = 1.5f64.to_bits();
    assert_eq!(value_to_json(&MetaValue::Float(bits)), Some(JsonValue::Float(bits)));
    assert_eq!(value_to_json(&MetaValue::Str("Hello".to_string())), Some(JsonValue::Str("Hello".to_string())));
    assert_eq!(value_to_json(&MetaValue::Other("auto".to_string())), Some(JsonValue::Str("auto".to_string())));
}

#[test]
fn none_members_are_dropped() {
    let value = MetaValue::Dict(vec![
        ("title".to_string(), MetaValue::Str("Hello".to_string())),
        ("draft".to_string(), MetaValue::Absent),
        (
            "tags".to_string(),
            MetaValue::Array(vec![
                MetaValue::Str("a".to_string()),
                MetaValue::Absent,
                MetaValue::Str("b".to_string()),
            ]),
        ),
    ]);
    let expected = JsonValue::Object(vec![
        ("title".to_string(), JsonValue::Str("Hello".to_string())),
        (
            "tags".to_string(),
            JsonValue::Array(vec![JsonValue::Str("a".to_string()), JsonValue::Str("b".to_string())]),
        ),
    ]);
    assert_eq!(value_to_json(&value), Some(expected));
}

fn source(in_main_file: bool, text: Option<&str>, offset: Option<usize>) -> DiagnosticSource {
    DiagnosticSource {
        severity: CompileDiagnosticSeverity::error,
        message: "unknown variable: x".to_string(),
        in_main_file,
        source_text: text.map(|t| t.to_string()),
        offset,
    }
}

#[test]
fn located_diagnostic_carries_position() {
    let d = diagnostic_from_source(source(true, Some("ab\ncd #x"), Some(7)), "/p/main.typ").unwrap();
    assert_eq!(d.severity, CompileDiagnosticSeverity::error);
    assert_eq!(d.message, "unknown variable: x");
    assert_eq!(d.file, Some("/p/main.typ".to_string()));
    assert_eq!(d.line, Some(2));
    assert_eq!(d.column, Some(5));
}

#[test]
fn position_counts_characters_and_crlf() {
    let d = diagnostic_from_source(source(true, Some("ä\r\nxy"), Some(5)), "/p/main.typ").unwrap();
    assert_eq!(d.line, Some(2));
    assert_eq!(d.column, Some(2));
    let d = diagnostic_from_source(source(true, Some("äb"), Some(2)), "/p/main.typ").unwrap();
    assert_eq!(d.line, Some(1));
    assert_eq!(d.column, Some(2));
    let d = diagnostic_from_source(source(true, Some("a\n#foo"), Some(3)), "/p/a.typ").unwrap();
    assert_eq!(d.line, Some(2));
    assert_eq!(d.column, Some(2));
    let d = diagnostic_from_source(source(true, Some("a\n#foo"), Some(0)), "/p/a.typ").unwrap();
    assert_eq!(d.line, Some(1));
    assert_eq!(d.column, Some(1));
}

#[test]
fn unresolvable_offset_falls_back_to_one_one() {
    for off in [99, 1] {
        let text = if off == 1 { "äb" } else { "ab" };
        let d = diagnostic_from_source(source(true, Some(text), Some(off)), "/p/main.typ").unwrap();
        assert_eq!(d.file, Some("/p/main.typ".to_string()));
        assert_eq!(d.line, Some(1));
        assert_eq!(d.column, Some(1));
    }
    let d = diagnostic_from_source(source(true, Some("ab"), Some(99)), "/p/main.typ").unwrap();
    assert_eq!(d.file, Some("/p/main.typ".to_string()));
    assert_eq!(d.line, Some(1));
    assert_eq!(d.column, Some(1));
}

#[test]
fn unlocated_diagnostics_carry_no_location() {
    for src in [
        source(false, Some("ab"), Some(0)),
        source(true, None, Some(0)),
        source(true, Some("ab"), None),
    ] {
        let d = diagnostic_from_source(src, "/p/main.typ").unwrap();
        assert_eq!(d.file, None);
        assert_eq!(d.line, None);
        assert_eq!(d.column, None);
    }
}

#[test]
fn warnings_are_the_warning_messages() {
    let ds = vec![
        diag(CompileDiagnosticSeverity::warning, "html export is under active development and incomplete"),
        diag(CompileDiagnosticSeverity::error, "boom"),
        diag(CompileDiagnosticSeverity::warning, "unused"),
    ];
    let w = warning_messages(&ds);
    assert_eq!(w.len(), 2);
    assert_eq!(w[0].message, "html export is under active development and incomplete");
    assert_eq!(w[1].message, "unused");
}

#[test]
fn halted_compile_has_no_html() {
    let warnings = vec![diag(CompileDiagnosticSeverity::warning, "w")];
    let errors = vec![diag(CompileDiagnosticSeverity::error, "e")];
    let r = compile_result(&flat(true, false), warnings, CompileOutcome::Halted(errors));
    assert_eq!(r.html, "");
    assert_eq!(r.metadata, None);
    assert_eq!(r.warnings.len(), 1);
    assert_eq!(r.warnings[0].message, "w");
    assert_eq!(r.diagnostics.len(), 2);
    assert_eq!(r.diagnostics[0].message, "w");
    assert_eq!(r.diagnostics[1].message, "e");
}

#[test]
fn exported_compile_keeps_page_and_metadata() {
    let page = "<html><body><p>x</p></body></html>".to_string();
    let meta = Some("{\"title\":\"Hello\"}".to_string());
    let warnings = vec![diag(CompileDiagnosticSeverity::warning, "w")];
    let r = compile_result(
        &flat(false, false),
        warnings,
        CompileOutcome::Exported { html: page.clone(), metadata: meta.clone() },
    );
    assert_eq!(r.html, page);
    assert_eq!(r.metadata, meta);
    assert_eq!(r.warnings.len(), 1);
    assert_eq!(r.warnings[0].message, "w");
}

#[test]
fn body_only_and_no_metadata_apply() {
    let page = "<html><body><p>x</p></body></html>".to_string();
    let r = compile_result(
        &flat(true, true),
        vec![],
        CompileOutcome::Exported { html: page, metadata: Some("{}".to_string()) },
    );
    assert_eq!(r.html, "<p>x</p>");
    assert_eq!(r.metadata, None);
    assert!(!wants_metadata(&flat(true, true)));
    assert!(wants_metadata(&flat(true, false)));
}

#[test]
fn main_file_location_defaults_and_truncates() {
    assert_eq!(
        main_file_location(None, "/p/main.typ"),
        (Some("/p/main.typ".to_string()), Some(1), Some(1))
    );
    assert_eq!(
        main_file_location(Some((0, 7)), "/p/main.typ"),
        (Some("/p/main.typ".to_string()), Some(1), Some(8))
    );
    let big: usize = (u32::MAX as usize).wrapping_add(6);
    let (_, line, column) = main_file_location(Some((big, 3)), "m");
    assert_eq!(line, Some(big.wrapping_add(1) as u32));
    assert_eq!(column, Some(4));
    let (_, line, _) = main_file_location(Some((u32::MAX as usize, 0)), "m");
    assert_eq!(line, Some(0));
}
