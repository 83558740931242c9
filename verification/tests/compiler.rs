use fluxtex::compiler::first_existing;
use fluxtex::compiler::{
    collect_output_text, configured_path, decimal_string, find_tectonic_binary,
    find_tectonic_bundle, format_failed_run, format_launch_error, missing_pdf_message,
    tectonic_args, vendor_candidates, CompileRequest, CompileResult, TempBuildDir,
    TECTONIC_BIN_ENV, TECTONIC_BUNDLE_ENV,
};

#[test]
fn configured_paths_win() {
    assert_eq!(find_tectonic_binary(Some("/opt/tectonic".to_string()), Some("/nowhere")), Some("/opt/tectonic".to_string()));
    assert_eq!(find_tectonic_bundle(Some("b.bundle".to_string()), None), Some("b.bundle".to_string()));
    assert_eq!(configured_path(Some(String::new())), None);
    assert_eq!(configured_path(None), None);
}

#[test]
fn no_repository_root_finds_nothing() {
    assert_eq!(find_tectonic_binary(None, None), None);
    assert_eq!(find_tectonic_bundle(Some(String::new()), None), None);
    assert_eq!(vendor_candidates(None, &vec!["a"]), None);
}

#[test]
fn launch_and_run_errors() {
    assert_eq!(
        format_launch_error(true, "ignored"),
        format!("Tectonic CLI was not found.\n\nPlace a binary at `vendor/tectonic/bin/tectonic`, or set `{TECTONIC_BIN_ENV}` to a Tectonic executable path.")
    );
    assert_eq!(format_launch_error(false, "permission denied"), "Failed to launch Tectonic CLI: permission denied");
    assert_eq!(format_failed_run(Some(1), "diag"), "Tectonic compilation failed (exit code 1).\n\ndiag");
    assert_eq!(format_failed_run(Some(-3), ""), "Tectonic compilation failed (exit code -3).\n\n");
    assert_eq!(format_failed_run(None, "d"), "Tectonic compilation failed (terminated by signal).\n\nd");
    assert_eq!(missing_pdf_message("out/main.pdf", "gone", "diag"), "Tectonic finished but `out/main.pdf` was missing: gone\n\ndiag");
    assert_eq!(decimal_string(-40), "-40");
    assert_eq!(decimal_string(0), "0");
}

#[test]
fn output_text_sections() {
    assert_eq!(
        collect_output_text("  out \n", "", Some("log\n".to_string()), true),
        "stdout:\nout\n\nmain.log:\nlog"
    );
    assert_eq!(collect_output_text("", " err ", None, true), "stderr:\nerr");
    assert_eq!(collect_output_text(" ", "\n", Some("  ".to_string()), true), "Tectonic did not produce any diagnostic output.");
    assert_eq!(
        collect_output_text("", "", None, false),
        format!("Tectonic did not produce any diagnostic output.\n\nTip: add a bundle at `vendor/tectonic/bundles/default.bundle` or set `{TECTONIC_BUNDLE_ENV}`.")
    );
}

#[test]
fn command_line_arguments() {
    assert_eq!(
        tectonic_args("/tmp/out", "/tmp/out/main.tex", Some("b.zip")),
        vec!["-X", "compile", "--keep-logs", "--keep-intermediates", "--outdir", "/tmp/out", "/tmp/out/main.tex", "--bundle", "b.zip"]
    );
    assert_eq!(tectonic_args("o", "i", None).len(), 7);
}

#[test]
fn temp_build_dir_path() {
    let d = TempBuildDir::at("/tmp", "1234");
    assert_eq!(d.path(), std::path::Path::new("/tmp").join("fluxtex-tectonic-1234").to_string_lossy());
    assert_eq!(TECTONIC_BIN_ENV, "FLUXTEX_TECTONIC_BIN");
    assert_eq!(TECTONIC_BUNDLE_ENV, "FLUXTEX_TECTONIC_BUNDLE");
}

#[test]
fn compile_messages_carry_payloads() {
    let CompileRequest::Compile(source) = CompileRequest::Compile("x".to_string());
    assert_eq!(source, "x");
    assert!(matches!(CompileResult::Pdf(vec![1]), CompileResult::Pdf(p) if p == vec![1]));
    assert!(matches!(CompileResult::Error("e".to_string()), CompileResult::Error(e) if e == "e"));
}

#[test]
fn first_existing_takes_list_order() {
    let c = vec!["a".to_string(), "b".to_string(), "c".to_string()];
    assert_eq!(first_existing(&c, &vec![false, true, true]), Some("b".to_string()));
    assert_eq!(first_existing(&c, &vec![true, true, true]), Some("a".to_string()));
    assert_eq!(first_existing(&c, &vec![false, false, false]), None);
    assert_eq!(first_existing(&c, &vec![false]), None);
}
