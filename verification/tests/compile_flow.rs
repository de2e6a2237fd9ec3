use bahn::compile::{compile_unit, compile_units, erl_file_name, CompileReport, CompileUnit};
use bahn::exports::{dependency_module_exports, exported_names, ModuleExports};

#[test]
fn dependency_module_exports_scans_exported_names() {
    let dependency_mods = vec![(
        "io".to_string(),
        "mond_io".to_string(),
        "(pub let println {x} x)".to_string(),
    )];
    let exports = dependency_module_exports(&dependency_mods);
    assert_eq!(exports.get("io"), Some(&vec!["println".to_string()]));
}

#[test]
fn exported_names_skips_private_and_nested_definitions() {
    let source = "(use std)\n(let helper {x} x)\n(pub let main {} (helper 1))\n(let outer {} (pub let inner {} 2))\n[pub let in_list {} 3]\n(pub let debug {x} x)";
    assert_eq!(
        exported_names(source),
        vec!["main".to_string(), "debug".to_string()]
    );
}

#[test]
fn exported_names_ignores_brackets_inside_strings() {
    let source = "(pub let greet {} \"(pub let fake {} 1) \\\" )\")\n(pub let real {} 2)";
    assert_eq!(
        exported_names(source),
        vec!["greet".to_string(), "real".to_string()]
    );
}

#[test]
fn exported_names_of_empty_source_is_empty() {
    assert_eq!(exported_names(""), Vec::<String>::new());
    assert_eq!(exported_names("   \n\t"), Vec::<String>::new());
    assert_eq!(exported_names("(pub let)"), Vec::<String>::new());
}

#[test]
fn exported_names_allow_extra_white_space() {
    assert_eq!(
        exported_names("(  pub\n let\tspaced {} 1)"),
        vec!["spaced".to_string()]
    );
}

#[test]
fn later_dependency_with_same_name_replaces_earlier() {
    let dependency_mods = vec![
        ("io".to_string(), "a".to_string(), "(pub let first {} 1)".to_string()),
        ("list".to_string(), "b".to_string(), "(pub let map {f l} l)".to_string()),
        ("io".to_string(), "c".to_string(), "(pub let second {} 1)".to_string()),
    ];
    let exports = dependency_module_exports(&dependency_mods);
    assert_eq!(exports.get("io"), Some(&vec!["second".to_string()]));
    assert_eq!(exports.get("list"), Some(&vec!["map".to_string()]));
    assert_eq!(exports.get("missing"), None);
}

#[test]
fn module_exports_insert_then_get() {
    let mut exports = ModuleExports::new();
    assert_eq!(exports.get("io"), None);
    exports.insert("io".to_string(), vec!["println".to_string()]);
    exports.insert("io".to_string(), vec!["print".to_string()]);
    assert_eq!(exports.get("io"), Some(&vec!["print".to_string()]));
}

#[test]
fn compile_unit_returns_erl_for_valid_module() {
    let unit = CompileUnit {
        output_module_name: "main",
        source: "(let main {} 1)",
        source_label: "main.mond".to_string(),
    };
    // what the mond compiler reports for this module: Erlang source, no error
    let report = CompileReport {
        has_errors: false,
        output: Some("-module(main).\n-export([main/0]).\nmain() -> 1.\n".to_string()),
    };
    let output = compile_unit(&unit, &report);
    assert!(!output.had_errors);
    assert!(output.erl_source.is_some());
    assert_eq!(output.output_module_name, "main");
}

#[test]
fn compile_unit_reports_errors_for_invalid_module() {
    let unit = CompileUnit {
        output_module_name: "main",
        source: "(let main {} unknown)",
        source_label: "main.mond".to_string(),
    };
    // what the mond compiler reports for this module: an unknown name, no output
    let report = CompileReport {
        has_errors: true,
        output: None,
    };
    let output = compile_unit(&unit, &report);
    assert!(output.had_errors);
    assert!(output.erl_source.is_none());
}

#[test]
fn compile_unit_drops_output_when_errors_reported() {
    let unit = CompileUnit {
        output_module_name: "main",
        source: "(let main {} unknown)",
        source_label: "main.mond".to_string(),
    };
    let with_errors = CompileReport {
        has_errors: true,
        output: Some("partial".to_string()),
    };
    let output = compile_unit(&unit, &with_errors);
    assert!(output.had_errors);
    assert!(output.erl_source.is_none());

    let no_output = CompileReport {
        has_errors: false,
        output: None,
    };
    let output = compile_unit(&unit, &no_output);
    assert!(output.had_errors);
    assert!(output.erl_source.is_none());
}

#[test]
fn compile_units_reports_any_failure() {
    let units = vec![
        CompileUnit { output_module_name: "a", source: "", source_label: "a.mond".to_string() },
        CompileUnit { output_module_name: "b", source: "", source_label: "b.mond".to_string() },
    ];
    let good = vec![
        CompileReport { has_errors: false, output: Some("a".to_string()) },
        CompileReport { has_errors: false, output: Some("b".to_string()) },
    ];
    let (outputs, had_error) = compile_units(&units, &good);
    assert!(!had_error);
    assert_eq!(outputs.len(), 2);
    assert_eq!(outputs[1].output_module_name, "b");

    let one_bad = vec![
        CompileReport { has_errors: false, output: Some("a".to_string()) },
        CompileReport { has_errors: true, output: None },
    ];
    let (outputs, had_error) = compile_units(&units, &one_bad);
    assert!(had_error);
    assert!(!outputs[0].had_errors);
    assert!(outputs[1].had_errors);

    let (outputs, had_error) = compile_units(&[], &[]);
    assert!(!had_error);
    assert!(outputs.is_empty());
}

#[test]
fn erl_file_name_appends_extension() {
    assert_eq!(erl_file_name("main"), "main.erl");
    assert_eq!(erl_file_name("mond_io"), "mond_io.erl");
}
