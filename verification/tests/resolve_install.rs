use offleaf::resolve::{
    aggregate_install_results, all_essential_installed_result, all_installed_result,
    build_detection_result, essential_packages, missing_names, resolve_package, resolve_packages,
};

#[test]
fn either_lookup_success_counts_as_installed() {
    assert!(resolve_package("a".to_string(), None, true, false).installed);
    assert!(resolve_package("a".to_string(), None, false, true).installed);
    assert!(resolve_package("a".to_string(), None, true, true).installed);
    assert!(!resolve_package("a".to_string(), None, false, false).installed);
}

#[test]
fn resolve_packages_is_pointwise_and_ordered() {
    let parsed = vec![
        ("inputenc".to_string(), Some("utf8".to_string())),
        ("geometry".to_string(), None),
    ];
    let lookups = vec![(false, false), (true, false)];
    let statuses = resolve_packages(&parsed, &lookups);
    assert_eq!(statuses.len(), 2);
    assert_eq!(statuses[0].name, "inputenc");
    assert_eq!(statuses[0].options.as_deref(), Some("utf8"));
    assert!(!statuses[0].installed);
    assert_eq!(statuses[1].name, "geometry");
    assert!(statuses[1].installed);
}

#[test]
fn resolution_is_idempotent_for_an_unchanged_registry() {
    let parsed = vec![
        ("a".to_string(), None),
        ("b".to_string(), None),
        ("c".to_string(), None),
    ];
    let lookups = vec![(true, false), (false, false), (false, true)];
    let first = resolve_packages(&parsed, &lookups);
    let second = resolve_packages(&parsed, &lookups);
    assert_eq!(first.len(), second.len());
    for (x, y) in first.iter().zip(second.iter()) {
        assert_eq!(x.name, y.name);
        assert_eq!(x.installed, y.installed);
        assert_eq!(x.options, y.options);
    }
}

#[test]
fn detection_result_partitions_by_verdict_in_order() {
    let parsed = vec![
        ("a".to_string(), None),
        ("b".to_string(), None),
        ("c".to_string(), None),
    ];
    let lookups = vec![(true, false), (false, false), (true, true)];
    let statuses = resolve_packages(&parsed, &lookups);
    let result = build_detection_result(statuses);
    assert_eq!(result.packages.len(), 3);
    assert_eq!(result.installed, vec!["a".to_string(), "c".to_string()]);
    assert_eq!(result.missing, vec!["b".to_string()]);
}

#[test]
fn missing_names_keeps_declaration_order() {
    let parsed = vec![
        ("x".to_string(), None),
        ("y".to_string(), None),
        ("z".to_string(), None),
    ];
    let lookups = vec![(false, false), (true, false), (false, false)];
    let statuses = resolve_packages(&parsed, &lookups);
    assert_eq!(missing_names(&statuses), vec!["x".to_string(), "z".to_string()]);
}

#[test]
fn wholly_successful_batch_reports_its_count() {
    let results = vec![("a".to_string(), true), ("b".to_string(), true)];
    let outcome = aggregate_install_results(&results);
    assert!(outcome.success);
    assert_eq!(outcome.installed, vec!["a".to_string(), "b".to_string()]);
    assert!(outcome.failed.is_empty());
    assert_eq!(outcome.message, "Successfully installed 2 packages");
}

#[test]
fn empty_batch_is_a_success() {
    let results: Vec<(String, bool)> = vec![];
    let outcome = aggregate_install_results(&results);
    assert!(outcome.success);
    assert!(outcome.installed.is_empty());
    assert!(outcome.failed.is_empty());
    assert_eq!(outcome.message, "Successfully installed 0 packages");
}

#[test]
fn failed_batch_names_every_failed_package() {
    let results = vec![
        ("a".to_string(), true),
        ("b".to_string(), false),
        ("c".to_string(), false),
    ];
    let outcome = aggregate_install_results(&results);
    assert!(!outcome.success);
    assert_eq!(outcome.installed, vec!["a".to_string()]);
    assert_eq!(outcome.failed, vec!["b".to_string(), "c".to_string()]);
    assert_eq!(outcome.message, "Installed 1 packages, 2 failed: b, c");
}

#[test]
fn nothing_missing_is_a_success_with_empty_lists() {
    let outcome = all_installed_result();
    assert!(outcome.success);
    assert!(outcome.installed.is_empty());
    assert!(outcome.failed.is_empty());
    assert_eq!(outcome.message, "All packages are already installed");
}

#[test]
fn essential_audit_with_nothing_missing_says_so() {
    let outcome = all_essential_installed_result();
    assert!(outcome.success);
    assert!(outcome.installed.is_empty());
    assert!(outcome.failed.is_empty());
    assert_eq!(outcome.message, "All essential packages are already installed");
}

#[test]
fn extraction_resolution_and_installation_chain_together() {
    let source = "\\documentclass{article}\n\\usepackage[utf8]{inputenc}\n\\usepackage{tikz}\n";
    let parsed = offleaf::deps::parse_usepackages(source);
    assert_eq!(parsed.len(), 2);
    // registry: inputenc present, tikz absent
    let lookups = vec![(true, false), (false, false)];
    let statuses = resolve_packages(&parsed, &lookups);
    let missing = missing_names(&statuses);
    assert_eq!(missing, vec!["tikz".to_string()]);
    // the single attempted install fails
    let attempts = vec![("tikz".to_string(), false)];
    let outcome = aggregate_install_results(&attempts);
    assert!(!outcome.success);
    assert_eq!(outcome.message, "Installed 0 packages, 1 failed: tikz");
}

#[test]
fn essential_set_is_the_fixed_catalogue() {
    let essentials = essential_packages();
    assert_eq!(essentials.len(), 24);
    assert_eq!(essentials[0], "kotex-utf");
    assert_eq!(essentials[1], "cjk");
    assert_eq!(essentials[23], "float");
    assert!(essentials.contains(&"geometry".to_string()));
    assert!(essentials.contains(&"hyperref".to_string()));
}
