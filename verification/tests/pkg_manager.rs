use offleaf::pkg_manager::{
    get_recommended_packages, install_outcome, parse_installed_list, parse_package_info,
    parse_search_output, remove_outcome, update_outcome,
};

#[test]
fn search_output_yields_names_and_descriptions() {
    let out = parse_search_output("pkg1 - A package\nfoo:\n\nsomething unrelated\n");
    assert_eq!(out.total, 2);
    assert_eq!(out.packages.len(), 2);
    assert_eq!(out.packages[0].name, "pkg1");
    assert_eq!(out.packages[0].description, "A package");
    assert!(!out.packages[0].installed);
    assert_eq!(out.packages[1].name, "foo");
    assert_eq!(out.packages[1].description, "");
}

#[test]
fn search_entries_are_trimmed() {
    let out = parse_search_output("   spaced - a desc   \n");
    assert_eq!(out.packages.len(), 1);
    assert_eq!(out.packages[0].name, "spaced");
    assert_eq!(out.packages[0].description, "a desc");
}

#[test]
fn installed_list_reads_i_lines_only() {
    let listing = "tlmgr: repository info\ni amsmath: AMS math facilities\nu other: updated\n\n";
    let packages = parse_installed_list(listing);
    assert_eq!(packages.len(), 1);
    assert_eq!(packages[0].name, "amsmath");
    assert_eq!(packages[0].description, "AMS math facilities");
    assert!(packages[0].installed);
    assert!(packages[0].version.is_none());
}

#[test]
fn package_info_reads_each_keyed_line() {
    let readout =
        "package: foo\nshortdesc: A fine package\ninstalled: Yes\nrevision: 123\nsizes: 4k\n";
    let info = parse_package_info("queried", readout);
    assert_eq!(info.name, "foo");
    assert_eq!(info.description, "A fine package");
    assert!(info.installed);
    assert_eq!(info.version.as_deref(), Some("123"));
    assert_eq!(info.size.as_deref(), Some("4k"));
}

#[test]
fn package_info_defaults_to_the_queried_name() {
    let info = parse_package_info("queried", "nothing useful here\n");
    assert_eq!(info.name, "queried");
    assert_eq!(info.description, "");
    assert!(!info.installed);
    assert!(info.version.is_none());
    assert!(info.size.is_none());
}

#[test]
fn package_info_not_installed_without_yes() {
    let info = parse_package_info("q", "installed: No\n");
    assert!(!info.installed);
}

#[test]
fn install_success_collects_reported_packages() {
    let outcome = install_outcome(
        "collection-basic",
        true,
        "Installing collection-basic\ninstall: pkgx.\n",
        "",
    );
    assert!(outcome.success);
    assert_eq!(outcome.message, "Successfully installed collection-basic");
    assert_eq!(
        outcome.installed_packages,
        vec!["collection-basic".to_string(), "pkgx".to_string()]
    );
}

#[test]
fn silent_install_success_reports_the_request_itself() {
    let outcome = install_outcome("amsmath", true, "", "");
    assert!(outcome.success);
    assert_eq!(outcome.installed_packages, vec!["amsmath".to_string()]);
}

#[test]
fn install_failure_carries_the_error_text() {
    let outcome = install_outcome("nope", false, "", "not found");
    assert!(!outcome.success);
    assert_eq!(outcome.message, "Failed to install nope: not found");
    assert!(outcome.installed_packages.is_empty());
}

#[test]
fn remove_messages() {
    let ok = remove_outcome("old", true, "removed old\n", "");
    assert!(ok.success);
    assert_eq!(ok.message, "Successfully removed old\nremoved old\n");
    assert!(ok.installed_packages.is_empty());
    let bad = remove_outcome("old", false, "", "locked");
    assert!(!bad.success);
    assert_eq!(bad.message, "Failed to remove old: locked");
}

#[test]
fn update_messages() {
    let ok = update_outcome(true, "all current\n", "");
    assert!(ok.success);
    assert_eq!(ok.message, "Update completed:\nall current\n");
    let bad = update_outcome(false, "", "network down");
    assert!(!bad.success);
    assert_eq!(bad.message, "Update failed: network down");
}

#[test]
fn recommended_catalogue_is_fixed() {
    let recs = get_recommended_packages();
    assert_eq!(recs.len(), 10);
    assert_eq!(recs[0].name, "kotex");
    assert_eq!(recs[0].description, "Korean language support (ko.TeX)");
    assert_eq!(recs[9].name, "booktabs");
    assert!(recs.iter().all(|p| !p.installed && p.version.is_none() && p.size.is_none()));
}
