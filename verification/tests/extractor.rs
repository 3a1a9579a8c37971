use offleaf::deps::parse_usepackages;

#[test]
fn options_are_shared_by_every_name_in_one_directive() {
    let deps = parse_usepackages("\\usepackage[utf8]{inputenc,geometry}");
    assert_eq!(deps.len(), 2);
    assert_eq!(deps[0].0, "inputenc");
    assert_eq!(deps[0].1.as_deref(), Some("utf8"));
    assert_eq!(deps[1].0, "geometry");
    assert_eq!(deps[1].1.as_deref(), Some("utf8"));
}

#[test]
fn directive_without_options_has_none() {
    let deps = parse_usepackages("\\usepackage{amsmath}");
    assert_eq!(deps.len(), 1);
    assert_eq!(deps[0].0, "amsmath");
    assert!(deps[0].1.is_none());
}

#[test]
fn whitespace_between_parts_is_allowed() {
    let deps = parse_usepackages("\\usepackage [draft] {graphicx}");
    assert_eq!(deps.len(), 1);
    assert_eq!(deps[0].0, "graphicx");
    assert_eq!(deps[0].1.as_deref(), Some("draft"));
}

#[test]
fn names_are_trimmed_and_empties_dropped() {
    let deps = parse_usepackages("\\usepackage{ a , , b ,}");
    assert_eq!(deps.len(), 2);
    assert_eq!(deps[0].0, "a");
    assert_eq!(deps[1].0, "b");
}

#[test]
fn empty_option_brackets_give_an_empty_option_string() {
    let deps = parse_usepackages("\\usepackage[]{x}");
    assert_eq!(deps.len(), 1);
    assert_eq!(deps[0].1.as_deref(), Some(""));
}

#[test]
fn unclosed_brace_matches_nothing() {
    let deps = parse_usepackages("\\usepackage{foo");
    assert!(deps.is_empty());
}

#[test]
fn empty_braces_match_nothing() {
    let deps = parse_usepackages("\\usepackage{}");
    assert!(deps.is_empty());
}

#[test]
fn require_package_is_recognized() {
    let deps = parse_usepackages("\\RequirePackage[T1]{fontenc}");
    assert_eq!(deps.len(), 1);
    assert_eq!(deps[0].0, "fontenc");
    assert_eq!(deps[0].1.as_deref(), Some("T1"));
}

#[test]
fn usepackage_entries_come_before_require_package_entries() {
    let deps = parse_usepackages("\\RequirePackage{later}\n\\usepackage{earlier}\n");
    assert_eq!(deps.len(), 2);
    assert_eq!(deps[0].0, "earlier");
    assert_eq!(deps[1].0, "later");
}

#[test]
fn duplicates_are_preserved_in_order() {
    let deps = parse_usepackages("\\usepackage{a}\n\\usepackage{b,a}\n");
    let names: Vec<&str> = deps.iter().map(|d| d.0.as_str()).collect();
    assert_eq!(names, vec!["a", "b", "a"]);
}

#[test]
fn plain_text_matches_nothing() {
    let deps = parse_usepackages("no directives here, just prose with {braces} and [brackets]");
    assert!(deps.is_empty());
}
