//! Reading what the package managers list, once their JSON is parsed.

use depup::npm::{classify_installed, installed_from_sections, yarn_outdated_packages, yarn_tree_packages};

fn pairs(v: &[(&str, &str)]) -> Vec<(String, String)> {
    v.iter().map(|(a, b)| (a.to_string(), b.to_string())).collect()
}

#[test]
fn listed_packages_are_dev_where_package_json_says_so() {
    let listed = pairs(&[("react", "18.2.0"), ("vitest", "1.0.0")]);
    let installed = classify_installed(&listed, &vec!["vitest".to_string()]);
    assert_eq!(installed.len(), 2);
    assert_eq!((installed[0].name.as_str(), installed[0].version.as_str(), installed[0].is_dev), ("react", "18.2.0", false));
    assert_eq!((installed[1].name.as_str(), installed[1].version.as_str(), installed[1].is_dev), ("vitest", "1.0.0", true));
}

#[test]
fn sections_list_dependencies_then_dev_dependencies() {
    let installed = installed_from_sections(&pairs(&[("express", "4.18.2")]), &pairs(&[("jest", "29.0.0")]));
    assert_eq!(installed.len(), 2);
    assert_eq!((installed[0].name.as_str(), installed[0].is_dev), ("express", false));
    assert_eq!((installed[1].name.as_str(), installed[1].version.as_str(), installed[1].is_dev), ("jest", "29.0.0", true));
    assert!(installed_from_sections(&Vec::new(), &Vec::new()).is_empty());
}

#[test]
fn yarn_tree_lines_name_packages_and_other_lines_are_skipped() {
    let lines = vec![
        ("info".to_string(), Vec::new()),
        ("tree".to_string(), vec!["react@18.2.0".to_string(), "express@4.18.2".to_string(), "broken".to_string()]),
        ("tree".to_string(), Vec::new()),
    ];
    assert_eq!(yarn_tree_packages(&lines), pairs(&[("react", "18.2.0"), ("express", "4.18.2")]));
}

#[test]
fn yarn_table_rows_give_current_and_latest() {
    let row = |cells: &[&str]| cells.iter().map(ToString::to_string).collect::<Vec<String>>();
    let lines = vec![
        ("info".to_string(), vec![row(&["ignored", "1", "2", "3"])]),
        (
            "table".to_string(),
            vec![row(&["react", "18.0.0", "18.2.0", "19.0.0", ""]), row(&["express", "4.17.0", "4.18.2", "5.0.0", ""]), row(&["short", "1"])],
        ),
    ];
    let entries = yarn_outdated_packages(&lines);
    assert_eq!(entries.len(), 2);
    assert_eq!((entries[0].0.as_str(), entries[0].1.current.as_str(), entries[0].1.latest.as_str()), ("react", "18.0.0", "19.0.0"));
    assert_eq!(entries[1].0, "express");
}
