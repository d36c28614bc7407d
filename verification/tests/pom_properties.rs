use depup::pom_writer::update_properties;
use depup::props::PropertyMap;

fn check_updates_single_property() {
    let xml = r#"<project>
    <properties>
        <version.foo>1.0.0</version.foo>
        <version.bar>2.0.0</version.bar>
    </properties>
</project>"#;
    let mut updates = PropertyMap::new();
    updates.insert("version.foo".to_string(), "1.1.0".to_string());
    let result = update_properties(xml, &updates).unwrap();
    assert!(result.contains("<version.foo>1.1.0</version.foo>"));
    assert!(result.contains("<version.bar>2.0.0</version.bar>"));
}

fn check_updates_multiple_properties() {
    let xml = r#"<project>
    <properties>
        <version.foo>1.0.0</version.foo>
        <version.bar>2.0.0</version.bar>
        <version.baz>3.0.0</version.baz>
    </properties>
</project>"#;
    let mut updates = PropertyMap::new();
    updates.insert("version.foo".to_string(), "1.1.0".to_string());
    updates.insert("version.baz".to_string(), "3.3.0".to_string());
    let result = update_properties(xml, &updates).unwrap();
    assert!(result.contains("<version.foo>1.1.0</version.foo>"));
    assert!(result.contains("<version.bar>2.0.0</version.bar>"));
    assert!(result.contains("<version.baz>3.3.0</version.baz>"));
}

fn check_preserves_comments() {
    let xml = r#"<project>
    <properties>
        <!-- This is a comment -->
        <version.foo>1.0.0</version.foo>
        <!-- Another comment -->
        <version.bar>2.0.0</version.bar>
    </properties>
</project>"#;
    let mut updates = PropertyMap::new();
    updates.insert("version.foo".to_string(), "1.1.0".to_string());
    let result = update_properties(xml, &updates).unwrap();
    assert!(result.contains("<!-- This is a comment -->"));
    assert!(result.contains("<!-- Another comment -->"));
    assert!(result.contains("<version.foo>1.1.0</version.foo>"));
}

fn check_preserves_indentation_and_whitespace() {
    let xml = "<project>\n\t<properties>\n\t\t<version.foo>1.0.0</version.foo>\n\t\t<version.bar>2.0.0</version.bar>\n\t</properties>\n</project>";
    let mut updates = PropertyMap::new();
    updates.insert("version.foo".to_string(), "1.1.0".to_string());
    let result = update_properties(xml, &updates).unwrap();
    assert!(result.contains("\t<properties>"));
    assert!(result.contains("\t\t<version.foo>1.1.0</version.foo>"));
    assert!(result.contains("\t\t<version.bar>2.0.0</version.bar>"));
}

fn check_ignores_properties_not_in_updates() {
    let xml = r#"<project>
    <properties>
        <version.foo>1.0.0</version.foo>
        <version.bar>2.0.0</version.bar>
        <version.baz>3.0.0</version.baz>
    </properties>
</project>"#;
    let mut updates = PropertyMap::new();
    updates.insert("version.foo".to_string(), "1.1.0".to_string());
    let result = update_properties(xml, &updates).unwrap();
    assert!(result.contains("<version.bar>2.0.0</version.bar>"));
    assert!(result.contains("<version.baz>3.0.0</version.baz>"));
}

fn check_handles_xml_namespaces() {
    let xml = r#"<project xmlns="http://maven.apache.org/POM/4.0.0">
    <properties>
        <version.foo>1.0.0</version.foo>
        <version.bar>2.0.0</version.bar>
    </properties>
</project>"#;
    let mut updates = PropertyMap::new();
    updates.insert("version.foo".to_string(), "1.1.0".to_string());
    let result = update_properties(xml, &updates).unwrap();
    assert!(result.contains("<version.foo>1.1.0</version.foo>"));
    assert!(result.contains("xmlns=\"http://maven.apache.org/POM/4.0.0\""));
}

fn check_no_updates_returns_unchanged() {
    let xml = r#"<project>
    <properties>
        <version.foo>1.0.0</version.foo>
    </properties>
</project>"#;
    let updates = PropertyMap::new();
    let result = update_properties(xml, &updates).unwrap();
    assert_eq!(result, xml);
}

fn check_preserves_trailing_newline() {
    let xml = "<project>\n    <properties>\n        <version.foo>1.0.0</version.foo>\n    </properties>\n</project>\n";
    let mut updates = PropertyMap::new();
    updates.insert("version.foo".to_string(), "1.1.0".to_string());
    let result = update_properties(xml, &updates).unwrap();
    assert!(result.ends_with('\n'));
}

fn check_handles_property_with_whitespace_value() {
    let xml = r#"<project>
    <properties>
        <version.foo>  1.0.0  </version.foo>
    </properties>
</project>"#;
    let mut updates = PropertyMap::new();
    updates.insert("version.foo".to_string(), "1.1.0".to_string());
    let result = update_properties(xml, &updates).unwrap();
    assert!(result.contains("<version.foo>1.1.0</version.foo>"));
}

#[test]
fn pom_writer_updates_single_property() {
    check_updates_single_property();
}

#[test]
fn pom_writer_updates_multiple_properties() {
    check_updates_multiple_properties();
}

#[test]
fn pom_writer_preserves_comments() {
    check_preserves_comments();
}

#[test]
fn pom_writer_preserves_indentation_and_whitespace() {
    check_preserves_indentation_and_whitespace();
}

#[test]
fn pom_writer_ignores_properties_not_in_updates() {
    check_ignores_properties_not_in_updates();
}

#[test]
fn pom_writer_handles_xml_namespaces() {
    check_handles_xml_namespaces();
}

#[test]
fn pom_writer_no_updates_returns_unchanged() {
    check_no_updates_returns_unchanged();
}

#[test]
fn pom_writer_preserves_trailing_newline() {
    check_preserves_trailing_newline();
}

#[test]
fn pom_writer_handles_property_with_whitespace_value() {
    check_handles_property_with_whitespace_value();
}

#[test]
fn properties_updates_single_property() {
    check_updates_single_property();
}

#[test]
fn properties_updates_multiple_properties() {
    check_updates_multiple_properties();
}

#[test]
fn properties_preserves_comments() {
    check_preserves_comments();
}

#[test]
fn properties_preserves_indentation_and_whitespace() {
    check_preserves_indentation_and_whitespace();
}

#[test]
fn properties_ignores_properties_not_in_updates() {
    check_ignores_properties_not_in_updates();
}

#[test]
fn properties_handles_xml_namespaces() {
    check_handles_xml_namespaces();
}

#[test]
fn properties_no_updates_returns_unchanged() {
    check_no_updates_returns_unchanged();
}

#[test]
fn properties_preserves_trailing_newline() {
    check_preserves_trailing_newline();
}

#[test]
fn properties_handles_property_with_whitespace_value() {
    check_handles_property_with_whitespace_value();
}
#[test]
fn update_properties_replaces_whole_text_exactly() {
    let xml = "<project><properties><a>1</a><b>2</b></properties><a>9</a></project>";
    let mut updates = PropertyMap::new();
    updates.insert("a".to_string(), "10".to_string());
    let result = update_properties(xml, &updates).unwrap();
    assert_eq!(result, "<project><properties><a>10</a><b>2</b></properties><a>9</a></project>");
}

#[test]
fn update_properties_reports_malformed_xml() {
    let xml = "<project><properties><a>1</b></properties></project>";
    let mut updates = PropertyMap::new();
    updates.insert("a".to_string(), "10".to_string());
    let err = update_properties(xml, &updates).unwrap_err();
    assert_eq!(err.code.as_str(), "POM_PARSE_FAILED");
}
