use depup::pom_writer::{update_inline_versions, InlineVersionUpdate};

    #[test]
    fn updates_inline_dependency_version() {
        let xml = r#"<project>
    <dependencies>
        <dependency>
            <groupId>com.google.guava</groupId>
            <artifactId>guava</artifactId>
            <version>33.0.0-jre</version>
        </dependency>
    </dependencies>
</project>"#;

        let updates = vec![InlineVersionUpdate {
            group_id: "com.google.guava".to_string(),
            artifact_id: "guava".to_string(),
            new_version: "33.4.0-jre".to_string(),
        }];

        let result = update_inline_versions(xml, &updates).unwrap();
        assert!(result.contains("<version>33.4.0-jre</version>"));
        assert!(result.contains("<groupId>com.google.guava</groupId>"));
    }

    #[test]
    fn updates_inline_plugin_version() {
        let xml = r#"<project>
    <build>
        <plugins>
            <plugin>
                <groupId>org.apache.maven.plugins</groupId>
                <artifactId>maven-compiler-plugin</artifactId>
                <version>3.11.0</version>
            </plugin>
        </plugins>
    </build>
</project>"#;

        let updates = vec![InlineVersionUpdate {
            group_id: "org.apache.maven.plugins".to_string(),
            artifact_id: "maven-compiler-plugin".to_string(),
            new_version: "3.13.0".to_string(),
        }];

        let result = update_inline_versions(xml, &updates).unwrap();
        assert!(result.contains("<version>3.13.0</version>"));
    }

    #[test]
    fn inline_preserves_formatting() {
        let xml = r#"<project>
    <dependencies>
        <!-- Guava library -->
        <dependency>
            <groupId>com.google.guava</groupId>
            <artifactId>guava</artifactId>
            <version>33.0.0-jre</version>
        </dependency>
    </dependencies>
</project>"#;

        let updates = vec![InlineVersionUpdate {
            group_id: "com.google.guava".to_string(),
            artifact_id: "guava".to_string(),
            new_version: "33.4.0-jre".to_string(),
        }];

        let result = update_inline_versions(xml, &updates).unwrap();
        assert!(result.contains("<!-- Guava library -->"));
        assert_eq!(xml.lines().count(), result.lines().count());
    }

    #[test]
    fn inline_matches_by_coordinates() {
        let xml = r#"<project>
    <dependencies>
        <dependency>
            <groupId>com.google.guava</groupId>
            <artifactId>guava</artifactId>
            <version>33.0.0-jre</version>
        </dependency>
        <dependency>
            <groupId>org.junit.jupiter</groupId>
            <artifactId>junit-jupiter</artifactId>
            <version>5.10.0</version>
        </dependency>
    </dependencies>
</project>"#;

        let updates = vec![InlineVersionUpdate {
            group_id: "com.google.guava".to_string(),
            artifact_id: "guava".to_string(),
            new_version: "33.4.0-jre".to_string(),
        }];

        let result = update_inline_versions(xml, &updates).unwrap();
        assert!(result.contains("<version>33.4.0-jre</version>"));
        assert!(result.contains("<version>5.10.0</version>"));
    }

    #[test]
    fn inline_no_match_returns_unchanged() {
        let xml = r#"<project>
    <dependencies>
        <dependency>
            <groupId>com.google.guava</groupId>
            <artifactId>guava</artifactId>
            <version>33.0.0-jre</version>
        </dependency>
    </dependencies>
</project>"#;

        let updates = vec![InlineVersionUpdate {
            group_id: "org.example".to_string(),
            artifact_id: "no-match".to_string(),
            new_version: "1.0.0".to_string(),
        }];

        let result = update_inline_versions(xml, &updates).unwrap();
        assert_eq!(result, xml);
    }

    #[test]
    fn inline_handles_dependency_management() {
        let xml = r#"<project>
    <dependencyManagement>
        <dependencies>
            <dependency>
                <groupId>com.google.guava</groupId>
                <artifactId>guava</artifactId>
                <version>33.0.0-jre</version>
            </dependency>
        </dependencies>
    </dependencyManagement>
</project>"#;

        let updates = vec![InlineVersionUpdate {
            group_id: "com.google.guava".to_string(),
            artifact_id: "guava".to_string(),
            new_version: "33.4.0-jre".to_string(),
        }];

        let result = update_inline_versions(xml, &updates).unwrap();
        assert!(result.contains("<version>33.4.0-jre</version>"));
    }

    #[test]
    fn inline_handles_xml_namespaces() {
        let xml = r#"<project xmlns="http://maven.apache.org/POM/4.0.0">
    <dependencies>
        <dependency>
            <groupId>com.google.guava</groupId>
            <artifactId>guava</artifactId>
            <version>33.0.0-jre</version>
        </dependency>
    </dependencies>
</project>"#;

        let updates = vec![InlineVersionUpdate {
            group_id: "com.google.guava".to_string(),
            artifact_id: "guava".to_string(),
            new_version: "33.4.0-jre".to_string(),
        }];

        let result = update_inline_versions(xml, &updates).unwrap();
        assert!(result.contains("<version>33.4.0-jre</version>"));
        assert!(result.contains("xmlns="));
    }

    #[test]
    fn inline_skips_exclusion_and_configuration_versions() {
        let xml = r#"<project>
    <build>
        <plugins>
            <plugin>
                <groupId>org.apache.maven.plugins</groupId>
                <artifactId>maven-enforcer-plugin</artifactId>
                <version>3.4.0</version>
                <configuration>
                    <rules>
                        <requireJavaVersion>
                            <version>17</version>
                        </requireJavaVersion>
                    </rules>
                </configuration>
            </plugin>
        </plugins>
    </build>
</project>"#;

        let updates = vec![InlineVersionUpdate {
            group_id: "org.apache.maven.plugins".to_string(),
            artifact_id: "maven-enforcer-plugin".to_string(),
            new_version: "3.5.0".to_string(),
        }];

        let result = update_inline_versions(xml, &updates).unwrap();
        assert!(result.contains(
            "<artifactId>maven-enforcer-plugin</artifactId>\n                <version>3.5.0</version>"
        ));
        assert!(result.contains("<version>17</version>"));
    }

#[test]
fn inline_updates_every_matching_block_exactly() {
    let xml = "<project><dependencies><dependency><groupId>g</groupId><artifactId>a</artifactId><version>1</version></dependency></dependencies><dependencyManagement><dependencies><dependency><artifactId>a</artifactId><groupId>g</groupId><version>1</version></dependency></dependencies></dependencyManagement></project>";
    let updates = vec![InlineVersionUpdate { group_id: "g".into(), artifact_id: "a".into(), new_version: "2".into() }];
    let result = update_inline_versions(xml, &updates).unwrap();
    assert_eq!(result, xml.replace("<version>1</version>", "<version>2</version>"));
}

#[test]
fn inline_empty_updates_return_input() {
    let xml = "<project><dependencies/></project>";
    let updates: Vec<InlineVersionUpdate> = Vec::new();
    assert_eq!(update_inline_versions(xml, &updates).unwrap(), xml);
}
