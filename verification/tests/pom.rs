use depup::pom::{parse_pom_str, ArtifactKind, RepositoryKind};

    #[test]
    fn parse_simple_pom() {
        let xml = r#"<?xml version="1.0" encoding="UTF-8"?>
<project>
    <properties>
        <version.wildfly>35.0.0.Final</version.wildfly>
        <version.lombok>1.18.30</version.lombok>
    </properties>
    <dependencyManagement>
        <dependencies>
            <dependency>
                <groupId>org.wildfly.bom</groupId>
                <artifactId>wildfly-ee</artifactId>
                <version>${version.wildfly}</version>
            </dependency>
        </dependencies>
    </dependencyManagement>
    <build>
        <pluginManagement>
            <plugins>
                <plugin>
                    <groupId>org.apache.maven.plugins</groupId>
                    <artifactId>maven-compiler-plugin</artifactId>
                    <version>${version.compiler.plugin}</version>
                </plugin>
            </plugins>
        </pluginManagement>
    </build>
    <modules>
        <module>child-a</module>
        <module>child-b</module>
    </modules>
</project>"#;

        let project = parse_pom_str(xml).unwrap();

        assert_eq!(
            project
                .properties
                .get("version.wildfly")
                .map(String::as_str),
            Some("35.0.0.Final")
        );
        assert_eq!(
            project.properties.get("version.lombok").map(String::as_str),
            Some("1.18.30")
        );

        assert_eq!(project.modules, vec!["child-a", "child-b"]);

        assert_eq!(project.artifacts.len(), 2);
        assert_eq!(
            project.artifacts[0].0.artifact_id.as_deref(),
            Some("wildfly-ee")
        );
        assert_eq!(project.artifacts[0].1, ArtifactKind::Dependency);
        assert_eq!(
            project.artifacts[1].0.artifact_id.as_deref(),
            Some("maven-compiler-plugin")
        );
        assert_eq!(project.artifacts[1].1, ArtifactKind::Plugin);
    }

    #[test]
    fn parse_minimal_pom() {
        let xml = r#"<project></project>"#;
        let project = parse_pom_str(xml).unwrap();
        assert!(project.properties.is_empty());
        assert!(project.modules.is_empty());
        assert!(project.artifacts.is_empty());
    }

    #[test]
    fn parse_with_namespace() {
        let xml = r#"<project xmlns="http://maven.apache.org/POM/4.0.0">
    <properties>
        <version.junit>5.10.0</version.junit>
    </properties>
</project>"#;

        let project = parse_pom_str(xml).unwrap();
        assert_eq!(
            project.properties.get("version.junit").map(String::as_str),
            Some("5.10.0")
        );
    }

    #[test]
    fn finds_plugin_internal_dependencies() {
        let xml = r#"<project>
    <build>
        <plugins>
            <plugin>
                <groupId>org.apache.maven.plugins</groupId>
                <artifactId>maven-surefire-plugin</artifactId>
                <version>${version.surefire}</version>
                <dependencies>
                    <dependency>
                        <groupId>org.junit.platform</groupId>
                        <artifactId>junit-platform-surefire-provider</artifactId>
                        <version>${version.junit.platform}</version>
                    </dependency>
                </dependencies>
            </plugin>
        </plugins>
    </build>
</project>"#;

        let project = parse_pom_str(xml).unwrap();
        // The plugin's nested <dependency> is correctly picked up as a dependency
        // (it has its own version property that needs checking)
        assert!(project.artifacts.len() >= 1);
        let plugin = project
            .artifacts
            .iter()
            .find(|(a, _)| a.artifact_id.as_deref() == Some("maven-surefire-plugin"));
        assert!(plugin.is_some());
        assert_eq!(plugin.unwrap().1, ArtifactKind::Plugin);
    }

    #[test]
    fn parse_repositories() {
        let xml = r#"<project>
    <repositories>
        <repository>
            <id>jboss-public</id>
            <name>JBoss Public</name>
            <url>https://repository.jboss.org/nexus/content/groups/public/</url>
        </repository>
        <repository>
            <id>central-proxy</id>
            <url>https://repo.example.com/maven2</url>
        </repository>
    </repositories>
    <pluginRepositories>
        <pluginRepository>
            <id>jboss-plugins</id>
            <url>https://repository.jboss.org/nexus/content/groups/public/</url>
        </pluginRepository>
    </pluginRepositories>
</project>"#;

        let project = parse_pom_str(xml).unwrap();
        assert_eq!(project.repositories.len(), 3);

        let jboss = &project.repositories[0];
        assert_eq!(jboss.id.as_deref(), Some("jboss-public"));
        assert_eq!(jboss.name.as_deref(), Some("JBoss Public"));
        assert!(jboss.url.contains("jboss.org"));
        assert_eq!(jboss.kind, RepositoryKind::Standard);

        let proxy = &project.repositories[1];
        assert_eq!(proxy.id.as_deref(), Some("central-proxy"));
        assert_eq!(proxy.name, None);
        assert_eq!(proxy.kind, RepositoryKind::Standard);

        let plugin_repo = &project.repositories[2];
        assert_eq!(plugin_repo.id.as_deref(), Some("jboss-plugins"));
        assert_eq!(plugin_repo.kind, RepositoryKind::Plugin);
    }

    #[test]
    fn parse_repository_without_id() {
        let xml = r#"<project>
    <repositories>
        <repository>
            <url>https://repo.example.com/maven2</url>
        </repository>
    </repositories>
</project>"#;

        let project = parse_pom_str(xml).unwrap();
        assert_eq!(project.repositories.len(), 1);
        assert_eq!(project.repositories[0].id, None);
        assert_eq!(project.repositories[0].name, None);
        assert_eq!(
            project.repositories[0].url,
            "https://repo.example.com/maven2"
        );
    }

    #[test]
    fn skips_repository_without_url() {
        let xml = r#"<project>
    <repositories>
        <repository>
            <id>broken</id>
            <name>No URL repo</name>
        </repository>
    </repositories>
</project>"#;

        let project = parse_pom_str(xml).unwrap();
        assert_eq!(project.repositories.len(), 0);
    }

    #[test]
    fn parse_direct_dependencies_and_plugins() {
        let xml = r#"<project>
    <dependencies>
        <dependency>
            <groupId>com.google.guava</groupId>
            <artifactId>guava</artifactId>
            <version>${version.guava}</version>
        </dependency>
    </dependencies>
    <build>
        <plugins>
            <plugin>
                <groupId>org.apache.maven.plugins</groupId>
                <artifactId>maven-jar-plugin</artifactId>
                <version>${version.jar.plugin}</version>
            </plugin>
        </plugins>
    </build>
</project>"#;

        let project = parse_pom_str(xml).unwrap();
        assert_eq!(project.artifacts.len(), 2);
        assert_eq!(project.artifacts[0].1, ArtifactKind::Dependency);
        assert_eq!(project.artifacts[0].0.artifact_id.as_deref(), Some("guava"));
        assert_eq!(project.artifacts[1].1, ArtifactKind::Plugin);
    }

#[test]
fn parse_project_coordinates() {
    let xml = r#"<project>
    <groupId>org.example</groupId>
    <artifactId>app</artifactId>
    <version>1.0.0</version>
    <packaging>pom</packaging>
    <parent><groupId>org.parent</groupId></parent>
</project>"#;
    let project = parse_pom_str(xml).unwrap();
    assert_eq!(project.group_id.as_deref(), Some("org.example"));
    assert_eq!(project.artifact_id.as_deref(), Some("app"));
    assert_eq!(project.version.as_deref(), Some("1.0.0"));
    assert_eq!(project.packaging.as_deref(), Some("pom"));
}

#[test]
fn parse_unescapes_entities_and_rejects_malformed_xml() {
    let project = parse_pom_str("<project><properties><a>x &amp; y</a></properties></project>").unwrap();
    assert_eq!(project.properties.get("a").map(String::as_str), Some("x & y"));
    assert!(parse_pom_str("<project><properties></project>").is_err());
}

#[test]
fn modules_declared_in_profiles_are_listed() {
    let xml = r#"<project>
    <modules><module>core</module></modules>
    <profiles>
        <profile>
            <id>extra</id>
            <modules><module>extra-module</module></modules>
        </profile>
    </profiles>
</project>"#;
    let project = parse_pom_str(xml).unwrap();
    assert_eq!(project.modules, vec!["core".to_string(), "extra-module".to_string()]);
}
