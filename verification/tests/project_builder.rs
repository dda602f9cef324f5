use std::cell::Cell;

use vibelang::compiler::project_builder::ProjectBuilder;
use vibelang::runtime::llm_provider::{LlmError, LlmProvider};

/// A canned backend: hands back a fixed reply and counts the calls.
struct StubProvider {
    reply: Option<String>,
    calls: Cell<usize>,
}

impl StubProvider {
    fn replying(reply: &str) -> StubProvider {
        StubProvider {
            reply: Some(reply.to_string()),
            calls: Cell::new(0),
        }
    }

    fn never_called() -> StubProvider {
        StubProvider {
            reply: None,
            calls: Cell::new(0),
        }
    }
}

impl LlmProvider for StubProvider {
    fn generate(&self, _prompt: &str) -> Result<String, LlmError> {
        self.calls.set(self.calls.get() + 1);
        match &self.reply {
            Some(r) => Ok(r.clone()),
            None => panic!("the backend was not expected to be called"),
        }
    }
}

#[test]
fn test_version_extraction() {
    let stub = StubProvider::never_called();
    let builder = ProjectBuilder::new(&stub);

    let cargo_content = r#"[package]
name = "vibelang"
version = "0.2.5"
edition = "2024"

[dependencies]
serde = "1.0"
"#;

    let version = builder.extract_version_from_cargo_toml(cargo_content);
    assert_eq!(version, Some("0.2.5".to_string()));
}

#[test]
fn test_cargo_toml_generation_binary_with_version() {
    let stub = StubProvider::never_called();
    let builder = ProjectBuilder::new(&stub);
    let content = builder
        .create_cargo_toml_content("mycoolpackage", "myapp", false, "0.2.5")
        .unwrap();
    assert!(content.contains(r#"name = "mycoolpackage""#));
    assert!(content.contains(r#"name = "myapp""#));
    assert!(content.contains("[[bin]]"));
    assert!(content.contains(r#"vibelang = "0.2.5""#));
    assert!(!content.contains("[lib]"));
}

#[test]
fn test_cargo_toml_generation_library_with_version() {
    let stub = StubProvider::never_called();
    let builder = ProjectBuilder::new(&stub);
    let content = builder
        .create_cargo_toml_content("mycoolpackage", "myapp", true, "0.2.5")
        .unwrap();
    assert!(content.contains(r#"name = "mycoolpackage""#));
    assert!(content.contains("[lib]"));
    assert!(content.contains("tokio"));
    assert!(content.contains(r#"vibelang = "0.2.5""#));
    assert!(!content.contains("[[bin]]"));
}

#[test]
fn test_name_generation_with_valid_llm_json() {
    let stub =
        StubProvider::replying(r#"{"packagename": "geography_tools", "binname": "capitalfinder"}"#);
    let builder = ProjectBuilder::new(&stub);
    let source = r#"type Capital = Meaning<String>("the capital city of a country")"#;
    let (package_name, bin_name) = builder.generate_project_names(source).unwrap();

    assert_eq!(stub.calls.get(), 1);
    assert_eq!(package_name, "geography-tools");
    assert_eq!(bin_name, "capitalfinder");
}

#[test]
fn test_name_generation_falls_back_on_invalid_json() {
    let stub = StubProvider::replying("I am not valid JSON.");
    let builder = ProjectBuilder::new(&stub);
    let source = r#"type Capital = Meaning<String>("a capital city")"#;
    let (package_name, bin_name) = builder.generate_project_names(source).unwrap();

    assert_eq!(stub.calls.get(), 1);
    assert_eq!(package_name, "vibe-project");
    assert_eq!(bin_name, "vibeapp");
}

#[test]
fn test_name_generation_falls_back_with_no_annotations() {
    let stub = StubProvider::never_called();
    let builder = ProjectBuilder::new(&stub);
    let source = r#"fn get_year() -> Int { prompt "What year is it?" }"#;
    let (package_name, bin_name) = builder.generate_project_names(source).unwrap();

    assert_eq!(stub.calls.get(), 0);
    assert_eq!(package_name, "vibe-project");
    assert_eq!(bin_name, "vibeapp");
}

#[test]
fn annotations_found_in_order() {
    let stub = StubProvider::never_called();
    let builder = ProjectBuilder::new(&stub);
    let source = r#"
        type WeatherInfo = Meaning<String>("weather conditions and forecasts");
        type TemperatureReading = Meaning<Int>("temperature measurement in celsius");
    "#;
    let annotations = builder.extract_semantic_annotations(source);
    assert_eq!(annotations.len(), 2);
    assert_eq!(annotations[0], "weather conditions and forecasts");
    assert_eq!(annotations[1], "temperature measurement in celsius");
}

#[test]
fn version_absent_when_no_version_line() {
    let stub = StubProvider::never_called();
    let builder = ProjectBuilder::new(&stub);
    assert_eq!(
        builder.extract_version_from_cargo_toml("[package]\nname = \"x\"\n"),
        None
    );
}
