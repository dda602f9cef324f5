use vibelang::compiler::codegen::{CodeGenerator, CodegenError};
use vibelang::compiler::compile;
use vibelang::compiler::parser::{parse_source, parse_string, Parser};
use vibelang::utils::ast::{AstNode, AstNodeType};

#[test]
fn test_parser_meaning_types() {
    let source = r#"
        type Temperature = Meaning<Int>("temperature in Celsius");
        type Sentiment = Meaning<String>("emotional sentiment analysis");
    "#;

    let ast = parse_string(source).unwrap();
    assert_eq!(ast.children.len(), 2);

    let temp_type = &ast.children[0];
    assert_eq!(temp_type.node_type, AstNodeType::TypeDecl);
    assert_eq!(temp_type.get_string("name").unwrap(), "Temperature");

    let meaning_node = &temp_type.children[0];
    assert_eq!(meaning_node.node_type, AstNodeType::MeaningType);
    assert_eq!(
        meaning_node.get_string("meaning").unwrap(),
        "temperature in Celsius"
    );

    let base_type = &meaning_node.children[0];
    assert_eq!(base_type.node_type, AstNodeType::BasicType);
    assert_eq!(base_type.get_string("type").unwrap(), "Int");
}

#[test]
fn test_advanced_prompt_parsing() {
    let source = r#"
        fn analyze_sentiment(text: String) -> Meaning<String>("emotional sentiment") {
            let processed_text: String = preprocess(text);
            prompt "Analyze the sentiment of: {processed_text}";
        }
    "#;

    let ast = parse_string(source).unwrap();
    let function = &ast.children[0];

    assert_eq!(function.node_type, AstNodeType::FunctionDecl);
    assert_eq!(function.get_string("name").unwrap(), "analyze_sentiment");

    // Children are the parameters, the return type and the body.
    let return_type = &function.children[1];
    assert_eq!(return_type.node_type, AstNodeType::MeaningType);
    assert_eq!(
        return_type.get_string("meaning").unwrap(),
        "emotional sentiment"
    );
}

#[test]
fn test_joke_generation_payload() {
    let vibe_source = r#"
        type Joke = Meaning<String>("a short humorous line");
        type Topic = Meaning<String>("topic for the joke");

        fn tellJoke(topic: Topic) -> Joke {
            prompt "Tell me a short joke about {topic}.";
        }
    "#;

    let ast = parse_source(vibe_source).unwrap();
    let generated_code = CodeGenerator::new().generate(&ast, false).unwrap();

    assert!(
        generated_code.contains("pub type Joke = String;"),
        "Joke type alias is incorrect."
    );
    assert!(
        generated_code.contains("pub type Topic = String;"),
        "Topic type alias is incorrect."
    );
    assert!(
        generated_code.contains("pub fn tellJoke(llm: &LlmClient, topic: Topic) -> Joke"),
        "tellJoke function signature is incorrect."
    );
    assert!(
        generated_code
            .contains(r#"let mut template = "Tell me a short joke about {topic}.".to_string();"#),
        "Prompt template was not correctly generated."
    );
    assert!(
        generated_code.contains(r#"let meaning = Some("a short humorous line");"#),
        "Semantic meaning was not inherited from the return type."
    );
    assert!(
        generated_code.contains("result.into_string()"),
        "Incorrect return type conversion method was used."
    );
}

#[test]
fn test_greeting_generation_payload_with_inline_meaning() {
    let vibe_source = r#"
        type Greeting = Meaning<String>("a friendly greeting");
        type Language = Meaning<String>("language name");

        fn generateGreeting(name: Meaning<String>("person's name"),
                           language: Language) -> Greeting {
            prompt "Generate a friendly greeting for a person named {name} in {language}.";
        }
    "#;

    let ast = parse_source(vibe_source).unwrap();
    let generated_code = CodeGenerator::new().generate(&ast, false).unwrap();

    assert!(generated_code.contains("pub type Greeting = String;"));
    assert!(generated_code.contains("pub type Language = String;"));

    // The inline meaning on `name` compiles down to its base type.
    assert!(
        generated_code.contains(
            "pub fn generateGreeting(llm: &LlmClient, name: String, language: Language) -> Greeting"
        ),
        "generateGreeting function signature is incorrect. Check handling of inline Meaning parameter."
    );

    assert!(
        generated_code.contains(r#"template = template.replace("{name}", &name.to_string());"#)
    );
    assert!(
        generated_code
            .contains(r#"template = template.replace("{language}", &language.to_string());"#)
    );

    assert!(
        generated_code.contains(r#"let meaning = Some("a friendly greeting");"#),
        "Semantic meaning was not inherited correctly."
    );
}

#[test]
fn program_shape_is_deterministic() {
    let source = r#"
        type Weather = Meaning<String>("weather description");

        fn get_weather(city: String) -> Weather {
            prompt "What is the weather in {city}?";
        }

        fn get_temperature(city: String) -> Meaning<Int>("temperature in Celsius") {
            prompt "What is the temperature in {city}?";
        }
    "#;

    let ast = parse_string(source).unwrap();
    assert_eq!(ast.node_type, AstNodeType::Program);
    assert_eq!(ast.children.len(), 3);
    assert_eq!(ast.children[0].node_type, AstNodeType::TypeDecl);
    assert_eq!(ast.children[1].node_type, AstNodeType::FunctionDecl);
    assert_eq!(ast.children[2].node_type, AstNodeType::FunctionDecl);
}

#[test]
fn round_trip_artifact_holds_declarations() {
    let source = r#"
        type Capital = Meaning<String>("the capital city of a country");
        fn get_capital(country: String) -> Capital {
            prompt "What is the capital of {country}?";
        }
    "#;

    let generated = compile(source, true).unwrap();
    assert!(generated.contains("pub type Capital = String;"));
    assert!(generated.contains("pub fn get_capital(llm: &LlmClient, country: String) -> Capital"));
    assert!(generated.contains(r#"template = template.replace("{country}", &country.to_string());"#));
    assert!(generated.contains(r#"let meaning = Some("the capital city of a country");"#));
}

#[test]
fn error_recovery_keeps_later_declarations() {
    let source = r#"
        fn first(x: String) -> String {
            let 5 = ;
            prompt "Say something about {x}.";
        }

        fn second(y: String) -> String {
            prompt "Say more about {y}.";
        }
    "#;

    let ast = parse_string(source).unwrap();
    assert_eq!(ast.children.len(), 2);
    assert_eq!(ast.children[0].node_type, AstNodeType::FunctionDecl);
    assert_eq!(ast.children[0].get_string("name").unwrap(), "first");
    assert_eq!(ast.children[1].node_type, AstNodeType::FunctionDecl);
    assert_eq!(ast.children[1].get_string("name").unwrap(), "second");

    // The bad statement was skipped, the prompt after it survived.
    let generated = CodeGenerator::new().generate(&ast, true).unwrap();
    assert!(generated.contains(r#"let mut template = "Say something about {x}.".to_string();"#));
}

#[test]
fn normalization_drops_stop_words() {
    let generator = CodeGenerator::new();
    assert_eq!(
        generator.normalize_meaning_to_function_name("the capital city of a country"),
        "capital_city_country"
    );
    assert_eq!(
        generator.normalize_meaning_to_function_name("a capital city"),
        "capital_city"
    );
    assert_eq!(
        generator.normalize_meaning_to_function_name("population count in millions"),
        "population_count_millions"
    );
    assert_eq!(
        generator.normalize_meaning_to_function_name("Quality Rating (out of 10)"),
        "quality_rating_out_10"
    );
}

#[test]
fn synthesized_extractors_are_emitted() {
    let source = r#"
        type Population = Meaning<Int>("population count in millions");
        type HistoricalFact = Meaning<String>("historical information");

        fn get_population(country: String) -> Population {
            prompt "What is the population of {country} in millions?";
        }
    "#;

    let generated = compile(source, true).unwrap();
    assert!(generated.contains("pub type Population = i32;"));
    assert!(generated.contains("pub type HistoricalFact = String;"));
    assert!(generated.contains("extract_population_count_millions_value"));
    assert!(generated.contains("extract_historical_information_string"));
    assert!(generated.contains("parse_integer_semantic"));
    assert!(generated.contains("parse_string_semantic"));
    assert!(generated.contains("extract_generic_number"));
    assert!(generated
        .contains(r#"Some("population count in millions") => extract_population_count_millions_value(content),"#));
}

#[test]
fn missing_prompt_fails_generation() {
    let ast = parse_string("fn f() -> Int { return 3; }").unwrap();
    let r = CodeGenerator::new().generate(&ast, true);
    assert!(matches!(r, Err(CodegenError::MissingPrompt)));
}

#[test]
fn unknown_parameter_type_fails_generation() {
    let ast = parse_string(r#"fn f(x: Mystery) -> Int { prompt "How big is {x}?"; }"#).unwrap();
    let r = CodeGenerator::new().generate(&ast, true);
    assert!(matches!(r, Err(CodegenError::UnsupportedParamType)));
}

#[test]
fn nameless_declaration_fails_generation() {
    let mut program = AstNode::new(AstNodeType::Program);
    let mut decl = AstNode::new(AstNodeType::TypeDecl);
    decl.add_child(AstNode::new(AstNodeType::BasicType));
    program.add_child(decl);
    let r = CodeGenerator::new().generate(&program, true);
    assert!(matches!(r, Err(CodegenError::MissingName)));
}

#[test]
fn bodiless_declaration_fails_generation() {
    let mut program = AstNode::new(AstNodeType::Program);
    let mut decl = AstNode::new(AstNodeType::TypeDecl);
    decl.set_string("name", "Orphan");
    program.add_child(decl);
    let r = CodeGenerator::new().generate(&program, true);
    assert!(matches!(r, Err(CodegenError::MalformedDeclaration)));
}

#[test]
fn parse_errors_are_recorded_and_recovered() {
    let source = r#"
        type Good = Int;
        widget gadget;
        type AlsoGood = String;
    "#;
    let mut parser = Parser::new(source).unwrap();
    let ast = parser.parse().unwrap();
    assert_eq!(ast.children.len(), 2);
    assert_eq!(ast.children[0].get_string("name").unwrap(), "Good");
    assert_eq!(ast.children[1].get_string("name").unwrap(), "AlsoGood");
    assert!(!parser.errors.is_empty());
}

#[test]
fn duplicate_alias_names_emit_one_line() {
    let source = r#"
        type T = Int;
        type T = String;
    "#;
    let generated = compile(source, true).unwrap();
    assert!(generated.contains("pub type T = i32;"));
    assert_eq!(generated.matches("pub type T = ").count(), 1);
}

#[test]
fn synthesized_bodies_follow_the_meaning() {
    let source = r#"
        type Population = Meaning<Int>("population count in millions");
        type CityPeople = Meaning<Int>("city population");
        type Availability = Meaning<Bool>("whether something is available");
        type YearFounded = Meaning<Int>("year when established");

        fn get_population(country: String) -> Population {
            prompt "What is the population of {country} in millions?";
        }
    "#;
    let generated = compile(source, true).unwrap();
    // "count" outranks "population" in the keyword order, so the first
    // meaning gets the first-token rule; the plain population meaning gets
    // the stripping rule.
    assert!(generated
        .contains("pub fn extract_population_count_millions_value(content: &str) -> i32 {"));
    assert!(generated.contains("pub fn extract_city_population_value(content: &str) -> i32 {
    vibe_population(content)
}"));
    assert!(generated
        .contains("pub fn extract_whether_something_is_available_boolean(content: &str) -> bool {"));
    assert!(generated.contains(r#"vibe_contains_any(content, &["yes", "available", "in stock"])"#));
    assert!(generated
        .contains("pub fn extract_year_when_established_value(content: &str) -> i32 {"));
    assert!(generated.contains("    vibe_digit_scan(content, 1000, 2100)
}"));
    assert!(generated.contains("pub fn vibe_population(content: &str) -> i32 {"));
    assert!(generated.contains("pub fn vibe_population(content: &str) -> i32 {"));
}

#[test]
fn alias_chains_resolve_to_the_first_primitive() {
    let source = r#"
        type Temperature = Meaning<Int>("temperature in Celsius");
        type Reading = Temperature;
    "#;

    let generated = compile(source, true).unwrap();
    assert!(generated.contains("pub type Temperature = i32;"));
    assert!(generated.contains("pub type Reading = i32;"));
}
