use street_linker::{
    Context, InputName, Name, Names, StreetValue, TokenType, Tokenized, Tokens, ValueError,
};

fn ctx(country: &str, region: Option<&str>) -> Context {
    Context::new(
        String::from(country),
        region.map(String::from),
        Tokens::new(Vec::new()),
    )
}

#[test]
fn test_name() {
    let context = ctx("us", None);

    assert_eq!(
        Name::new(String::from("Main St NW"), 0, &context),
        Name {
            display: String::from("Main St NW"),
            priority: 0,
            source: String::from(""),
            tokenized: vec![
                Tokenized::new(String::from("main"), None),
                Tokenized::new(String::from("st"), None),
                Tokenized::new(String::from("nw"), None),
            ],
            freq: 1,
        }
    );
}

#[test]
fn test_names_sort() {
    let context = ctx("us", None);

    let mut names = Names::new(
        vec![
            Name::new(String::from("Highway 123"), -1, &context),
            Name::new(String::from("Route 123"), 2, &context),
            Name::new(String::from("Test 123"), 0, &context),
        ],
        &context,
    );

    names.sort();

    let names_sorted = Names::new(
        vec![
            Name::new(String::from("Route 123"), 2, &context),
            Name::new(String::from("Test 123"), 0, &context),
            Name::new(String::from("Highway 123"), -1, &context),
        ],
        &context,
    );

    assert_eq!(names, names_sorted);
}

#[test]
fn test_names_concat() {
    let context = ctx("us", None);

    let mut names = Names::new(
        vec![Name::new(String::from("Highway 123"), -1, &context)],
        &context,
    );

    let names2 = Names::new(
        vec![
            Name::new(String::from("Highway 123"), -1, &context),
            Name::new(String::from("Highway 123"), -1, &context),
        ],
        &context,
    );

    names.concat(names2);

    let names_concat = Names::new(
        vec![Name::new(String::from("Highway 123"), -1, &context)],
        &context,
    );

    assert_eq!(names, names_concat);
}

#[test]
fn test_names_dedupe() {
    let context = ctx("us", None);

    let mut names = Names::new(
        vec![
            Name::new(String::from("Highway 123"), -1, &context),
            Name::new(String::from("Highway 123"), -1, &context),
        ],
        &context,
    );

    names.dedupe();

    let names_deduped = Names::new(
        vec![Name::new(String::from("Highway 123"), -1, &context)],
        &context,
    );

    assert_eq!(names, names_deduped);
}

#[test]
fn test_names_from_value() {
    let context = ctx("us", None);

    let expected = Names::new(
        vec![Name::new(String::from("Main St NE"), 0, &context)],
        &context,
    );

    assert_eq!(
        Names::from_value(Some(StreetValue::Text(String::from("Main St NE"))), &context).unwrap(),
        expected
    );

    assert_eq!(
        Names::from_value(
            Some(StreetValue::Entries(vec![InputName {
                display: String::from("Main St NE"),
                priority: 0,
            }])),
            &context
        )
        .unwrap(),
        expected
    );
}

#[test]
fn test_names() {
    let context = ctx("us", None);

    assert_eq!(
        Names::new(vec![], &context),
        Names { names: Vec::new() }
    );

    assert_eq!(
        Names::new(
            vec![Name::new(String::from("Main St NW"), 0, &context)],
            &context
        ),
        Names { names: vec![Name::new(String::from("Main St NW"), 0, &context)] }
    );
}

#[test]
fn test_names_from_value_invalid() {
    let context = ctx("us", None);
    assert_eq!(
        Names::from_value(
            Some(StreetValue::Invalid(String::from("expected a string or a list"))),
            &context
        ),
        Err(ValueError::InvalidStreetProperty(String::from(
            "expected a string or a list"
        )))
    );
}

#[test]
fn test_names_dedupe_idempotent() {
    // Deduplication applied twice yields what one application yields, and
    // never increases the name count.
    let context = ctx("us", None);
    let mut once = Names::new(
        vec![
            Name::new(String::from("Main Street"), 0, &context),
            Name::new(String::from("Main  Street"), -1, &context),
            Name::new(String::from("Oak Avenue"), 0, &context),
            Name::new(String::from("Main Street"), 2, &context),
        ],
        &context,
    );
    let total = once.names.len();
    once.dedupe();
    assert!(once.names.len() <= total);
    let mut twice = Names { names: Vec::new() };
    for n in &once.names {
        twice.names.push(Name {
            display: n.display.clone(),
            priority: n.priority,
            source: n.source.clone(),
            tokenized: n.tokenized.clone(),
            freq: n.freq,
        });
    }
    twice.dedupe();
    assert_eq!(once, twice);
    // The earliest entry of each key survives.
    assert_eq!(once.names.len(), 2);
    assert_eq!(once.names[0].priority, 0);
}

#[test]
fn test_names_set_source() {
    let context = ctx("us", None);
    let mut names = Names::new(
        vec![
            Name::new(String::from("Main Street"), 0, &context),
            Name::new(String::from("Oak Avenue"), -1, &context),
        ],
        &context,
    );
    names.set_source(String::from("network"));
    for n in &names.names {
        assert_eq!(n.source, String::from("network"));
    }
}

#[test]
fn test_name_has_type() {
    let tokens = Tokens::new(vec![(
        String::from("street"),
        street_linker::ParsedToken::new(String::from("st"), Some(TokenType::Way)),
    )]);
    let context = Context::new(String::from("us"), None, tokens);
    let name = Name::new(String::from("Main Street"), 0, &context);
    assert!(name.has_type(Some(TokenType::Way)));
    assert!(name.has_type(None));
    assert!(!name.has_type(Some(TokenType::Cardinal)));
}

#[test]
fn test_names_generated_source() {
    // Synonyms generated at construction are tagged as generated, and the
    // original keeps its own tag.
    let context = ctx("us", None);
    let names = Names::new(
        vec![Name::new(String::from("US 81"), 0, &context)],
        &context,
    );
    assert_eq!(names.names.len(), 6);
    assert_eq!(names.names[0].source, String::from(""));
    for syn in &names.names[1..] {
        assert_eq!(syn.source, String::from("generated"));
    }
}
