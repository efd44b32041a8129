use street_linker::{ParsedToken, TokenType, Tokens, TokensError};

fn tokenized_of(tokens: &Tokens, text: &str) -> String {
    let parts: Vec<String> = tokens.process(text).iter().map(|t| t.token.clone()).collect();
    parts.join(" ")
}

fn tokenless_of(tokens: &Tokens, text: &str) -> String {
    let parts: Vec<String> = tokens
        .process(text)
        .iter()
        .filter(|t| t.token_type.is_none())
        .map(|t| t.token.clone())
        .collect();
    parts.join(" ")
}

#[test]
fn test_remove_diacritics() {
    let tokens = Tokens::new(Vec::new());

    // diacritics are removed from latin text
    assert_eq!(
        tokenized_of(&tokens, "Hérê àrë søme wöřdš, including diacritics and puncatuation!"),
        String::from("here are some words including diacritics and puncatuation")
    );

    // nothing happens to latin text
    assert_eq!(
        tokenized_of(&tokens, "Cranberries are low, creeping shrubs or vines up to 2 metres (7 ft)"),
        String::from("cranberries are low creeping shrubs or vines up to 2 metres 7 ft")
    );

    // nothing happens to Japanese text
    assert_eq!(
        tokenized_of(&tokens, "堪《たま》らん！」と片息《かたいき》になつて、喚《わめ》"),
        String::from("堪《たま》らん！」と片息《かたいき》になつて、喚《わめ》")
    );

    // greek diacritics are removed and other characters stay the same
    assert_eq!(
        tokenized_of(&tokens, "άΆέΈήΉίΊόΌύΎ αΑεΕηΗιΙοΟυΥ"),
        String::from("άάέέήήίίόόύύ ααεεηηιιοουυ")
    );

    // cyrillic diacritics are removed and other characters stay the same
    assert_eq!(
        tokenized_of(&tokens, "ўЎёЁѐЀґҐйЙ уУеЕеЕгГиИ"),
        String::from("ўўёёѐѐґґйй ууееееггии")
    );
}

#[test]
fn test_tokenize() {
    let tokens = Tokens::new(Vec::new());

    assert_eq!(tokenized_of(&tokens, ""), String::from(""));

    assert_eq!(tokenized_of(&tokens, "foo"), String::from("foo"));
    assert_eq!(tokenized_of(&tokens, "foo bar"), String::from("foo bar"));
    assert_eq!(tokenized_of(&tokens, "foo-bar"), String::from("foo bar"));
    assert_eq!(tokenized_of(&tokens, "foo+bar"), String::from("foo bar"));
    assert_eq!(tokenized_of(&tokens, "foo_bar"), String::from("foo bar"));
    assert_eq!(tokenized_of(&tokens, "foo:bar"), String::from("foo bar"));
    assert_eq!(tokenized_of(&tokens, "foo;bar"), String::from("foo bar"));
    assert_eq!(tokenized_of(&tokens, "foo|bar"), String::from("foo bar"));
    assert_eq!(tokenized_of(&tokens, "foo}bar"), String::from("foo bar"));
    assert_eq!(tokenized_of(&tokens, "foo{bar"), String::from("foo bar"));
    assert_eq!(tokenized_of(&tokens, "foo[bar"), String::from("foo bar"));
    assert_eq!(tokenized_of(&tokens, "foo]bar"), String::from("foo bar"));
    assert_eq!(tokenized_of(&tokens, "foo(bar"), String::from("foo bar"));
    assert_eq!(tokenized_of(&tokens, "foo)bar"), String::from("foo bar"));
    assert_eq!(tokenized_of(&tokens, "foo b.a.r"), String::from("foo bar"));
    assert_eq!(tokenized_of(&tokens, "foo's bar"), String::from("foos bar"));

    assert_eq!(tokenized_of(&tokens, "San José"), String::from("san jose"));
    assert_eq!(tokenized_of(&tokens, "A Coruña"), String::from("a coruna"));
    assert_eq!(
        tokenized_of(&tokens, "Chamonix-Mont-Blanc"),
        String::from("chamonix mont blanc")
    );
    assert_eq!(tokenized_of(&tokens, "Rue d'Argout"), String::from("rue dargout"));
    assert_eq!(tokenized_of(&tokens, "Hale’iwa Road"), String::from("haleiwa road"));
    assert_eq!(tokenized_of(&tokens, "москва"), String::from("москва"));
    assert_eq!(tokenized_of(&tokens, "京都市"), String::from("京都市"));
}

#[test]
fn test_replacement_tokens() {
    let tokens = Tokens::new(vec![
        (
            String::from("barter"),
            ParsedToken::new(String::from("foo"), Some(TokenType::Way)),
        ),
        (
            String::from("saint"),
            ParsedToken::new(String::from("st"), Some(TokenType::Way)),
        ),
        (
            String::from("street"),
            ParsedToken::new(String::from("st"), Some(TokenType::Way)),
        ),
    ]);

    assert_eq!(tokenized_of(&tokens, "Main Street"), String::from("main st"));
    assert_eq!(tokenless_of(&tokens, "Main Street"), String::from("main"));

    assert_eq!(tokenized_of(&tokens, "foobarter"), String::from("foobarter"));
    assert_eq!(tokenless_of(&tokens, "foobarter"), String::from("foobarter"));

    assert_eq!(tokenized_of(&tokens, "foo barter"), String::from("foo foo"));
    assert_eq!(tokenless_of(&tokens, "foo barter"), String::from("foo"));
}

#[test]
fn test_generate_tokens() {
    let tokens = Tokens::generate(vec![String::from("en")]).unwrap();

    assert_eq!(
        tokenized_of(&tokens, "New Jersey Av NW"),
        String::from("new jersey av nw")
    );
    assert_eq!(tokenless_of(&tokens, "New Jersey Av NW"), String::from("new jersey"));

    assert_eq!(
        tokenized_of(&tokens, "New Jersey Ave NW"),
        String::from("new jersey av nw")
    );
    assert_eq!(tokenless_of(&tokens, "New Jersey Ave NW"), String::from("new jersey"));

    assert_eq!(
        tokenized_of(&tokens, "New Jersey Avenue Northwest"),
        String::from("new jersey av nw")
    );
    assert_eq!(
        tokenless_of(&tokens, "New Jersey Avenue Northwest"),
        String::from("new jersey")
    );
}

#[test]
fn test_generate_unknown_language() {
    match Tokens::generate(vec![String::from("zz")]) {
        Err(TokensError::UnknownLanguage(l)) => assert_eq!(l, String::from("zz")),
        _ => panic!("a dictionary was found for a language that has none"),
    }
}

#[test]
fn test_process_pure() {
    // Processing is a pure function: the same text always yields the same
    // token sequence.
    let tokens = Tokens::new(vec![(
        String::from("street"),
        ParsedToken::new(String::from("st"), Some(TokenType::Way)),
    )]);
    let a = tokens.process("Main Street");
    let b = tokens.process("Main Street");
    assert_eq!(a, b);
}
