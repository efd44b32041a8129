use street_linker::{linker, Context, Link, LinkResult, Name, Names, ParsedToken, TokenType, Tokens};

fn link_context() -> Context {
    let table = vec![
        ("street", "st", TokenType::Way),
        ("st", "st", TokenType::Way),
        ("avenue", "ave", TokenType::Way),
        ("ave", "ave", TokenType::Way),
        ("west", "w", TokenType::Cardinal),
        ("east", "e", TokenType::Cardinal),
        ("w", "w", TokenType::Cardinal),
        ("e", "e", TokenType::Cardinal),
    ];
    let entries = table
        .into_iter()
        .map(|(raw, canonical, tt)| {
            (
                String::from(raw),
                ParsedToken::new(String::from(canonical), Some(tt)),
            )
        })
        .collect();
    Context::new(String::from("us"), None, Tokens::new(entries))
}

fn names_of(context: &Context, display: &str) -> Names {
    Names::new(vec![Name::new(String::from(display), 0, context)], context)
}

#[test]
fn test_linker() {
    let context = link_context();

    // === Intentional Matches ===
    // The following tests should match one of the given potential matches
    {
        let a_name = names_of(&context, "Main Street");
        let b_name = names_of(&context, "Main Street");
        let a = Link::new(1, &a_name);
        let b = vec![Link::new(2, &b_name)];
        assert_eq!(linker(a, b), Some(LinkResult::new(2, 10000)));
    }

    {
        let a_name = names_of(&context, "Main Street");
        let b_name = names_of(&context, "Maim Street");
        let a = Link::new(1, &a_name);
        let b = vec![Link::new(2, &b_name)];
        assert_eq!(linker(a, b), Some(LinkResult::new(2, 8571)));
    }

    {
        let a_name = names_of(&context, "US Route 50 East");
        let b_name = names_of(&context, "US Route 50 West");
        let a = Link::new(1, &a_name);
        let b = vec![Link::new(2, &b_name)];
        assert_eq!(linker(a, b), Some(LinkResult::new(2, 9808)));
    }

    {
        let a_name = names_of(&context, "11th Street West");
        let b_name = names_of(&context, "11th Avenue West");
        let a = Link::new(1, &a_name);
        let b = vec![Link::new(2, &b_name)];
        assert_eq!(linker(a, b), Some(LinkResult::new(2, 9211)));
    }

    {
        let a_name = names_of(&context, "Main Street");

        let b_name1 = names_of(&context, "Main Street");
        let b_name2 = names_of(&context, "Main Avenue");
        let b_name3 = names_of(&context, "Main Road");
        let b_name4 = names_of(&context, "Main Drive");

        let a = Link::new(1, &a_name);
        let b = vec![
            Link::new(2, &b_name1),
            Link::new(3, &b_name2),
            Link::new(4, &b_name3),
            Link::new(5, &b_name4),
        ];
        assert_eq!(linker(a, b), Some(LinkResult::new(2, 10000)));
    }

    {
        let a_name = names_of(&context, "Main Street");

        let b_name1 = names_of(&context, "Main Street");
        let b_name2 = names_of(&context, "Asdg Street");
        let b_name3 = names_of(&context, "Asdg Street");
        let b_name4 = names_of(&context, "Maim Drive");

        let a = Link::new(1, &a_name);
        let b = vec![
            Link::new(2, &b_name1),
            Link::new(3, &b_name2),
            Link::new(4, &b_name3),
            Link::new(5, &b_name4),
        ];
        assert_eq!(linker(a, b), Some(LinkResult::new(2, 10000)));
    }

    {
        let a_name = names_of(&context, "Ola Avenue");

        let b_name1 = names_of(&context, "Ola");
        let b_name2 = names_of(&context, "Ola Avg");

        let a = Link::new(1, &a_name);
        let b = vec![Link::new(2, &b_name1), Link::new(3, &b_name2)];
        assert_eq!(linker(a, b), Some(LinkResult::new(2, 8000)));
    }

    {
        let a_name = names_of(&context, "Avenue Street");

        let b_name1 = names_of(&context, "Ave");
        let b_name2 = names_of(&context, "Avenida");

        let a = Link::new(1, &a_name);
        let b = vec![Link::new(2, &b_name1), Link::new(3, &b_name2)];
        // A name made entirely of recognized tokens that covers the whole
        // candidate token by token is a full overlap: the raw distance is
        // zero and the score is 100.
        assert_eq!(linker(a, b), Some(LinkResult::new(2, 10000)));
    }

    // === Intentional Non-Matches ===
    // The following tests should *NOT* match one of the given potential matches

    {
        let a_name = names_of(&context, "1st Street West");
        let b_name = names_of(&context, "2nd Street West");
        let a = Link::new(1, &a_name);
        let b = vec![Link::new(2, &b_name)];
        assert_eq!(linker(a, b), None);
    }

    {
        let a_name = names_of(&context, "1st Street West");
        let b_name = names_of(&context, "3rd Street West");
        let a = Link::new(1, &a_name);
        let b = vec![Link::new(2, &b_name)];
        assert_eq!(linker(a, b), None);
    }

    {
        let a_name = names_of(&context, "1st Street West");
        let b_name = names_of(&context, "4th Street West");
        let a = Link::new(1, &a_name);
        let b = vec![Link::new(2, &b_name)];
        assert_eq!(linker(a, b), None);
    }

    {
        let a_name = names_of(&context, "11th Street West");
        let b_name = names_of(&context, "21st Street West");
        let a = Link::new(1, &a_name);
        let b = vec![Link::new(2, &b_name)];
        assert_eq!(linker(a, b), None);
    }

    {
        let a_name = names_of(&context, "US Route 60 East");
        let b_name = names_of(&context, "US Route 51 West");
        let a = Link::new(1, &a_name);
        let b = vec![Link::new(2, &b_name)];
        assert_eq!(linker(a, b), None);
    }
}

#[test]
fn test_linker_threshold_boundary() {
    // Two ten-character names at edit distance 3 score exactly 70.00; the
    // comparison is strict, so the match is rejected.
    let context = link_context();
    {
        let a_name = names_of(&context, "aaaaaaaaaa");
        let b_name = names_of(&context, "aaaaaaabbb");
        let a = Link::new(1, &a_name);
        let b = vec![Link::new(2, &b_name)];
        assert_eq!(linker(a, b), None);
    }
    // Two eleven-character names at edit distance 3 score 72.73: just above
    // the threshold, so the match is accepted.
    {
        let a_name = names_of(&context, "aaaaaaaaaaa");
        let b_name = names_of(&context, "aaaaaaaabbb");
        let a = Link::new(1, &a_name);
        let b = vec![Link::new(2, &b_name)];
        assert_eq!(linker(a, b), Some(LinkResult::new(2, 7273)));
    }
    // At edit distance 4 the ten-character names score 60: below the
    // threshold.
    {
        let a_name = names_of(&context, "aaaaaaaaaa");
        let b_name = names_of(&context, "aaaaaabbbb");
        let a = Link::new(1, &a_name);
        let b = vec![Link::new(2, &b_name)];
        assert_eq!(linker(a, b), None);
    }
}

#[test]
fn test_linker_no_candidates() {
    let context = link_context();
    let a_name = names_of(&context, "Main Street");
    let a = Link::new(1, &a_name);
    assert_eq!(linker(a, Vec::new()), None);
}

#[test]
fn test_linker_first_of_equal_scores() {
    // Ties keep the earliest candidate.
    let context = link_context();
    let a_name = names_of(&context, "Main Street");
    let b_name1 = names_of(&context, "Maim Street");
    let b_name2 = names_of(&context, "Maim Street");
    let a = Link::new(1, &a_name);
    let b = vec![Link::new(7, &b_name1), Link::new(8, &b_name2)];
    assert_eq!(linker(a, b), Some(LinkResult::new(7, 8571)));
}
