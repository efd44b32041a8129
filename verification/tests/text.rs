use street_linker::{
    distance, is_drivethrough, is_numbered, is_routish, str_remove_octo, syn_ca_french,
    syn_ca_hwy, syn_number_suffix, syn_state_hwy, syn_us_cr, syn_us_hwy, syn_written_numeric,
    Context, Name, Tokens,
};

fn ctx(country: &str, region: Option<&str>) -> Context {
    Context::new(
        String::from(country),
        region.map(String::from),
        Tokens::new(Vec::new()),
    )
}

#[test]
fn test_distance() {
    assert_eq!(distance("a", "b"), 1);
    assert_eq!(distance("ab", "ac"), 1);
    assert_eq!(distance("ac", "bc"), 1);
    assert_eq!(distance("abc", "axc"), 1);
    assert_eq!(distance("xabxcdxxefxgx", "1ab2cd34ef5g6"), 6);

    assert_eq!(distance("xabxcdxxefxgx", "abcdefg"), 6);
    assert_eq!(distance("javawasneat", "scalaisgreat"), 7);
    assert_eq!(distance("example", "samples"), 3);
    assert_eq!(distance("forward", "drawrof"), 6);
    assert_eq!(distance("sturgeon", "urgently"), 6);
    assert_eq!(distance("levenshtein", "frankenstein"), 6);
    assert_eq!(distance("distance", "difference"), 5);
    assert_eq!(distance("distance", "eistancd"), 2);

    assert_eq!(distance("你好世界", "你好"), 2);
    assert_eq!(
        distance("因為我是中國人所以我會說中文", "因為我是英國人所以我會說英文"),
        2
    );

    assert_eq!(
        distance(
            "Morbi interdum ultricies neque varius condimentum. Donec volutpat turpis interdum metus ultricies vulputate. Duis ultricies rhoncus sapien, sit amet fermentum risus imperdiet vitae. Ut et lectus",
            "Duis erat dolor, cursus in tincidunt a, lobortis in odio. Cras magna sem, pharetra et iaculis quis, faucibus quis tellus. Suspendisse dapibus sapien in justo cursus"
        ),
        143
    );
}

#[test]
fn test_is_drivethrough() {
    let context = ctx("us", None);

    assert_eq!(is_drivethrough(&String::from("Main St NE"), &context), false);
    assert_eq!(
        is_drivethrough(&String::from("McDonalds einfahrt"), &context),
        false
    );

    let context = ctx("de", None);
    assert_eq!(
        is_drivethrough(&String::from("McDonalds einfahrt"), &context),
        true
    );
    assert_eq!(
        is_drivethrough(&String::from("Burger King Drive-through"), &context),
        true
    );
    assert_eq!(
        is_drivethrough(&String::from("McDonalds Drivethrough"), &context),
        true
    );
    assert_eq!(
        is_drivethrough(&String::from("McDonalds Drive through"), &context),
        true
    );
    assert_eq!(
        is_drivethrough(&String::from("McDonalds Drivethru"), &context),
        true
    );
}

#[test]
fn test_syn_us_cr() {
    let context = ctx("us", None);

    assert_eq!(
        syn_us_cr(&Name::new(String::from(""), 0, &context), &context),
        vec![]
    );

    let results = vec![
        Name::new(String::from("CR 123"), -1, &context),
        Name::new(String::from("County Road 123"), 1, &context),
    ];

    assert_eq!(
        syn_us_cr(&Name::new(String::from("County Road 123"), 0, &context), &context),
        results
    );
    assert_eq!(
        syn_us_cr(&Name::new(String::from("CR 123"), 0, &context), &context),
        results
    );
}

#[test]
fn test_syn_ca_french() {
    let context = ctx("ca", Some("qc"));

    assert_eq!(
        syn_ca_french(&Name::new(String::from(""), 0, &context), &context),
        vec![]
    );

    // Successful replacements
    assert_eq!(
        syn_ca_french(&Name::new(String::from("r principale"), 0, &context), &context),
        vec![Name::new(String::from("principale"), -1, &context)]
    );

    // Ignored replacements
    assert_eq!(
        syn_ca_french(&Name::new(String::from("r des peupliers"), 0, &context), &context),
        vec![]
    );
    assert_eq!(
        syn_ca_french(&Name::new(String::from("ch des hauteurs"), 0, &context), &context),
        vec![]
    );
    assert_eq!(
        syn_ca_french(&Name::new(String::from("r du blizzard"), 0, &context), &context),
        vec![]
    );
    assert_eq!(
        syn_ca_french(&Name::new(String::from("bd de lhotel de vl"), 0, &context), &context),
        vec![]
    );
}

#[test]
fn test_syn_ca_hwy() {
    let context = ctx("ca", Some("on"));

    assert_eq!(
        syn_ca_hwy(&Name::new(String::from(""), 0, &context), &context),
        vec![]
    );

    let results = vec![
        Name::new(String::from("Highway 101"), -1, &context),
        Name::new(String::from("Route 101"), -1, &context),
        Name::new(String::from("ON 101"), -2, &context),
        Name::new(String::from("Ontario Route 101"), 1, &context),
    ];

    assert_eq!(
        syn_ca_hwy(&Name::new(String::from("101"), 0, &context), &context),
        results
    );
    assert_eq!(
        syn_ca_hwy(&Name::new(String::from("ON-101"), 0, &context), &context),
        results
    );
    assert_eq!(
        syn_ca_hwy(&Name::new(String::from("Kings's Highway 101"), 0, &context), &context),
        results
    );
    assert_eq!(
        syn_ca_hwy(&Name::new(String::from("Highway 101"), 0, &context), &context),
        results
    );
    assert_eq!(
        syn_ca_hwy(&Name::new(String::from("Route 101"), 0, &context), &context),
        results
    );
    assert_eq!(
        syn_ca_hwy(&Name::new(String::from("Ontario Highway 101"), 0, &context), &context),
        results
    );
}

#[test]
fn test_syn_us_hwy() {
    let context = ctx("us", None);

    assert_eq!(
        syn_us_hwy(&Name::new(String::from(""), 0, &context), &context),
        vec![]
    );

    let results = vec![
        Name::new(String::from("US 81"), -1, &context),
        Name::new(String::from("US Route 81"), 1, &context),
        Name::new(String::from("US Highway 81"), -1, &context),
        Name::new(String::from("United States Route 81"), -1, &context),
        Name::new(String::from("United States Highway 81"), -1, &context),
    ];

    assert_eq!(
        syn_us_hwy(&Name::new(String::from("us-81"), 0, &context), &context),
        results
    );
    assert_eq!(
        syn_us_hwy(&Name::new(String::from("US 81"), 0, &context), &context),
        results
    );
    assert_eq!(
        syn_us_hwy(&Name::new(String::from("U.S. Route 81"), 0, &context), &context),
        results
    );
    assert_eq!(
        syn_us_hwy(&Name::new(String::from("US Route 81"), 0, &context), &context),
        results
    );
    assert_eq!(
        syn_us_hwy(&Name::new(String::from("US Rte 81"), 0, &context), &context),
        results
    );
    assert_eq!(
        syn_us_hwy(&Name::new(String::from("US Hwy 81"), 0, &context), &context),
        results
    );
    assert_eq!(
        syn_us_hwy(&Name::new(String::from("US Highway 81"), 0, &context), &context),
        results
    );
    assert_eq!(
        syn_us_hwy(&Name::new(String::from("United States 81"), 0, &context), &context),
        results
    );
    assert_eq!(
        syn_us_hwy(&Name::new(String::from("United States Route 81"), 0, &context), &context),
        results
    );
    assert_eq!(
        syn_us_hwy(&Name::new(String::from("United States Highway 81"), 0, &context), &context),
        results
    );
    assert_eq!(
        syn_us_hwy(&Name::new(String::from("United States Hwy 81"), 0, &context), &context),
        results
    );
}

#[test]
fn test_syn_state_highway() {
    let context = ctx("us", Some("PA"));

    assert_eq!(
        syn_state_hwy(&Name::new(String::from(""), 0, &context), &context),
        vec![]
    );

    let results = vec![
        Name::new(String::from("PA 123 Highway"), -2, &context),
        Name::new(String::from("PA 123"), -1, &context),
        Name::new(String::from("Highway 123"), -2, &context),
        Name::new(String::from("SR 123"), -1, &context),
        Name::new(String::from("State Highway 123"), -1, &context),
        Name::new(String::from("State Route 123"), -1, &context),
        Name::new(String::from("Pennsylvania Highway 123"), 1, &context),
    ];

    assert_eq!(
        syn_state_hwy(&Name::new(String::from("State Highway 123"), 0, &context), &context),
        results
    );
    assert_eq!(
        syn_state_hwy(&Name::new(String::from("Highway 123"), 0, &context), &context),
        results
    );
    assert_eq!(
        syn_state_hwy(&Name::new(String::from("Hwy 123"), 0, &context), &context),
        results
    );
    assert_eq!(
        syn_state_hwy(&Name::new(String::from("Pennsylvania Highway 123"), 0, &context), &context),
        results
    );
    assert_eq!(
        syn_state_hwy(&Name::new(String::from("Pennsylvania Route 123"), 0, &context), &context),
        results
    );
    assert_eq!(
        syn_state_hwy(&Name::new(String::from("PA 123"), 0, &context), &context),
        results
    );
    assert_eq!(
        syn_state_hwy(&Name::new(String::from("PA-123"), 0, &context), &context),
        results
    );
    assert_eq!(
        syn_state_hwy(&Name::new(String::from("US-PA-123"), 0, &context), &context),
        results
    );
}

#[test]
fn test_syn_number_suffix() {
    let context = ctx("us", None);

    assert_eq!(
        syn_number_suffix(&Name::new(String::from("1st Avenue"), 0, &context), &context),
        Vec::new()
    );
    assert_eq!(
        syn_number_suffix(&Name::new(String::from("1 Avenue"), 0, &context), &context),
        vec![Name::new(String::from("1st Avenue"), -1, &context)]
    );
    assert_eq!(
        syn_number_suffix(&Name::new(String::from("2 Avenue"), 0, &context), &context),
        vec![Name::new(String::from("2nd Avenue"), -1, &context)]
    );
    assert_eq!(
        syn_number_suffix(&Name::new(String::from("3 Street"), 0, &context), &context),
        vec![Name::new(String::from("3rd Street"), -1, &context)]
    );
    assert_eq!(
        syn_number_suffix(&Name::new(String::from("4 Street"), 0, &context), &context),
        vec![Name::new(String::from("4th Street"), -1, &context)]
    );
    assert_eq!(
        syn_number_suffix(&Name::new(String::from("20 Street"), 0, &context), &context),
        vec![Name::new(String::from("20th Street"), -1, &context)]
    );
    assert_eq!(
        syn_number_suffix(&Name::new(String::from("21 Street"), 0, &context), &context),
        vec![Name::new(String::from("21st Street"), -1, &context)]
    );
}

#[test]
fn test_syn_written_numeric() {
    let context = ctx("us", None);

    assert_eq!(
        syn_written_numeric(&Name::new(String::from("Twenty-third Avenue NW"), 0, &context), &context),
        vec![Name::new(String::from("23rd Avenue NW"), -1, &context)]
    );
    assert_eq!(
        syn_written_numeric(&Name::new(String::from("North twenty-Third Avenue"), 0, &context), &context),
        vec![Name::new(String::from("North 23rd Avenue"), -1, &context)]
    );
    assert_eq!(
        syn_written_numeric(&Name::new(String::from("TWENTY-THIRD Avenue"), 0, &context), &context),
        vec![Name::new(String::from("23rd Avenue"), -1, &context)]
    );
}

#[test]
fn test_str_remove_octo() {
    assert_eq!(
        str_remove_octo(&String::from("Highway #12 West")),
        String::from("Highway 12 West")
    );
    assert_eq!(str_remove_octo(&String::from("RTe #1")), String::from("RTe 1"));
}

#[test]
fn test_is_numbered() {
    let context = ctx("us", Some("PA"));

    assert_eq!(is_numbered(&Name::new(String::from("main st"), 0, &context)), None);
    assert_eq!(
        is_numbered(&Name::new(String::from("1st st"), 0, &context)),
        Some(String::from("1st"))
    );
    assert_eq!(
        is_numbered(&Name::new(String::from("2nd st"), 0, &context)),
        Some(String::from("2nd"))
    );
    assert_eq!(
        is_numbered(&Name::new(String::from("west 2nd st"), 0, &context)),
        Some(String::from("2nd"))
    );
    assert_eq!(
        is_numbered(&Name::new(String::from("3rd st"), 0, &context)),
        Some(String::from("3rd"))
    );
    assert_eq!(
        is_numbered(&Name::new(String::from("4th st"), 0, &context)),
        Some(String::from("4th"))
    );
    assert_eq!(
        is_numbered(&Name::new(String::from("11th ave"), 0, &context)),
        Some(String::from("11th"))
    );
    assert_eq!(
        is_numbered(&Name::new(String::from("12th ave"), 0, &context)),
        Some(String::from("12th"))
    );
    assert_eq!(
        is_numbered(&Name::new(String::from("21st av"), 0, &context)),
        Some(String::from("21st"))
    );
    assert_eq!(
        is_numbered(&Name::new(String::from("32nd av"), 0, &context)),
        Some(String::from("32nd"))
    );
    assert_eq!(
        is_numbered(&Name::new(String::from("45th av"), 0, &context)),
        Some(String::from("45th"))
    );
    assert_eq!(
        is_numbered(&Name::new(String::from("351235th av"), 0, &context)),
        Some(String::from("351235th"))
    );
}

#[test]
fn test_is_routish() {
    let context = ctx("us", Some("PA"));

    assert_eq!(is_routish(&Name::new(String::from("main st"), 0, &context)), None);
    assert_eq!(is_routish(&Name::new(String::from("1st st"), 0, &context)), None);
    assert_eq!(is_routish(&Name::new(String::from("351235th av"), 0, &context)), None);
    assert_eq!(
        is_routish(&Name::new(String::from("NC 124"), 0, &context)),
        Some(String::from("124"))
    );
    assert_eq!(
        is_routish(&Name::new(String::from("US Route 50 East"), 0, &context)),
        Some(String::from("50"))
    );
    assert_eq!(
        is_routish(&Name::new(String::from("321"), 0, &context)),
        Some(String::from("321"))
    );
    assert_eq!(
        is_routish(&Name::new(String::from("124 NC"), 0, &context)),
        Some(String::from("124"))
    );
}

#[test]
fn test_region_name() {
    let pa = ctx("us", Some("pa"));
    assert_eq!(pa.region_name(), Some(String::from("Pennsylvania")));
    let on = ctx("ca", Some("on"));
    assert_eq!(on.region_name(), Some(String::from("Ontario")));
    let none = ctx("us", None);
    assert_eq!(none.region_name(), None);
    let unknown = ctx("us", Some("zz"));
    assert_eq!(unknown.region_name(), None);
}

#[test]
fn test_number_suffix_overflow() {
    // The ordinal value must fit a 64-bit signed number, as it always did.
    let context = ctx("us", None);
    assert_eq!(
        syn_number_suffix(
            &Name::new(String::from("99999999999999999999 Avenue"), 0, &context),
            &context
        ),
        Vec::new()
    );
}
