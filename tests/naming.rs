use benzina::{EnumCodec, EnumVariant, RenameRule};

#[test]
fn rename_rules_format_names() {
    assert_eq!(RenameRule::Unchanged.format("HelloWorld"), "HelloWorld");
    assert_eq!(RenameRule::LowerCase.format("HelloWorld"), "helloworld");
    assert_eq!(RenameRule::UpperCase.format("HelloWorld"), "HELLOWORLD");
    assert_eq!(RenameRule::PascalCase.format("hello_world"), "HelloWorld");
    assert_eq!(RenameRule::CamelCase.format("HelloWorld"), "helloWorld");
    assert_eq!(RenameRule::SnakeCase.format("HelloWorld"), "hello_world");
    assert_eq!(RenameRule::ScreamingSnakeCase.format("HelloWorld"), "HELLO_WORLD");
    assert_eq!(RenameRule::KebabCase.format("HelloWorld"), "hello-world");
    assert_eq!(RenameRule::ScreamingKebabCase.format("HelloWorld"), "HELLO-WORLD");
}

#[test]
fn rename_rule_spellings() {
    assert_eq!("lowercase".parse::<RenameRule>(), Ok(RenameRule::LowerCase));
    assert_eq!("UPPERCASE".parse::<RenameRule>(), Ok(RenameRule::UpperCase));
    assert_eq!("PascalCase".parse::<RenameRule>(), Ok(RenameRule::PascalCase));
    assert_eq!("camelCase".parse::<RenameRule>(), Ok(RenameRule::CamelCase));
    assert_eq!("snake_case".parse::<RenameRule>(), Ok(RenameRule::SnakeCase));
    assert_eq!("SCREAMING_SNAKE_CASE".parse::<RenameRule>(), Ok(RenameRule::ScreamingSnakeCase));
    assert_eq!("kebab-case".parse::<RenameRule>(), Ok(RenameRule::KebabCase));
    assert_eq!("SCREAMING-KEBAB-CASE".parse::<RenameRule>(), Ok(RenameRule::ScreamingKebabCase));
    assert_eq!("Snake".parse::<RenameRule>(), Err("invalid rename rule".to_string()));
}

fn variant(name: &str, rename: Option<&str>) -> EnumVariant {
    EnumVariant { name: name.to_string(), rename: rename.map(|r| r.to_string()) }
}

#[test]
fn enum_codec_encodes_and_decodes() {
    let variants = vec![
        variant("InProgress", None),
        variant("Done", Some("finished")),
        variant("NotStarted", None),
    ];
    let codec = EnumCodec::new(&variants, RenameRule::SnakeCase);
    assert_eq!(codec.len(), 3);
    assert_eq!(codec.encode(0), "in_progress");
    assert_eq!(codec.encode(1), "finished");
    assert_eq!(codec.encode(2), "not_started");
    assert_eq!(codec.decode("in_progress"), Some(0));
    assert_eq!(codec.decode("finished"), Some(1));
    assert_eq!(codec.decode("done"), None);
    assert_eq!(codec.decode("InProgress"), None);
    for i in 0..codec.len() {
        assert_eq!(codec.decode(codec.encode(i)), Some(i));
    }
}

#[test]
fn enum_codec_first_variant_wins() {
    let variants = vec![variant("A", Some("x")), variant("B", Some("x"))];
    let codec = EnumCodec::new(&variants, RenameRule::Unchanged);
    assert_eq!(codec.decode("x"), Some(0));
}
