use conreg::configs::{merge_values, Configs};
use conreg::parse::parse_yaml;
use conreg::value::{value_eq, ConfigValue};

fn get_cloned(c: &Configs, key: &str) -> Option<ConfigValue> {
    c.get(key).map(conreg::value::deep_copy)
}

#[test]
fn test_app_config() {
    let contents = vec![
        r#"
            a: 1
            b: 2
            c:
              d: 3
              e: 4
              f:
                g: 0
            h:
              - 1
              - 2
            "#
        .to_string(),
        r#"
            a: 5
            b: 6
            c:
              d: 7
              e: 8
              f: x
            1: -1
            h:
              - 1
              - 3
            "#
        .to_string(),
    ];
    let config = Configs::from_contents(contents).unwrap();
    println!("{:?}", config.get_all());
    println!("{:?}", config.get("a"));
    println!("{:?}", config.get("h"));
    assert!(value_eq(config.get("a").unwrap(), &ConfigValue::Int(5)));
    assert!(value_eq(config.get("b").unwrap(), &ConfigValue::Int(6)));
    assert!(value_eq(config.get("c.d").unwrap(), &ConfigValue::Int(7)));
    assert!(value_eq(config.get("c.e").unwrap(), &ConfigValue::Int(8)));
    // the second document replaces the nested mapping under c.f wholesale
    assert!(value_eq(
        config.get("c.f").unwrap(),
        &ConfigValue::Str("x".to_string())
    ));
    assert!(config.get("c.f.g").is_none());
    // the numeric key stringifies canonically
    assert!(value_eq(config.get("1").unwrap(), &ConfigValue::Int(-1)));
    // the list is replaced, not merged
    let h = get_cloned(&config, "h").unwrap();
    assert!(value_eq(
        &h,
        &ConfigValue::Sequence(vec![ConfigValue::Int(1), ConfigValue::Int(3)])
    ));
}

#[test]
fn config_test_app_config() {
    let contents = vec![
        "name: alice\nage: 3\n".to_string(),
        "age: 4\n".to_string(),
    ];
    let config = Configs::from_contents(contents).unwrap();
    assert!(value_eq(
        config.get("name").unwrap(),
        &ConfigValue::Str("alice".to_string())
    ));
    assert!(value_eq(config.get("age").unwrap(), &ConfigValue::Int(4)));
}

#[test]
fn flatten_yields_exactly_the_dotted_leaf() {
    let config = Configs::from_contents(vec!["a:\n  b:\n    c: 1\n".to_string()]).unwrap();
    assert_eq!(config.get_all().len(), 1);
    assert_eq!(config.get_all()[0].0, "a.b.c");
    assert!(value_eq(config.get("a.b.c").unwrap(), &ConfigValue::Int(1)));
    assert!(config.get("a").is_none());
    assert!(config.get("a.b").is_none());
    assert!(config.contains("a.b.c"));
    assert!(!config.contains("a.b.c.d"));
}

#[test]
fn merge_order_prefers_later_documents() {
    // merging {a:1, b:{x:1}} then {b:{x:2, y:3}} gives {a:1, b:{x:2, y:3}}
    let first = parse_yaml("a: 1\nb:\n  x: 1\n").unwrap();
    let second = parse_yaml("b:\n  x: 2\n  y: 3\n").unwrap();
    let merged = merge_values(&first, &second);
    let expected = parse_yaml("a: 1\nb:\n  x: 2\n  y: 3\n").unwrap();
    assert!(value_eq(&merged, &expected));
}

#[test]
fn blank_documents_are_skipped() {
    let config =
        Configs::from_contents(vec!["   \n\t".to_string(), "k: v\n".to_string()]).unwrap();
    assert!(value_eq(
        config.get("k").unwrap(),
        &ConfigValue::Str("v".to_string())
    ));
}

#[test]
fn unparsable_content_is_an_error() {
    assert!(Configs::from_contents(vec!["a: [unclosed\n".to_string()]).is_err());
}
