use novawm::kdl_doc::{parse_config_document, ConfigValue};

#[test]
fn documents_become_plain_nodes() {
    let nodes = parse_config_document("a 1 2.5 \"x\" #true #null { b }\nc").unwrap();
    assert_eq!(nodes.len(), 2);
    assert_eq!(nodes[0].name, "a");
    assert!(matches!(nodes[0].entries[0], ConfigValue::Integer(1)));
    assert!(matches!(nodes[0].entries[1], ConfigValue::Float(b) if b == 2.5f64.to_bits()));
    assert!(matches!(&nodes[0].entries[2], ConfigValue::Text(s) if s == "x"));
    assert!(matches!(nodes[0].entries[3], ConfigValue::Bool(true)));
    assert!(matches!(nodes[0].entries[4], ConfigValue::Null));
    let kids = nodes[0].children.as_ref().unwrap();
    assert_eq!(kids[0].name, "b");
    assert!(nodes[1].children.is_none());
    assert!(parse_config_document("a {").is_none());
}
