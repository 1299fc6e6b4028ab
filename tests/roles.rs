use userman::apps::{Oid, Role};
use userman::error::UmtError;
use userman::roles::{DataOptions, DataValue, Item, RoleItems, RoleValues, Value};

fn value(name: &str, data: DataValue) -> Value {
    Value { name: name.to_string(), data, options: None }
}

fn role_a() -> Role {
    Role {
        id: None,
        app: Oid("64b7f0c2a1b2c3d4e5f60718".to_string()),
        name: "admin".to_string(),
        items: RoleItems::new(vec![
            Item {
                name: "item_2".to_string(),
                values: RoleValues::default(),
                items: RoleItems::new(vec![
                    Item {
                        name: "sub_item_2".to_string(),
                        values: RoleValues(vec![Value {
                            name: "value_2".to_string(),
                            data: DataValue::Float(2.5f64.to_bits()),
                            options: Some(DataOptions {
                                min_value: DataValue::Float(1.0f64.to_bits()),
                                max_value: DataValue::Float(100.0f64.to_bits()),
                            }),
                        }]),
                        items: RoleItems::default(),
                    },
                    Item {
                        name: "sub_item_1".to_string(),
                        values: RoleValues(vec![
                            value("value_4", DataValue::Boolean(true)),
                            value("value_3", DataValue::String("text".to_string())),
                        ]),
                        items: RoleItems::default(),
                    },
                ]),
            },
            Item {
                name: "item_1".to_string(),
                values: RoleValues::default(),
                items: RoleItems::new(vec![Item {
                    name: "sub_item_4".to_string(),
                    values: RoleValues(vec![
                        value("value_6", DataValue::Integer(-2)),
                        value("value_3", DataValue::Integer(2)),
                    ]),
                    items: RoleItems::default(),
                }]),
            },
        ]),
    }
}

fn role_b() -> Role {
    Role {
        id: None,
        app: Oid("64b7f0c2a1b2c3d4e5f60719".to_string()),
        name: "admin".to_string(),
        items: RoleItems::new(vec![Item {
            name: "item_2".to_string(),
            values: RoleValues::default(),
            items: RoleItems::new(vec![
                Item {
                    name: "sub_item_2".to_string(),
                    values: RoleValues(vec![value("value_2", DataValue::Float(5.0f64.to_bits()))]),
                    items: RoleItems::default(),
                },
                Item {
                    name: "sub_item_1".to_string(),
                    values: RoleValues(vec![
                        value("value_4", DataValue::Boolean(false)),
                        value("value_3", DataValue::String("text".to_string())),
                    ]),
                    items: RoleItems::default(),
                },
            ]),
        }]),
    }
}

#[test]
fn merge_roles() {
    let mut default_role = role_a();
    let local_role = role_b();

    local_role.items.merge(&mut default_role.items);

    let item_2 = default_role.items.find("item_2").unwrap();

    let sub_item_2 = item_2.items.find("sub_item_2").unwrap();

    assert_eq!(sub_item_2.values.inner()[0].name, "value_2");
    assert_eq!(sub_item_2.values.inner()[0].data, DataValue::Float(5.0f64.to_bits()));

    let sub_item_1 = item_2.items.find("sub_item_1").unwrap();

    assert_eq!(sub_item_1.values.inner()[0].name, "value_4");
    assert_eq!(sub_item_1.values.inner()[0].data, DataValue::Boolean(false));

    assert_eq!(sub_item_1.values.inner()[1].name, "value_3");
    assert_eq!(
        sub_item_1.values.inner()[1].data,
        DataValue::String("text".to_string())
    );

    let item_1 = default_role.items.find("item_1").unwrap();

    let sub_item_4 = item_1.items.find("sub_item_4").unwrap();

    assert_eq!(sub_item_4.values.inner()[0].name, "value_6");
    assert_eq!(sub_item_4.values.inner()[0].data, DataValue::Integer(-2));

    assert_eq!(sub_item_4.values.inner()[1].name, "value_3");
    assert_eq!(sub_item_4.values.inner()[1].data, DataValue::Integer(2));
}

#[test]
fn merge_keeps_destination_bounds() {
    let mut template = role_a().items;
    role_b().items.merge(&mut template);
    let v = template.find_path(&["item_2", "sub_item_2", "value_2"]).unwrap();
    assert_eq!(v.data, DataValue::Float(5.0f64.to_bits()));
    assert_eq!(
        v.options,
        Some(DataOptions {
            min_value: DataValue::Float(1.0f64.to_bits()),
            max_value: DataValue::Float(100.0f64.to_bits()),
        })
    );
}

#[test]
fn merge_with_copy_of_itself_changes_nothing() {
    let tree = role_a().items;
    let mut copy = tree.copied();
    tree.merge(&mut copy);
    assert_eq!(copy, tree);
}

#[test]
fn merge_keeps_destination_shape() {
    let mut template = role_b().items;
    let overrides = role_a().items;
    overrides.merge(&mut template);
    assert_eq!(template.0.len(), 1);
    assert_eq!(template.0[0].name, "item_2");
    assert!(template.find("item_1").is_none());
    let names: Vec<&str> = template.0[0].items.0.iter().map(|i| i.name.as_str()).collect();
    assert_eq!(names, vec!["sub_item_2", "sub_item_1"]);
}

#[test]
fn merge_drops_values_only_in_source() {
    let mut template = RoleItems::new(vec![Item {
        name: "users".to_string(),
        values: RoleValues(vec![value("read", DataValue::Boolean(false))]),
        items: RoleItems::default(),
    }]);
    let overrides = RoleItems::new(vec![Item {
        name: "users".to_string(),
        values: RoleValues(vec![
            value("write", DataValue::Boolean(true)),
            value("read", DataValue::Boolean(true)),
        ]),
        items: RoleItems::default(),
    }]);
    overrides.merge(&mut template);
    assert_eq!(template.0[0].values.0, vec![value("read", DataValue::Boolean(true))]);
}

#[test]
fn merge_replaces_data_across_kinds() {
    let mut template = RoleItems::new(vec![Item {
        name: "users".to_string(),
        values: RoleValues(vec![value("read", DataValue::Boolean(false))]),
        items: RoleItems::default(),
    }]);
    let overrides = RoleItems::new(vec![Item {
        name: "users".to_string(),
        values: RoleValues(vec![value("read", DataValue::Integer(3))]),
        items: RoleItems::default(),
    }]);
    overrides.merge(&mut template);
    assert_eq!(template.0[0].values.0[0].data, DataValue::Integer(3));
}

#[test]
fn find_path_finds_nested_value() {
    let tree = role_a().items;
    let v = tree.find_path(&["item_1", "sub_item_4", "value_6"]).unwrap();
    assert_eq!(v.name, "value_6");
    assert_eq!(v.data, DataValue::Integer(-2));
}

#[test]
fn find_path_reports_missing_segments() {
    let tree = role_a().items;
    assert_eq!(tree.find_path(&["item_3", "sub_item_4", "value_6"]), Err(UmtError::NotFound));
    assert_eq!(tree.find_path(&["item_1", "sub_item_9", "value_6"]), Err(UmtError::NotFound));
    assert_eq!(tree.find_path(&["item_1", "sub_item_4", "value_9"]), Err(UmtError::NotFound));
    assert_eq!(tree.find_path(&["item_1"]), Err(UmtError::NotFound));
    assert_eq!(tree.find_path(&[]), Err(UmtError::NotFound));
}

#[test]
fn allows_only_true_booleans() {
    let tree = role_a().items;
    assert!(tree.allows(&["item_2", "sub_item_1", "value_4"]));
    assert!(!tree.allows(&["item_2", "sub_item_1", "value_3"]));
    assert!(!tree.allows(&["item_2", "sub_item_1", "missing"]));
    let mut denied = role_a().items;
    role_b().items.merge(&mut denied);
    assert!(!denied.allows(&["item_2", "sub_item_1", "value_4"]));
}

#[test]
fn find_is_by_exact_name() {
    let tree = role_a().items;
    assert!(tree.find("item_").is_none());
    assert!(tree.find("item_1").is_some());
    let values = &tree.find("item_2").unwrap().items.find("sub_item_1").unwrap().values;
    assert_eq!(values.find("value_3").unwrap().data, DataValue::String("text".to_string()));
    assert!(values.find("value_33").is_none());
}

#[test]
fn error_codes() {
    assert_eq!(UmtError::InvalidToken.code_number(), Some(1));
    assert_eq!(UmtError::NotFound.code_number(), None);
    assert_eq!(UmtError::DisabledUser.code_number(), None);
}

#[test]
fn upsert_value_replaces_in_place_or_appends() {
    let mut vals = RoleValues(vec![
        value("a", DataValue::Integer(1)),
        value("b", DataValue::Integer(2)),
    ]);
    vals.upsert(value("a", DataValue::Integer(10)));
    assert_eq!(vals.0, vec![value("a", DataValue::Integer(10)), value("b", DataValue::Integer(2))]);
    vals.upsert(value("c", DataValue::Boolean(true)));
    assert_eq!(vals.0.len(), 3);
    assert_eq!(vals.0[2], value("c", DataValue::Boolean(true)));
}

#[test]
fn upsert_item_keeps_first_seen_order() {
    let mut tree = role_a().items;
    tree.upsert(Item { name: "item_2".to_string(), values: RoleValues::default(), items: RoleItems::default() });
    tree.upsert(Item { name: "item_0".to_string(), values: RoleValues::default(), items: RoleItems::default() });
    let names: Vec<&str> = tree.0.iter().map(|i| i.name.as_str()).collect();
    assert_eq!(names, vec!["item_2", "item_1", "item_0"]);
    assert!(tree.find("item_2").unwrap().items.0.is_empty());
}
