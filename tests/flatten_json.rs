use docx_template::value::{flatten_json, record_get, JsonValue};


fn to_serde(v: &JsonValue) -> serde_json::Value {
    match v {
        JsonValue::Null => serde_json::Value::Null,
        JsonValue::Bool(b) => serde_json::Value::Bool(*b),
        JsonValue::Number { json, .. } => serde_json::from_str(json).unwrap(),
        JsonValue::Str(s) => serde_json::Value::String(s.clone()),
        JsonValue::Array(items, _) => serde_json::Value::Array(items.iter().map(to_serde).collect()),
        JsonValue::Object(fields, _) => serde_json::Value::Object(
            fields.iter().map(|(k, v)| (k.clone(), to_serde(v))).collect(),
        ),
    }
}

fn arr(items: Vec<JsonValue>) -> JsonValue {
    let text = serde_json::Value::Array(items.iter().map(to_serde).collect()).to_string();
    JsonValue::Array(items, text)
}

fn s(v: &str) -> JsonValue {
    JsonValue::Str(v.to_string())
}

fn n(v: &str) -> JsonValue {
    JsonValue::Number { json: v.to_string(), shown: v.to_string() }
}

fn obj(fields: Vec<(&str, JsonValue)>) -> JsonValue {
    let fields: Vec<(String, JsonValue)> = fields.into_iter().map(|(k, v)| (k.to_string(), v)).collect();
    let text = serde_json::Value::Object(fields.iter().map(|(k, v)| (k.clone(), to_serde(v))).collect()).to_string();
    JsonValue::Object(fields, text)
}

fn get_test_data() -> JsonValue {
    obj(vec![
        ("age", n("7")),
        ("name", s("Peter")),
        (
            "pets",
            arr(vec![
                obj(vec![("name", s("Dog1")), ("toy", JsonValue::Null), ("type", s("Dog"))]),
                obj(vec![
                    ("name", s("Cat1")),
                    (
                        "toy",
                        obj(vec![
                            ("durability", n("59.99")),
                            ("thumbnail", JsonValue::Null),
                            ("title", s("Doll1")),
                        ]),
                    ),
                    ("type", s("Cat")),
                ]),
            ]),
        ),
    ])
}

#[test]
fn test_flatten_json_0() {
    let result = flatten_json(&get_test_data());

    assert_eq!(result.len(), 2);
    assert_eq!(record_get(&result[0], "name"), Some(&s("Peter")));
    assert_eq!(record_get(&result[0], "pets.name"), Some(&s("Dog1")));
    assert_eq!(record_get(&result[1], "pets.toy.title"), Some(&s("Doll1")));
}

#[test]
fn test_flatten_json_1() {
    let result = flatten_json(&get_test_data());

    println!("Items:");
    for (i, record) in result.iter().enumerate() {
        println!("item {}: {:?}", i + 1, record);
    }

    assert_eq!(result.len(), 2);

    assert_eq!(record_get(&result[0], "name"), Some(&s("Peter")));
    assert_eq!(record_get(&result[0], "age"), Some(&n("7")));
    assert_eq!(record_get(&result[0], "pets.name"), Some(&s("Dog1")));
    assert_eq!(record_get(&result[0], "pets.type"), Some(&s("Dog")));
    assert_eq!(record_get(&result[0], "pets.toy"), Some(&JsonValue::Null));

    assert_eq!(record_get(&result[1], "name"), Some(&s("Peter")));
    assert_eq!(record_get(&result[1], "age"), Some(&n("7")));
    assert_eq!(record_get(&result[1], "pets.name"), Some(&s("Cat1")));
    assert_eq!(record_get(&result[1], "pets.type"), Some(&s("Cat")));
    assert_eq!(record_get(&result[1], "pets.toy.title"), Some(&s("Doll1")));
    assert_eq!(record_get(&result[1], "pets.toy.durability"), Some(&n("59.99")));
    assert_eq!(record_get(&result[1], "pets.toy.thumbnail"), Some(&JsonValue::Null));
}

#[test]
fn flatten_one_array_gives_one_record_per_element() {
    let value = obj(vec![
        ("city", s("Chelmsford")),
        (
            "users",
            arr(vec![
                obj(vec![("first", s("Jim"))]),
                obj(vec![("first", s("Lisa"))]),
                obj(vec![("first", s("Sam"))]),
            ]),
        ),
        ("zip", s("CM1")),
    ]);
    let result = flatten_json(&value);
    assert_eq!(result.len(), 3);
    let firsts = ["Jim", "Lisa", "Sam"];
    for (i, rec) in result.iter().enumerate() {
        assert_eq!(record_get(rec, "city"), Some(&s("Chelmsford")));
        assert_eq!(record_get(rec, "zip"), Some(&s("CM1")));
        assert_eq!(record_get(rec, "users.first"), Some(&s(firsts[i])));
        assert_eq!(record_get(rec, "first"), None);
    }
}

#[test]
fn flatten_two_arrays_gives_cross_product() {
    let value = obj(vec![
        ("a", arr(vec![n("1"), n("2")])),
        ("b", arr(vec![s("x"), s("y"), s("z")])),
        ("c", JsonValue::Bool(true)),
    ]);
    assert_eq!(flatten_json(&value).len(), 6);
}

#[test]
fn flatten_scalar_object_is_one_record() {
    let value = obj(vec![("a", s("1")), ("b", JsonValue::Null), ("c", JsonValue::Bool(false))]);
    let result = flatten_json(&value);
    assert_eq!(result.len(), 1);
    assert_eq!(
        result[0],
        vec![
            ("a".to_string(), s("1")),
            ("b".to_string(), JsonValue::Null),
            ("c".to_string(), JsonValue::Bool(false)),
        ]
    );
}

#[test]
fn flatten_non_object_is_one_empty_record() {
    let result = flatten_json(&s("plain"));
    assert_eq!(result.len(), 1);
    assert!(result[0].is_empty());
}

#[test]
fn flatten_empty_array_is_inserted_as_value() {
    let value = obj(vec![("list", arr(vec![])), ("k", s("v"))]);
    let result = flatten_json(&value);
    assert_eq!(result.len(), 1);
    assert_eq!(record_get(&result[0], "list"), Some(&arr(vec![])));
    assert_eq!(record_get(&result[0], "k"), Some(&s("v")));
}
