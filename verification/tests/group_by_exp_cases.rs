use liquid::model::Value as LiquidValue;
use liquid::Object;

use rustkyll::filters::grouping::GroupByExp;
use rustkyll::value::Value;

fn make_item(props: &[(&str, &str)]) -> Value {
    Value::Object(props.iter().map(|(k, v)| (k.to_string(), Value::Str(v.to_string()))).collect())
}

fn to_liquid(v: &Value) -> LiquidValue {
    match v {
        Value::Nil => LiquidValue::Nil,
        Value::Bool(b) => LiquidValue::scalar(*b),
        Value::Int(i) => LiquidValue::scalar(*i),
        Value::Float(t) => LiquidValue::scalar(t.clone()),
        Value::Str(x) => LiquidValue::scalar(x.clone()),
        Value::Array(items) => LiquidValue::Array(items.iter().map(to_liquid).collect()),
        Value::Object(entries) => {
            let mut o = Object::new();
            for (k, x) in entries {
                o.insert(k.clone().into(), to_liquid(x));
            }
            LiquidValue::Object(o)
        }
    }
}

/// What `{{ expression }}` renders to with `var_name` bound to the item,
/// trimmed; the empty string where it does not parse or render.
fn render_key(expression: &str, var_name: &str, item: &Value) -> String {
    let parser = liquid::ParserBuilder::with_stdlib().build().unwrap();
    let template = match parser.parse(&format!("{{{{ {} }}}}", expression)) {
        Ok(t) => t,
        Err(_) => return String::new(),
    };
    let mut globals = Object::new();
    globals.insert(var_name.to_string().into(), to_liquid(item));
    match template.render(&globals) {
        Ok(out) => out.trim().to_string(),
        Err(_) => String::new(),
    }
}

/// The filter as a template calls it: the expression is rendered for each
/// item, and the library groups the items by what came out.
fn group_by_exp(input: &Value, var_name: &str, expression: &str) -> Value {
    let keys: Vec<String> = match input {
        Value::Array(items) => items.iter().map(|it| render_key(expression, var_name, it)).collect(),
        _ => Vec::new(),
    };
    GroupByExp.evaluate(input, &keys)
}

fn groups(v: &Value) -> &Vec<Value> {
    match v {
        Value::Array(items) => items,
        _ => panic!("expected an array"),
    }
}

fn field<'a>(group: &'a Value, key: &str) -> Option<&'a Value> {
    match group {
        Value::Object(entries) => entries.iter().find(|(k, _)| k == key).map(|(_, x)| x),
        _ => None,
    }
}

fn name(group: &Value) -> String {
    match field(group, "name") {
        Some(Value::Str(s)) => s.clone(),
        _ => panic!("group without a name"),
    }
}

fn size_text(group: &Value) -> String {
    match field(group, "size") {
        Some(Value::Int(i)) => i.to_string(),
        _ => panic!("group without a size"),
    }
}

fn item_count(group: &Value) -> usize {
    match field(group, "items") {
        Some(Value::Array(items)) => items.len(),
        _ => panic!("group without items"),
    }
}

#[test]
fn test_group_by_exp_simple_property() {
    let input = Value::Array(vec![
        make_item(&[("category", "tech"), ("title", "Post 1")]),
        make_item(&[("category", "life"), ("title", "Post 2")]),
        make_item(&[("category", "tech"), ("title", "Post 3")]),
    ]);
    let result = group_by_exp(&input, "item", "item.category");
    let arr = groups(&result);
    assert_eq!(arr.len(), 2);
    assert_eq!(name(&arr[0]), "tech");
    assert_eq!(item_count(&arr[0]), 2);
    assert_eq!(size_text(&arr[0]), "2");
    assert_eq!(name(&arr[1]), "life");
    assert_eq!(item_count(&arr[1]), 1);
    assert_eq!(size_text(&arr[1]), "1");
}

#[test]
fn test_group_by_exp_with_filter_chain() {
    let input = Value::Array(vec![
        make_item(&[("name", "Alice")]),
        make_item(&[("name", "BOB")]),
        make_item(&[("name", "alice")]),
    ]);
    let result = group_by_exp(&input, "item", "item.name | downcase");
    let arr = groups(&result);
    assert_eq!(arr.len(), 2);
    assert_eq!(name(&arr[0]), "alice");
    assert_eq!(item_count(&arr[0]), 2);
}

#[test]
fn test_group_by_exp_all_same_group() {
    let input = Value::Array(vec![
        make_item(&[("type", "x")]),
        make_item(&[("type", "x")]),
        make_item(&[("type", "x")]),
    ]);
    let result = group_by_exp(&input, "item", "item.type");
    let arr = groups(&result);
    assert_eq!(arr.len(), 1);
    assert_eq!(size_text(&arr[0]), "3");
}

#[test]
fn test_group_by_exp_empty_array() {
    let result = group_by_exp(&Value::Array(vec![]), "item", "item.category");
    assert_eq!(groups(&result).len(), 0);
}

#[test]
fn test_group_by_exp_non_array_input() {
    let result = group_by_exp(&Value::Str("not an array".to_string()), "item", "item.category");
    assert_eq!(groups(&result).len(), 0);
}

#[test]
fn test_group_by_exp_missing_property() {
    let input = Value::Array(vec![make_item(&[("category", "tech")]), make_item(&[("other", "val")])]);
    let result = group_by_exp(&input, "item", "item.category");
    assert_eq!(groups(&result).len(), 2);
}

#[test]
fn test_group_by_exp_multiple_filter_pipes() {
    let input = Value::Array(vec![make_item(&[("name", "  Alice  ")]), make_item(&[("name", "ALICE")])]);
    let result = group_by_exp(&input, "item", "item.name | downcase | strip");
    let arr = groups(&result);
    assert_eq!(arr.len(), 1);
    assert_eq!(name(&arr[0]), "alice");
}

#[test]
fn test_group_by_exp_has_name_items_size() {
    let input = Value::Array(vec![make_item(&[("color", "red")])]);
    let result = group_by_exp(&input, "item", "item.color");
    let group = &groups(&result)[0];
    assert!(field(group, "name").is_some());
    assert!(field(group, "items").is_some());
    assert!(field(group, "size").is_some());
}

#[test]
fn test_group_by_exp_truncate_filter() {
    let input = Value::Array(vec![
        make_item(&[("date", "2024-01-15")]),
        make_item(&[("date", "2024-06-20")]),
        make_item(&[("date", "2023-03-10")]),
    ]);
    let result = group_by_exp(&input, "post", "post.date | truncate: 4, \"\"");
    let arr = groups(&result);
    assert_eq!(arr.len(), 2);
    let names: Vec<String> = arr.iter().map(name).collect();
    assert!(names.contains(&"2024".to_string()));
    assert!(names.contains(&"2023".to_string()));
    for g in arr {
        if name(g) == "2024" {
            assert_eq!(size_text(g), "2");
        }
    }
}

#[test]
fn group_by_exp_keeps_items_in_order_within_a_group() {
    let input = Value::Array(vec![
        make_item(&[("k", "a"), ("n", "1")]),
        make_item(&[("k", "b"), ("n", "2")]),
        make_item(&[("k", "a"), ("n", "3")]),
    ]);
    let keys = vec!["a".to_string(), "b".to_string(), "a".to_string()];
    let result = GroupByExp.evaluate(&input, &keys);
    let arr = groups(&result);
    match field(&arr[0], "items") {
        Some(Value::Array(items)) => {
            let ns: Vec<String> = items
                .iter()
                .map(|it| match field(it, "n") {
                    Some(Value::Str(s)) => s.clone(),
                    _ => String::new(),
                })
                .collect();
            assert_eq!(ns, vec!["1", "3"]);
        }
        _ => panic!("expected items"),
    }
}
