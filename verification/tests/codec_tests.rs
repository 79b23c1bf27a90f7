use itemstore::{decode, encode, Item};

fn item(id: &str, title: &str, completed: bool) -> Item {
    Item { id: String::from(id), title: String::from(title), completed }
}

#[test]
fn encode_empty_collection() {
    let items: Vec<Item> = Vec::new();
    assert_eq!(encode(&items), "[]");
}

#[test]
fn encode_one_item_exact() {
    let items = vec![item("1", "buy milk", false)];
    assert_eq!(encode(&items), "[[\"buy milk\",false,\"1\"]]");
}

#[test]
fn encode_two_items_exact() {
    let items = vec![item("1", "buy milk", false), item("2", "walk dog", true)];
    assert_eq!(encode(&items), "[[\"buy milk\",false,\"1\"],[\"walk dog\",true,\"2\"]]");
}

#[test]
fn encode_escapes_quotes_and_backslashes() {
    let items = vec![item("a\\b", "say \"hi\"", true)];
    assert_eq!(encode(&items), "[[\"say \\\"hi\\\"\",true,\"a\\\\b\"]]");
}

#[test]
fn decode_empty_collection() {
    let items = decode("[]").unwrap();
    assert_eq!(items.len(), 0);
}

#[test]
fn round_trip_plain_items() {
    let items = vec![item("1", "buy milk", false), item("2", "walk dog", true)];
    let back = decode(&encode(&items)).unwrap();
    assert_eq!(back.len(), 2);
    for (a, b) in items.iter().zip(back.iter()) {
        assert_eq!(a.id, b.id);
        assert_eq!(a.title, b.title);
        assert_eq!(a.completed, b.completed);
    }
}

#[test]
fn round_trip_special_characters() {
    let items = vec![
        item("id \"quoted\"", "a \\ b \\\\ c", true),
        item("", "", false),
        item("unicode \u{00e9}\u{4e2d}", "tab\tnewline\n", true),
    ];
    let back = decode(&encode(&items)).unwrap();
    assert_eq!(back.len(), 3);
    for (a, b) in items.iter().zip(back.iter()) {
        assert_eq!(a.id, b.id);
        assert_eq!(a.title, b.title);
        assert_eq!(a.completed, b.completed);
    }
}

#[test]
fn decode_rejects_bare_string() {
    assert!(decode("not json array").is_err());
}

#[test]
fn decode_rejects_empty_input() {
    assert!(decode("").is_err());
}

#[test]
fn decode_rejects_missing_flag() {
    // The element is a two-field array: the completed flag is missing.
    assert!(decode("[[\"buy milk\",\"1\"]]").is_err());
}

#[test]
fn decode_rejects_wrong_field_types() {
    // Title is not a string.
    assert!(decode("[[true,true,\"1\"]]").is_err());
    // Flag is not a boolean.
    assert!(decode("[[\"a\",\"x\",\"1\"]]").is_err());
    // Id is not a string.
    assert!(decode("[[\"a\",false,1]]").is_err());
}

#[test]
fn decode_rejects_trailing_text() {
    assert!(decode("[]x").is_err());
    assert!(decode("[[\"a\",false,\"1\"]] ").is_err());
}

#[test]
fn decode_rejects_unterminated_string() {
    assert!(decode("[[\"a,false,\"1\"]]").is_err());
    assert!(decode("[[\"a\\\",false,\"1\"]]").is_err());
}
