use json_tree_viewer::json::JsonValue;
use json_tree_viewer::paginator::{
    document_pages, get_page_size, next_page, page_json, prev_page, PAGE_THRESHOLD,
};

fn num(n: i64) -> JsonValue {
    JsonValue::Number(n.to_string())
}

fn int_array(count: i64) -> JsonValue {
    let mut items = Vec::new();
    let mut i: i64 = 0;
    while i < count {
        items.push(num(i));
        i += 1;
    }
    JsonValue::Array(items)
}

fn object_with_entries(count: i64) -> JsonValue {
    let mut entries = Vec::new();
    let mut i: i64 = 0;
    while i < count {
        entries.push((format!("k{}", i), num(i)));
        i += 1;
    }
    JsonValue::Object(entries)
}

#[test]
fn threshold_is_ten() {
    assert_eq!(PAGE_THRESHOLD, 10);
}

#[test]
fn page_size_of_scalars_is_one() {
    assert_eq!(get_page_size(&JsonValue::Null), 1);
    assert_eq!(get_page_size(&JsonValue::Bool(true)), 1);
    assert_eq!(get_page_size(&num(7)), 1);
    assert_eq!(get_page_size(&JsonValue::Text("hi".to_string())), 1);
}

#[test]
fn page_size_of_plain_containers_is_their_length() {
    assert_eq!(get_page_size(&int_array(25)), 25);
    assert_eq!(get_page_size(&object_with_entries(3)), 3);
    assert_eq!(get_page_size(&JsonValue::Array(Vec::new())), 0);
}

#[test]
fn page_size_unwraps_singleton_array_over_container() {
    let wrapped = JsonValue::Array(vec![int_array(15)]);
    assert_eq!(get_page_size(&wrapped), 15);
    let wrapped_obj = JsonValue::Array(vec![object_with_entries(4)]);
    assert_eq!(get_page_size(&wrapped_obj), 4);
    // A singleton array over a scalar is sized as the outer array.
    let wrapped_scalar = JsonValue::Array(vec![num(1)]);
    assert_eq!(get_page_size(&wrapped_scalar), 1);
}

#[test]
fn page_size_unwraps_singleton_object_over_container() {
    let wrapped = JsonValue::Object(vec![("items".to_string(), int_array(12))]);
    assert_eq!(get_page_size(&wrapped), 12);
    let wrapped_obj = JsonValue::Object(vec![("o".to_string(), object_with_entries(5))]);
    assert_eq!(get_page_size(&wrapped_obj), 5);
}

#[test]
fn plain_array_yields_one_raw_page_per_element() {
    let doc = int_array(12);
    let pages = page_json(&doc, 10);
    assert_eq!(pages.len(), 12);
    for (i, page) in pages.iter().enumerate() {
        assert_eq!(*page, num(i as i64));
    }
}

#[test]
fn wrapped_array_yields_singleton_array_pages() {
    let doc = JsonValue::Array(vec![int_array(11)]);
    assert_eq!(get_page_size(&doc), 11);
    let pages = page_json(&doc, 10);
    assert_eq!(pages.len(), 11);
    for (i, page) in pages.iter().enumerate() {
        assert_eq!(*page, JsonValue::Array(vec![num(i as i64)]));
    }
}

#[test]
fn wrapped_object_yields_single_entry_object_pages() {
    let doc = JsonValue::Object(vec![("rows".to_string(), int_array(12))]);
    let pages = page_json(&doc, 10);
    assert_eq!(pages.len(), 12);
    for (i, page) in pages.iter().enumerate() {
        assert_eq!(
            *page,
            JsonValue::Object(vec![("rows".to_string(), num(i as i64))])
        );
    }
}

#[test]
fn object_batches_by_threshold_with_remainder_last() {
    let doc = object_with_entries(25);
    let pages = page_json(&doc, 10);
    assert_eq!(pages.len(), 3);
    for (j, page) in pages.iter().enumerate() {
        let expected_len = if j < 2 { 10 } else { 5 };
        match page {
            JsonValue::Array(items) => {
                assert_eq!(items.len(), expected_len);
                for (k, item) in items.iter().enumerate() {
                    let idx = (j * 10 + k) as i64;
                    assert_eq!(
                        *item,
                        JsonValue::Object(vec![(format!("k{}", idx), num(idx))])
                    );
                }
            }
            other => panic!("expected an array page, got {:?}", other),
        }
    }
}

#[test]
fn object_batches_evenly_divisible_has_full_last_page() {
    let doc = object_with_entries(20);
    let pages = page_json(&doc, 10);
    assert_eq!(pages.len(), 2);
    for page in &pages {
        match page {
            JsonValue::Array(items) => assert_eq!(items.len(), 10),
            other => panic!("expected an array page, got {:?}", other),
        }
    }
}

#[test]
fn small_object_batches_into_one_page() {
    let doc = object_with_entries(3);
    let pages = page_json(&doc, 10);
    assert_eq!(pages.len(), 1);
}

#[test]
fn document_pages_inactive_is_the_document_itself() {
    let doc = object_with_entries(2);
    let pages = document_pages(&doc);
    assert_eq!(pages.len(), 1);
    assert_eq!(pages[0], doc);
    let scalar = num(42);
    let pages = document_pages(&scalar);
    assert_eq!(pages, vec![num(42)]);
}

#[test]
fn document_pages_active_splits() {
    let doc = int_array(25);
    let pages = document_pages(&doc);
    assert_eq!(pages.len(), 25);
    assert_eq!(pages[0], num(0));
    assert_eq!(pages[24], num(24));
}

#[test]
fn navigation_is_clamped() {
    assert_eq!(prev_page(0), 0);
    assert_eq!(prev_page(5), 4);
    assert_eq!(next_page(0, 25), 1);
    assert_eq!(next_page(23, 25), 24);
    assert_eq!(next_page(24, 25), 24);
    assert_eq!(next_page(0, 0), 0);
}
