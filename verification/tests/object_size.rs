use markdown::parser::ObjectSize;

fn size(width: Option<&str>, height: Option<&str>) -> ObjectSize {
    ObjectSize { width: width.map(|w| w.to_string()), height: height.map(|h| h.to_string()) }
}

#[test]
#[allow(non_snake_case)]
fn text_to_object_size__full() {
    assert_eq!(ObjectSize::from_text("123x456"),
        Some(ObjectSize{width: Some("123".to_string()), height: Some("456".to_string())})
    );
    assert_eq!(ObjectSize::from_text("321X654"),
        Some(ObjectSize{width: Some("321".to_string()), height: Some("654".to_string())})
    );
    assert_eq!(ObjectSize::from_text("50%x80%"),
        Some(ObjectSize{width: Some("50%".to_string()), height: Some("80%".to_string())})
    );
}

#[test]
#[allow(non_snake_case)]
fn text_to_object_size__half() {
    assert_eq!(ObjectSize::from_text("111x"),
        Some(ObjectSize{width: Some("111".to_string()), height: None})
    );
    assert_eq!(ObjectSize::from_text("x222"),
        Some(ObjectSize{width: None, height: Some("222".to_string())})
    );
    assert_eq!(ObjectSize::from_text("333"),
        Some(ObjectSize{width: Some("333".to_string()), height: None})
    );
    assert_eq!(ObjectSize::from_text("60%"),
        Some(ObjectSize{width: Some("60%".to_string()), height: None})
    );
    assert_eq!(ObjectSize::from_text("60%x"),
        Some(ObjectSize{width: Some("60%".to_string()), height: None})
    );
    assert_eq!(ObjectSize::from_text("x60%"),
        Some(ObjectSize{width: None, height: Some("60%".to_string())})
    );
}

#[test]
#[allow(non_snake_case)]
fn text_to_object_size__null() {
    assert_eq!(ObjectSize::from_text(""), None);
    assert_eq!(ObjectSize::from_text("x"), None);
}

#[test]
#[allow(non_snake_case)]
fn text_to_object_size__wierd() {
    assert_eq!(ObjectSize::from_text("1A3x123"),
        Some(ObjectSize{width: Some("1A3".to_string()), height: Some("123".to_string())})
    );
    assert_eq!(ObjectSize::from_text("3a"),
        Some(ObjectSize{width: Some("3a".to_string()), height: None})
    );
    assert_eq!(ObjectSize::from_text("zxq"),
        Some(ObjectSize{width: Some("z".to_string()), height: Some("q".to_string())})
    );
}

#[test]
fn object_size_as_text() {
    assert_eq!(ObjectSize{width: None, height: None}.as_text(), "");
    assert_eq!(ObjectSize{width: Some("111".to_string()), height: None}.as_text(), "111x");
    assert_eq!(ObjectSize{width: None, height: Some("222".to_string())}.as_text(), "x222");
    assert_eq!(ObjectSize{width: Some("111".to_string()), height: Some("222".to_string())}.as_text(), "111x222");
}

#[test]
fn object_size_as_html() {
    assert_eq!(ObjectSize{width: None, height: None}.as_html(), "");
    assert_eq!(ObjectSize{width: Some("111".to_string()), height: None}.as_html(), "width=\"111\"");
    assert_eq!(ObjectSize{width: None, height: Some("222".to_string())}.as_html(), "height=\"222\"");
    assert_eq!(ObjectSize{width: Some("111".to_string()), height: Some("222".to_string())}.as_html(), "width=\"111\" height=\"222\"");
}

#[test]
fn size_text_is_trimmed_on_both_sides_of_the_separator() {
    assert_eq!(ObjectSize::from_text(" 12 x\t34 "), Some(size(Some("12"), Some("34"))));
    assert_eq!(ObjectSize::from_text("  x 7"), Some(size(None, Some("7"))));
    assert_eq!(ObjectSize::from_text(" x "), None);
}

#[test]
fn size_text_without_separator_is_trimmed() {
    assert_eq!(ObjectSize::from_text("  40% "), Some(size(Some("40%"), None)));
    assert_eq!(ObjectSize::from_text("   "), None);
}

#[test]
fn size_splits_on_the_first_separator_only() {
    assert_eq!(ObjectSize::from_text("1x2x3"), Some(size(Some("1"), Some("2x3"))));
    assert_eq!(ObjectSize::from_text("xx"), Some(size(None, Some("x"))));
}

#[test]
fn size_round_trip_reproduces_the_normal_form() {
    for text in ["10x20", "10x", "x20", "50%X80%", " 7 x 9 ", "1x2x3"] {
        let first = ObjectSize::from_text(text).unwrap();
        let again = ObjectSize::from_text(&first.as_text());
        assert_eq!(again, Some(first));
    }
    assert_eq!(ObjectSize::from_text("10x20").unwrap().as_text(), "10x20");
    assert_eq!(ObjectSize::from_text("10").unwrap().as_text(), "10x");
    assert_eq!(ObjectSize::from_text("x20").unwrap().as_text(), "x20");
    assert_eq!(ObjectSize::from_text("30X40").unwrap().as_text(), "30x40");
}
