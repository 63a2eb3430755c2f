use markdown::parser::OrderedListType;

#[test]
fn list_type_from_marker() {
    assert_eq!(OrderedListType::from_str("a"), OrderedListType::Lowercase);
    assert_eq!(OrderedListType::from_str("A"), OrderedListType::Uppercase);
    assert_eq!(OrderedListType::from_str("i"), OrderedListType::LowercaseRoman);
    assert_eq!(OrderedListType::from_str("I"), OrderedListType::UppercaseRoman);
    assert_eq!(OrderedListType::from_str("1"), OrderedListType::Numeric);
}

#[test]
fn any_other_marker_is_numeric() {
    assert_eq!(OrderedListType::from_str(""), OrderedListType::Numeric);
    assert_eq!(OrderedListType::from_str("42"), OrderedListType::Numeric);
    assert_eq!(OrderedListType::from_str("b"), OrderedListType::Numeric);
    assert_eq!(OrderedListType::from_str("aa"), OrderedListType::Numeric);
    assert_eq!(OrderedListType::from_str("a."), OrderedListType::Numeric);
    assert_eq!(OrderedListType::from_str("é"), OrderedListType::Numeric);
}

#[test]
fn list_type_to_marker() {
    assert_eq!(OrderedListType::Lowercase.to_str(), "a");
    assert_eq!(OrderedListType::Uppercase.to_str(), "A");
    assert_eq!(OrderedListType::LowercaseRoman.to_str(), "i");
    assert_eq!(OrderedListType::UppercaseRoman.to_str(), "I");
    assert_eq!(OrderedListType::Numeric.to_str(), "1");
}

#[test]
fn list_type_round_trip() {
    for style in [
        OrderedListType::Numeric,
        OrderedListType::Lowercase,
        OrderedListType::Uppercase,
        OrderedListType::LowercaseRoman,
        OrderedListType::UppercaseRoman,
    ] {
        assert_eq!(OrderedListType::from_str(style.to_str()), style);
    }
}
