use markdown::parser::span::image::{image_from_groups, parse_image};
use markdown::parser::ObjectSize;
use markdown::parser::Span::Image;

#[test]
fn finds_image() {
    assert_eq!(
        parse_image("![an example](example.com) test"),
        Some((
            Image("an example".to_owned(), "example.com".to_owned(), None, None),
            26
        ))
    );

    assert_eq!(
        parse_image("![](example.com) test"),
        Some((Image("".to_owned(), "example.com".to_owned(), None, None), 16))
    );

    assert_eq!(
        parse_image("![an example]() test"),
        Some((Image("an example".to_owned(), "".to_owned(), None, None), 15))
    );

    assert_eq!(
        parse_image("![]() test"),
        Some((Image("".to_owned(), "".to_owned(), None, None), 5))
    );

    assert_eq!(
        parse_image("![an example](example.com \"Title\") test"),
        Some((
            Image(
                "an example".to_owned(),
                "example.com".to_owned(),
                Some("Title".to_owned()),
                None
            ),
            34
        ))
    );

    assert_eq!(
        parse_image("![an example](example.com) test [a link](example.com)"),
        Some((
            Image("an example".to_owned(), "example.com".to_owned(), None, None),
            26
        ))
    );

    // Check that we don't falsely trigger the size attribute
    assert_eq!(parse_image("![an example](http://host.com/filepath.jpg) =111x222"),
        Some((
            Image("an example".to_owned(), "http://host.com/filepath.jpg".to_owned(), None, None),
            43
        ))
    );
}

#[test]
fn no_false_positives() {
    assert_eq!(parse_image("![()] testing things test"), None);
    assert_eq!(parse_image("!()[] testing things test"), None);
}

#[test]
fn no_early_matching() {
    assert_eq!(parse_image("were ![an example](example.com) test"), None);
}

#[test]
fn with_size() {
    assert_eq!(parse_image("![my image](image.jpg =111x222) blah"),
        Some((
            Image("my image".to_owned(), "image.jpg".to_owned(), None,
                Some(ObjectSize{width: Some("111".to_string()), height: Some("222".to_string())})
            ),
            31
        ))
    );

    assert_eq!(parse_image("![my image](image.jpg =111x) blah"),
        Some((
            Image("my image".to_owned(), "image.jpg".to_owned(), None,
                Some(ObjectSize{width: Some("111".to_string()), height: None})
            ),
            28
        ))
    );

    assert_eq!(parse_image("![my image](image.jpg =x222) blah"),
        Some((
            Image("my image".to_owned(), "image.jpg".to_owned(), None,
                Some(ObjectSize{width: None, height: Some("222".to_string())})
            ),
            28
        ))
    );

    // With empty size
    assert_eq!(parse_image("![my image](image.jpg =) blah"),
        Some((
            Image("my image".to_owned(), "image.jpg".to_owned(), None, None),
            24
        ))
    );

    // With leading empty size and a trailing title
    assert_eq!(parse_image("![my image](image.jpg = \"silly title\") blah"),
        Some((
            Image("my image".to_owned(), "image.jpg =".to_owned(),
                Some("silly title".to_owned()),
                None
            ),
            38
        ))
    );

    // With trailing empty size and leading title
    assert_eq!(parse_image("![my image](image.jpg \"silly title\" =) blah"),
        Some((
            Image("my image".to_owned(), "image.jpg".to_owned(),
                Some("silly title".to_owned()),
                None
            ),
            38
        ))
    );

    // With trailing size and leading title
    assert_eq!(parse_image("![my image](image.jpg \"silly title\" =x222) blah"),
        Some((
            Image("my image".to_owned(), "image.jpg".to_owned(),
                Some("silly title".to_owned()),
                Some(ObjectSize{width: None, height: Some("222".to_string())})
            ),
            42
        ))
    );

    // Size property in wrong place
    assert_eq!(parse_image("![my image](image.jpg =x222 \"silly title\") blah"),
        Some((
            Image("my image".to_owned(), "image.jpg =x222".to_owned(),
                Some("silly title".to_owned()),
                None
            ),
            42
        ))
    );

}

#[test]
fn image_length_counts_bytes() {
    assert_eq!(
        parse_image("![é](ü.png) x"),
        Some((Image("é".to_owned(), "ü.png".to_owned(), None, None), 13))
    );
}

#[test]
fn image_from_groups_reads_each_group() {
    let text = "![ab](cd \"ef\" =1x2)";
    let groups = vec![Some((0, 19)), Some((2, 4)), Some((6, 8)), Some((10, 12)), Some((15, 18))];
    assert_eq!(
        image_from_groups(text, &groups),
        Some((
            Image(
                "ab".to_owned(),
                "cd".to_owned(),
                Some("ef".to_owned()),
                Some(ObjectSize { width: Some("1".to_string()), height: Some("2".to_string()) })
            ),
            19
        ))
    );
}

#[test]
fn image_from_groups_takes_absent_groups_as_empty() {
    let text = "![]()";
    let groups = vec![Some((0, 5)), None, None, None, None];
    assert_eq!(
        image_from_groups(text, &groups),
        Some((Image("".to_owned(), "".to_owned(), None, None), 5))
    );
    assert_eq!(
        image_from_groups(text, &vec![Some((0, 5))]),
        Some((Image("".to_owned(), "".to_owned(), None, None), 5))
    );
}

#[test]
fn image_from_groups_refuses_a_match_that_is_not_at_the_start() {
    let text = "a ![]()";
    assert_eq!(image_from_groups(text, &vec![Some((2, 7)), None, None, None, None]), None);
    assert_eq!(image_from_groups(text, &vec![None, None, None, None, None]), None);
    assert_eq!(image_from_groups(text, &vec![]), None);
    assert_eq!(image_from_groups(text, &vec![Some((0, 70))]), None);
}

#[test]
fn image_from_groups_refuses_a_range_inside_a_character() {
    let text = "é![]()";
    assert_eq!(image_from_groups(text, &vec![Some((0, 1))]), None);
    assert_eq!(
        image_from_groups(text, &vec![Some((0, 2)), Some((1, 2))]),
        Some((Image("".to_owned(), "".to_owned(), None, None), 2))
    );
}
