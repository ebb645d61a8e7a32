use quarry::pattern::{first_match, parse_aob};

#[test]
fn patterns_are_read() {
    assert_eq!(
        parse_aob(" 89 ?? a4\t? 0 "),
        Some(vec![Some(0x89), None, Some(0xA4), None, Some(0)])
    );
    assert_eq!(parse_aob(""), None);
    assert_eq!(parse_aob("  "), None);
    assert_eq!(parse_aob("89 GG"), None);
    assert_eq!(parse_aob("100"), None);
}

#[test]
fn the_first_place_is_found() {
    let bytes = [1, 2, 3, 1, 2, 4];
    assert_eq!(first_match(&bytes, &[Some(1), Some(2), Some(4)]), Some(3));
    assert_eq!(first_match(&bytes, &[Some(1), None]), Some(0));
    assert_eq!(first_match(&bytes, &[Some(4), None]), None);
    assert_eq!(first_match(&bytes, &[Some(9)]), None);
    assert_eq!(first_match(&bytes, &[]), Some(0));
    assert_eq!(first_match(&[], &[None]), None);
}
