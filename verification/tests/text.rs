use divechain::text::strip_prefix;

#[test]
fn strip_prefix_gives_the_rest_after_the_prefix() {
    assert_eq!(strip_prefix("divechain-aws", "divechain-"), Some("aws"));
    assert_eq!(strip_prefix("divechain-", "divechain-"), Some(""));
    assert_eq!(strip_prefix("ébc", "é"), Some("bc"));
    assert_eq!(strip_prefix("abc", ""), Some("abc"));
}

#[test]
fn strip_prefix_refuses_a_string_without_the_prefix() {
    assert_eq!(strip_prefix("abc", "abd"), None);
    assert_eq!(strip_prefix("ab", "abc"), None);
    assert_eq!(strip_prefix("other-aws", "divechain-"), None);
}
