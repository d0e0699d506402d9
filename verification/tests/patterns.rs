use kooforge::base58::{encode_base58, validate_base58_pattern};
use kooforge::prefix::normalize_prefix_pattern;

#[test]
fn base58_accepts_valid_characters() {
    let all = "123456789ABCDEFGHJKLMNPQRSTUVWXYZabcdefghijkmnopqrstuvwxyz";
    assert!(validate_base58_pattern(all).is_ok());
}

#[test]
fn base58_rejects_confusing_characters() {
    for ch in ['0', 'O', 'I', 'l'] {
        let err = validate_base58_pattern(&format!("A{ch}B"))
            .unwrap_err()
            .message();
        assert!(err.contains(&format!("'{ch}'")));
    }
}

#[test]
fn base58_accepts_the_empty_pattern() {
    assert!(validate_base58_pattern("").is_ok());
}

#[test]
fn base58_lists_each_illegal_character_once_in_order() {
    let err = validate_base58_pattern("l0a l+0é").unwrap_err();
    assert_eq!(err.illegal, vec!['l', '0', ' ', '+', 'é']);
}

#[test]
fn base58_message_hints_at_confusing_characters() {
    let err = validate_base58_pattern("lI").unwrap_err();
    assert_eq!(
        err.message(),
        "Invalid Base58 pattern: illegal character(s) 'l', 'I' · Base58 模式非法字符: 'l', 'I'\n\
         `I` (capital i) is excluded to avoid confusion with `1`/`l` · `I`（大写字母 I）不在 Base58 中\n\
         `l` (lowercase L) is excluded to avoid confusion with `1`/`I` · `l`（小写字母 l）不在 Base58 中"
    );
    let err = validate_base58_pattern("O0").unwrap_err();
    assert_eq!(
        err.message(),
        "Invalid Base58 pattern: illegal character(s) 'O', '0' · Base58 模式非法字符: 'O', '0'\n\
         `0` (zero) is excluded; use `o` or `O` only when intended · `0`（数字零）不在 Base58 中\n\
         `O` (capital o) is excluded to avoid confusion with `0` · `O`（大写字母 O）不在 Base58 中"
    );
}

#[test]
fn base58_message_shows_the_alphabet_otherwise() {
    let err = validate_base58_pattern("a-b").unwrap_err();
    assert_eq!(
        err.message(),
        "Invalid Base58 pattern: illegal character(s) '-' · Base58 模式非法字符: '-'\n\
         Use only Base58btc characters: 123456789ABCDEFGHJKLMNPQRSTUVWXYZabcdefghijkmnopqrstuvwxyz · 仅可使用 Base58btc 字符集"
    );
}

#[test]
fn base58_notation_of_known_values() {
    let mut buf = vec![7u8; 3];
    encode_base58(b"Hello World!", &mut buf);
    assert_eq!(buf, b"2NEpo7TZRRrLZSi2U".to_vec());
    encode_base58(&[0x00, 0x00, 0x28, 0x7f, 0xb4, 0xcd], &mut buf);
    assert_eq!(buf, b"11233QC4".to_vec());
    encode_base58(&[], &mut buf);
    assert!(buf.is_empty());
    encode_base58(&[57], &mut buf);
    assert_eq!(buf, b"z".to_vec());
    encode_base58(&[58], &mut buf);
    assert_eq!(buf, b"21".to_vec());
}

#[test]
fn prefix_normalization_keeps_valid_pattern() {
    assert_eq!(normalize_prefix_pattern("12D3KooWabc"), "12D3KooWabc");
}

#[test]
fn prefix_normalization_completes_partial_prefix() {
    assert_eq!(normalize_prefix_pattern("12D3"), "12D3KooW");
}

#[test]
fn prefix_normalization_prepends_missing_prefix() {
    assert_eq!(normalize_prefix_pattern("abc"), "12D3KooWabc");
}

#[test]
fn prefix_normalization_canonicalizes_prefix_case() {
    assert_eq!(normalize_prefix_pattern("12d3koowX"), "12D3KooWX");
}

#[test]
fn prefix_normalization_of_edge_cases() {
    assert_eq!(normalize_prefix_pattern(""), "12D3KooW");
    assert_eq!(normalize_prefix_pattern("12d"), "12D3KooW");
    assert_eq!(normalize_prefix_pattern("12D3KooW"), "12D3KooW");
    assert_eq!(normalize_prefix_pattern("12D3KooX"), "12D3KooW12D3KooX");
    assert_eq!(normalize_prefix_pattern("é"), "12D3KooWé");
}

#[test]
fn prefix_normalization_twice_changes_nothing() {
    for pattern in ["", "12", "12d3koowAb", "abc", "12D3KooWabc"] {
        let once = normalize_prefix_pattern(pattern);
        assert!(once.starts_with("12D3KooW"));
        assert_eq!(normalize_prefix_pattern(&once), once);
    }
}
