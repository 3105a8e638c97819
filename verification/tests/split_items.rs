//! The tokenizer's behaviour on plain words and braced groups.

use afrish::split_items;

#[test]
fn split_items_1() {
    let result = split_items("");
    assert_eq!(0, result.len());
}

#[test]
fn split_items_2() {
    let result = split_items("abc");
    assert_eq!(1, result.len());
    assert_eq!("abc", result[0]);
}

#[test]
fn split_items_3() {
    let result = split_items("  abc  def  ");
    assert_eq!(2, result.len());
    assert_eq!("abc", result[0]);
    assert_eq!("def", result[1]);
}

#[test]
fn split_items_4() {
    let result = split_items("{abc def}");
    assert_eq!(1, result.len());
    assert_eq!("abc def", result[0]);
}

#[test]
fn split_items_5() {
    let result = split_items("{abc def} xy_z {another}");
    assert_eq!(3, result.len());
    assert_eq!("abc def", result[0]);
    assert_eq!("xy_z", result[1]);
    assert_eq!("another", result[2]);
}

#[test]
fn split_items_tabs_and_newlines() {
    let result = split_items("\tone\n two\t{three  four}\n");
    assert_eq!(3, result.len());
    assert_eq!("one", result[0]);
    assert_eq!("two", result[1]);
    assert_eq!("three  four", result[2]);
}

#[test]
fn split_items_unclosed_group_keeps_leading_words() {
    let result = split_items("alpha beta {gamma");
    assert_eq!(2, result.len());
    assert_eq!("alpha", result[0]);
    assert_eq!("beta", result[1]);
}

#[test]
fn split_items_empty_group() {
    let result = split_items("{}");
    assert_eq!(1, result.len());
    assert_eq!("", result[0]);
}

#[test]
fn unicode_white_space_separates_and_trims() {
    // U+205F MEDIUM MATHEMATICAL SPACE carries the White_Space property
    let result = split_items("a\u{205F}b");
    assert_eq!(2, result.len());
    assert_eq!("a", result[0]);
    assert_eq!("b", result[1]);
    assert_eq!("\u{205F}a\u{205F}".trim(), afrish::trimmed("\u{205F}a\u{205F}"));
    assert_eq!("a", afrish::trimmed("\u{205F}a\u{205F}"));
    for u in [
        0x09u32, 0x0A, 0x0B, 0x0C, 0x0D, 0x20, 0x85, 0xA0, 0x1680, 0x2000, 0x2005, 0x200A,
        0x2028, 0x2029, 0x202F, 0x205F, 0x3000,
    ] {
        let c = char::from_u32(u).unwrap();
        let text = format!("{}x{}", c, c);
        assert_eq!(text.trim(), afrish::trimmed(&text));
        assert_eq!("x", afrish::trimmed(&text));
    }
}

#[test]
fn splittable_rejects_close_before_open() {
    assert!(afrish::splittable(""));
    assert!(afrish::splittable("abc"));
    assert!(afrish::splittable("{abc def} xy_z {another}"));
    assert!(afrish::splittable("alpha beta {gamma"));
    assert!(!afrish::splittable("} {"));
    assert!(!afrish::splittable("a}b{c}"));
}
