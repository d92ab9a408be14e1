use mairu::text::{append_decimal, strip_prefix, trim};

#[test]
fn trim_is_that_of_the_standard_library() {
    let mut point: u32 = 0;
    while point <= 0x10ffff {
        if let Some(c) = char::from_u32(point) {
            let s = format!("{c}a{c}b{c}");
            assert_eq!(trim(&s), s.trim(), "{point:x}");
        }
        point += 1;
    }
    assert_eq!(trim(" \n\t "), "");
    assert_eq!(trim(""), "");
}

#[test]
fn text_strip_prefix_is_that_of_the_standard_library() {
    for s in ["", "git", "gitdir:", "gitdir: x", "Gitdir: x", " gitdir: x", "gitdir:\u{3000}\u{e9}"] {
        assert_eq!(strip_prefix(s, "gitdir:"), s.strip_prefix("gitdir:"));
        assert_eq!(strip_prefix(s, ""), s.strip_prefix(""));
    }
}

#[test]
fn decimal_digits() {
    for n in [0u32, 7, 10, 19, 100, 4_294_967_295] {
        let mut s = "#".to_string();
        append_decimal(&mut s, n);
        assert_eq!(s, format!("#{n}"));
    }
}
