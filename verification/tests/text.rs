use dinghy_apple::bytes::{filled, mirrored_text, output_text};
use dinghy_apple::number::{find_fault, parse_decimal, write_decimal};
use dinghy_apple::ordered::insert_text;
use dinghy_apple::path::{
    file_name, join, parent, parent_path, path_behind, same_parts, strip_base, take_apart,
};
use dinghy_apple::screen::{insert_range, inserted_range, scroll_range};
use dinghy_apple::text;

fn list(items: &[&str]) -> Vec<String> {
    items.iter().map(|item| item.to_string()).collect()
}

#[test]
fn replacing_goes_from_left_to_right() {
    assert_eq!(text::replace("aaaa", "aa", "b"), "bb");
    assert_eq!(text::replace("aaa", "aa", "b"), "ba");
    assert_eq!(text::replace("a-b-c", "-", "_"), "a_b_c");
    assert_eq!(text::replace("abc", "x", "y"), "abc");
}

#[test]
fn texts_are_cut_and_joined() {
    assert_eq!(text::split("a,,b", ','), list(&["a", "", "b"]));
    assert_eq!(text::split("", ','), list(&[""]));
    assert_eq!(text::join(&text::split("a,,b", ','), ","), "a,,b");
    assert_eq!(text::join(&Vec::new(), ","), "");
    assert_eq!(text::last_piece("a b c", ' '), "c");
    assert_eq!(text::cut_before_last("a-b-c", '-'), Some("a-b".to_string()));
    assert_eq!(text::cut_before_last("abc", '-'), None);
}

#[test]
fn lines_and_words() {
    for sample in ["", "a", "a\n", "a\r\nb", "a\n\nb\r", "\n", "x\r\n\r\n"] {
        let expected: Vec<String> = sample.lines().map(|line| line.to_string()).collect();
        assert_eq!(text::split_lines(sample), expected, "{sample:?}");
    }
    for sample in ["", " ", "a", " a\tb  c\n", "a\u{2003}b\u{a0}c", "\u{200b}x"] {
        let expected: Vec<String> = sample.split_whitespace().map(|word| word.to_string()).collect();
        assert_eq!(text::split_words(sample), expected, "{sample:?}");
        assert_eq!(text::trim(sample), sample.trim(), "{sample:?}");
    }
}

#[test]
fn white_space_is_that_of_unicode() {
    for code in 0..0x3100u32 {
        if let Some(ch) = char::from_u32(code) {
            assert_eq!(text::white_space(ch), ch.is_whitespace(), "{code:x}");
        }
    }
}

#[test]
fn texts_are_ordered_by_code_points() {
    assert!(text::comes_before("", "a"));
    assert!(text::comes_before("a", "ab"));
    assert!(text::comes_before("Z", "a"));
    assert!(text::comes_before("\u{ffff}", "\u{10000}"));
    assert!(!text::comes_before("a", "a"));
    assert!(!text::comes_before("b", "ab"));
}

#[test]
fn ordered_lists_take_each_text_once() {
    let mut items = Vec::new();
    for item in ["b", "a", "c", "a", "b"] {
        insert_text(&mut items, item.to_string());
    }
    assert_eq!(items, list(&["a", "b", "c"]));
}

#[test]
fn decimal_numbers() {
    assert_eq!(parse_decimal("0", 255), Some(0));
    assert_eq!(parse_decimal("+007", 255), Some(7));
    assert_eq!(parse_decimal("255", 255), Some(255));
    assert_eq!(parse_decimal("256", 255), None);
    assert_eq!(parse_decimal("4294967295", u32::MAX), Some(u32::MAX));
    assert_eq!(parse_decimal("4294967296", u32::MAX), None);
    assert_eq!(parse_decimal("99999999999999999999999", u32::MAX), None);
    for wrong in ["", "+", "-1", " 1", "1 ", "a", "++1", "\u{661}"] {
        assert_eq!(parse_decimal(wrong, u32::MAX), None, "{wrong:?}");
    }
    for number in [0, 9, 10, 101, 4096, u64::MAX] {
        assert_eq!(write_decimal(number), number.to_string());
    }
    assert_eq!(parse_decimal(&write_decimal(34163), u32::MAX), Some(34163));
}

#[test]
fn faults_of_numbers_are_those_of_the_standard_library() {
    for wrong in [
        "+", "-", "-1", "a", "1a", "++1", "\u{661}", "4294967296", "+4294967296", "99999999999x",
        "429496729x", "4294967295x", "4294967296x", "00000000000x", "000000000000000004294967296",
        "123456789012345678901234567890",
    ] {
        let expected = wrong.parse::<u32>().unwrap_err().to_string();
        assert_eq!(parse_decimal(wrong, u32::MAX), None, "{wrong}");
        assert_eq!(find_fault(wrong, u32::MAX).message(), expected, "{wrong}");
    }
}

#[test]
fn paths_are_taken_apart() {
    assert_eq!(take_apart("/a//b/./c/"), list(&["/", "a", "b", "c"]));
    assert_eq!(take_apart("./a/.."), list(&[".", "a", ".."]));
    assert_eq!(take_apart(""), Vec::<String>::new());
    for path in [
        "/", "//", "/a", "//a", "a", "a/", "a/..", "/a/b.rs", "/a//b.rs", "a/./b", "/./a", "a/.", ".",
        "./x", "./", "../x", "", "a//b//c//",
    ] {
        let std_path = std::path::Path::new(path);
        let parts = take_apart(path);
        let expected: Vec<String> = std_path
            .components()
            .map(|part| part.as_os_str().to_str().unwrap().to_string())
            .collect();
        assert_eq!(parts, expected, "{path:?}");
        assert_eq!(
            file_name(&parts),
            std_path.file_name().map(|name| name.to_str().unwrap().to_string()),
            "{path:?}"
        );
        assert_eq!(
            parent_path(path),
            std_path.parent().map(|path| path.to_str().unwrap().to_string()),
            "{path:?}"
        );
        assert_eq!(
            parent(&parts),
            std_path.parent().map(|path| take_apart(path.to_str().unwrap())),
            "{path:?}"
        );
        for base in ["", "/", "/a", "a", ".", "a/b", "..", "x"] {
            assert_eq!(
                path_behind(path, &take_apart(base)),
                std_path.strip_prefix(base).ok().map(|rest| rest.to_str().unwrap().to_string()),
                "{path:?} {base:?}"
            );
        }
    }
}

#[test]
fn paths_are_joined() {
    for base in ["", "/", "a", "a/", "/a/b"] {
        for name in ["x", "x/y", "stdout"] {
            assert_eq!(join(base, name), std::path::Path::new(base).join(name).to_str().unwrap());
        }
    }
    assert_eq!(take_apart(&join("/a/b", "x")), list(&["/", "a", "b", "x"]));
}

#[test]
fn joined_paths_are_below_their_base() {
    let parts = take_apart(&join("/a/b", "src/lib.rs"));
    assert_eq!(strip_base(&parts, &take_apart("/a/b/")), Some(list(&["src", "lib.rs"])));
    assert_eq!(strip_base(&parts, &take_apart("/a/c")), None);
    assert_eq!(strip_base(&take_apart("/a"), &take_apart("/a/b")), None);
    let rest = path_behind("/a/b//src//lib.rs", &take_apart("/a/b")).unwrap();
    assert_eq!(rest, "src//lib.rs");
    assert_eq!(take_apart(&join("/a/b", &rest)), take_apart("/a/b//src//lib.rs"));
    assert!(same_parts(&take_apart("/a/b/"), &take_apart("/a//b")));
    assert!(!same_parts(&take_apart("/a"), &take_apart("a")));
}

#[test]
fn output_becomes_text() {
    assert_eq!(output_text("gr\u{fc}n".as_bytes()), "gr\u{fc}n");
    assert_eq!(output_text(&[b'a', 0xff, b'b']), "a\u{fffd}b");
    assert_eq!(mirrored_text("gr\u{fc}n".as_bytes()), Some("gr\u{fc}n".to_string()));
    assert_eq!(mirrored_text(&[b'a', 0xff]), None);
    assert_eq!(mirrored_text(&[]), Some(String::new()));
}

#[test]
fn reads_end_at_zero() {
    assert_eq!(filled(-1), None);
    assert_eq!(filled(0), None);
    assert_eq!(filled(4096), Some(4096));
}

#[test]
fn text_is_inserted_at_the_end_and_scrolled_to() {
    let range = insert_range(7);
    assert_eq!((range.location, range.length), (7, 0));
    assert!(inserted_range(7, 7).is_none());
    let range = inserted_range(7, 10).unwrap();
    assert_eq!((range.location, range.length), (7, 3));
    assert!(scroll_range(0).is_none());
    let range = scroll_range(10).unwrap();
    assert_eq!((range.location, range.length), (9, 1));
}
