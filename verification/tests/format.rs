use tmd::format::{
    parse_byte_str, replace_date_time, truncate_filename, truncate_leaf, try_parse_byte_str,
    try_replace_date_time, validate_title,
};

#[test]
fn sizes_are_read() {
    assert_eq!(parse_byte_str("0B"), Some(0));
    assert_eq!(parse_byte_str("10MB"), Some(10_485_760));
    assert_eq!(parse_byte_str("3 KB"), Some(3072));
    assert_eq!(parse_byte_str("1\u{a0}GB"), Some(1 << 30));
    assert_eq!(parse_byte_str("2TB"), Some(2 << 40));
    assert_eq!(parse_byte_str("007PB"), Some(7 << 50));
}

#[test]
fn what_is_no_size_is_refused() {
    for text in ["", "MB", "10", "10mb", "10 MiB", "-1MB", "1.5MB", "10MB ", " 10MB", "10M B"] {
        assert_eq!(parse_byte_str(text), None, "{text}");
    }
    assert_eq!(parse_byte_str("99999999999999999999B"), None);
    assert_eq!(parse_byte_str("٣MB"), None);
}

#[test]
fn sizes_beyond_64_bits_are_told_apart() {
    assert_eq!(try_parse_byte_str("16384PB"), None);
    assert_eq!(try_parse_byte_str("16383PB"), Some(Some(16383 << 50)));
    assert_eq!(try_parse_byte_str("x"), Some(None));
}

#[test]
fn titles_lose_reserved_characters() {
    assert_eq!(validate_title("a/b\\c:d*e?f\"g<h>i|j\nk"), "a_b_c_d_e_f_g_h_i_j_k");
    assert_eq!(validate_title("Plain title é"), "Plain title é");
    assert_eq!(validate_title(""), "");
    assert_eq!(validate_title(&validate_title("x:y")), "x_y");
}

#[test]
fn file_names_are_cut() {
    assert_eq!(truncate_filename("dir/sub/name.txt", 230), "dir/sub/name.txt");
    assert_eq!(truncate_filename("dir/abcdef.txt", 7), "dir/abc.txt");
    assert_eq!(truncate_filename("abcdef", 3), "abc");
    assert_eq!(truncate_filename("dir/ééé.é", 8), "dir/éé.é");
    assert_eq!(truncate_filename("dir/a.b.c", 230), "dir/a.b.c");
    assert_eq!(truncate_filename("dir/.hidden", 230), "dir/.hidden");
    assert_eq!(truncate_filename("dir/.hidden", 4), "dir/.hid");
    assert_eq!(truncate_filename("dir/a.", 230), "dir/a");
    assert_eq!(truncate_filename("..", 230), "");
}

#[test]
fn characters_are_not_split() {
    assert_eq!(truncate_leaf("ab€cd", "", 4), "ab");
    assert_eq!(truncate_leaf("ab€cd", "", 5), "ab€");
    assert_eq!(truncate_leaf("𝄞x", "m", 6), "𝄞.m");
    assert_eq!(truncate_leaf("𝄞x", "m", 5), ".m");
    assert_eq!(truncate_leaf("é€𝄞", "", 9), "é€𝄞");
}

#[test]
fn a_long_extension_is_cut() {
    assert_eq!(truncate_leaf("name", "ext", 4), ".ext");
    assert_eq!(truncate_leaf("name", "extension", 4), "name");
    assert_eq!(truncate_leaf("a", "jpeg", 3), "a.j");
    assert_eq!(truncate_leaf("a", "jpeg", 5), ".jpeg");
    assert_eq!(truncate_leaf("é", "€uro", 5), "é.");
    assert_eq!(truncate_leaf("name", "ext", 0), "");
    assert_eq!(truncate_filename("dir/a.jpeg", 3), "dir/a.j");
}

#[test]
fn dates_are_rewritten() {
    assert_eq!(
        replace_date_time("date >= 2023-01-05 10:20:30 and 1", "%Y%m%d"),
        "date >= 20230105 and 1"
    );
    assert_eq!(
        replace_date_time("2023/1/5  1:2:3|2024.12.31 23:59:59", "%d.%m.%y %H"),
        "05.01.23 01|31.12.24 23"
    );
}

#[test]
fn what_is_no_date_is_kept() {
    for text in ["", "no date", "2023-01-05", "2023-01-05 10:20", "2023-13-45 10:20:30"] {
        assert_eq!(replace_date_time(text, "%Y"), text);
    }
    assert_eq!(replace_date_time("12023-01-05 10:20:309", "%Y"), "120239");
}

#[test]
fn a_layout_that_cannot_be_used_is_told() {
    assert_eq!(try_replace_date_time("2023-01-05 10:20:30", "%!"), None);
    assert_eq!(try_replace_date_time("no date", "%!"), Some("no date".to_string()));
    assert_eq!(
        try_replace_date_time("2023-01-05 10:20:30", "%Y"),
        Some("2023".to_string())
    );
}
