use makerz::text::{is_whitespace, split_lines, str_chars};

#[test]
fn whitespace_matches_char_is_whitespace() {
    for c in (0u32..=0x10ffff).filter_map(char::from_u32) {
        assert_eq!(is_whitespace(c), c.is_whitespace(), "char {:#x}", c as u32);
    }
}

#[test]
fn split_lines_matches_str_lines() {
    let samples = [
        "",
        "a",
        "a\n",
        "a\nb",
        "a\r\nb\r\n",
        "a\r",
        "a\r\r\n",
        "\n\n",
        "x\ry\nz",
        "é\u{2028}\n",
    ];
    for sample in samples {
        let got: Vec<String> = split_lines(&str_chars(sample))
            .iter()
            .map(|l| l.iter().collect())
            .collect();
        let want: Vec<String> = sample.lines().map(str::to_string).collect();
        assert_eq!(got, want, "sample {sample:?}");
    }
}
