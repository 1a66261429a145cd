use terminal_renderer::text::{
    chars_of, is_float_literal_exec, is_whitespace, parse_usize, split_on_exec, split_tokens_exec, string_from_chars,
    tokenize_lines,
};

fn chars(s: &str) -> Vec<char> {
    s.chars().collect()
}

fn strings(v: Vec<Vec<char>>) -> Vec<String> {
    v.into_iter().map(|c| c.into_iter().collect()).collect()
}

#[test]
fn whitespace_agrees_with_std_everywhere() {
    for v in 0..=0x10FFFFu32 {
        if let Some(c) = char::from_u32(v) {
            assert_eq!(is_whitespace(c), c.is_whitespace(), "U+{:04X}", v);
        }
    }
}

#[test]
fn float_literals_agree_with_std() {
    let cases = [
        "", "+", "-", ".", "1", "-1", "+1", "1.", ".5", "-.5", "1.5", "1e5", "1E5", "1e+5", "1e-5", "1e", "1e+", "e5", "1.e3",
        ".e3", "1..2", "1.2.3", "inf", "-inf", "+INF", "Infinity", "-infinity", "infinit", "nan", "NaN", "-nan", "nana",
        "0x10", "1_000", "12a", "a12", "١", "0.000001", "3.4028236e38", "1e999", "--1", "+-1", "1e5.0", " 1", "1 ",
        "0", "00", "007.5", "infinityy", "iNf", "nAn",
    ];
    for s in cases {
        assert_eq!(is_float_literal_exec(&chars(s)), s.parse::<f32>().is_ok(), "{:?}", s);
    }
}

#[test]
fn usize_parse_agrees_with_std() {
    let cases = [
        "", "+", "-", "0", "1", "+1", "-1", "42", "007", "12a", "1 2", "+-1", "18446744073709551615",
        "18446744073709551616", "99999999999999999999999", "٣",
    ];
    for s in cases {
        assert_eq!(parse_usize(&chars(s)), s.parse::<usize>().ok(), "{:?}", s);
    }
}

#[test]
fn splitting_agrees_with_std() {
    let texts = ["", "a", "a/b", "a//b", "/a/", "1/2/3", "v 1 2 3\nf 1/1/1 2/2/2\r\n\n# c\n", "  x\t y  ", "a\u{3000}b"];
    for t in texts {
        assert_eq!(strings(split_on_exec(&chars(t), '/')), t.split('/').map(String::from).collect::<Vec<_>>());
        assert_eq!(strings(split_tokens_exec(&chars(t))), t.split_whitespace().map(String::from).collect::<Vec<_>>());
        assert_eq!(chars_of(t), chars(t));
        assert_eq!(string_from_chars(&chars(t)), t.to_string());
        let lines: Vec<Vec<String>> = tokenize_lines(t).into_iter().map(strings).collect();
        let expected: Vec<Vec<String>> = t.split('\n').map(|l| l.split_whitespace().map(String::from).collect()).collect();
        assert_eq!(lines, expected);
        // what matters of each line is the same as for `str::lines` then `trim`
        let nonblank: Vec<Vec<String>> = lines.into_iter().filter(|l| !l.is_empty()).collect();
        let std_lines: Vec<Vec<String>> = t
            .lines()
            .map(|l| l.trim())
            .filter(|l| !l.is_empty())
            .map(|l| l.split_whitespace().map(String::from).collect())
            .collect();
        assert_eq!(nonblank, std_lines);
    }
}
