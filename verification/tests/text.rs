use std::path::Path;
use uncontainerizable::text::{
    chars_of, decimal_string, join_path, lines_of, parse_u32_chars, path_extension,
    path_file_name, trimmed,
};

fn lines(s: &str) -> Vec<String> {
    lines_of(s).into_iter().map(|l| l.into_iter().collect()).collect()
}

#[test]
fn lines_match_str_lines() {
    for s in ["", "a", "a\n", "a\nb", "a\r\nb\r\n", "\n\n", "x\r", "a\n\nb\n", "\r\n"] {
        let expected: Vec<String> = s.lines().map(|l| l.to_string()).collect();
        assert_eq!(lines(s), expected, "input {s:?}");
    }
}

#[test]
fn trim_matches_str_trim() {
    for s in ["", "  a  ", "\u{2003}x\u{3000}", "\t\n", "a b", "\u{85}z"] {
        let t: String = trimmed(&chars_of(s)).into_iter().collect();
        assert_eq!(t, s.trim(), "input {s:?}");
    }
}

#[test]
fn parse_matches_str_parse() {
    for s in ["0", "42", "+42", "", "+", "-1", "4294967295", "4294967296", "0042", " 1", "1a", "99999999999999999999"] {
        let ours = parse_u32_chars(&chars_of(s));
        assert_eq!(ours, s.parse::<u32>().ok(), "input {s:?}");
    }
}

#[test]
fn decimal_matches_display() {
    for n in [0u128, 9, 10, 123456789, u64::MAX as u128, u128::MAX] {
        assert_eq!(decimal_string(n), n.to_string());
    }
}

#[test]
fn paths_match_std_path() {
    for (base, rel) in [("/a", "b"), ("/a/", "b"), ("", "b"), ("/a", "/b"), ("/a", "")] {
        let ours = join_path(&chars_of(base), &chars_of(rel));
        let joined = Path::new(base).join(rel);
        assert_eq!(ours, joined.to_str().unwrap(), "join {base:?} {rel:?}");
    }
    for p in ["/usr/bin/sleep", "sleep", "/usr/bin/", "a/.", "a/..", "/", "", ".", "./x", "a//b", "x.tar.gz", ".hidden", "a.", "/p/Foo.app"] {
        let name: Option<String> = path_file_name(&chars_of(p)).map(|v| v.into_iter().collect());
        let std_name = Path::new(p).file_name().map(|s| s.to_str().unwrap().to_string());
        assert_eq!(name, std_name, "file_name {p:?}");
        let ext: Option<String> = path_extension(&chars_of(p)).map(|v| v.into_iter().collect());
        let std_ext = Path::new(p).extension().map(|s| s.to_str().unwrap().to_string());
        assert_eq!(ext, std_ext, "extension {p:?}");
    }
}
