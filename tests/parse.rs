use denv::error::{Detail, Error};
use denv::{parse, parse_line};

fn pairs(v: &[(&str, &str)]) -> Vec<(String, String)> {
    v.iter().map(|(k, x)| (k.to_string(), x.to_string())).collect()
}

#[test]
fn parse_denv_file() {
    let result = parse("x=123\ny=345\n".as_bytes());
    assert!(result.is_ok());
    assert_eq!(
        vec![
            ("x".to_owned(), "123".to_owned()),
            ("y".to_owned(), "345".to_owned())
        ],
        result.unwrap()
    );
}

#[test]
fn ignore_comment() {
    let result = parse("x=123\n  # comment\ny=345\n".as_bytes());
    assert!(result.is_ok());
    assert_eq!(
        vec![
            ("x".to_owned(), "123".to_owned()),
            ("y".to_owned(), "345".to_owned())
        ],
        result.unwrap()
    );
}

#[test]
fn ignore_empty() {
    let result = parse("x=123\n\n    \n\ny=345\n".as_bytes());
    assert!(result.is_ok());
    assert_eq!(
        vec![
            ("x".to_owned(), "123".to_owned()),
            ("y".to_owned(), "345".to_owned())
        ],
        result.unwrap()
    );
}

#[test]
fn hash_in_the_middle() {
    let result = parse("x=123\ny=345# comment\n".as_bytes());
    assert!(result.is_ok());
    assert_eq!(
        vec![
            ("x".to_owned(), "123".to_owned()),
            ("y".to_owned(), "345# comment".to_owned())
        ],
        result.unwrap()
    );
}

#[test]
fn equal_in_the_middle() {
    let result = parse("x=12=3\ny=345\n".as_bytes());
    assert!(result.is_ok());
    assert_eq!(
        vec![
            ("x".to_owned(), "12=3".to_owned()),
            ("y".to_owned(), "345".to_owned())
        ],
        result.unwrap()
    );
}

#[test]
fn include_whitespaces() {
    let result = parse("x=a text with whitespaces\ny=345\n".as_bytes());
    assert!(result.is_ok());
    assert_eq!(
        vec![
            ("x".to_owned(), "a text with whitespaces".to_owned()),
            ("y".to_owned(), "345".to_owned())
        ],
        result.unwrap()
    );
}

#[test]
fn malformed_line() {
    let result = parse("x=123\ny".as_bytes());
    assert!(result.is_err());
    assert!(result.unwrap_err().cause().is_none());
}

#[test]
fn malformed_key() {
    let result = parse("xx x=123\ny".as_bytes());
    assert!(result.is_err());
    assert!(result.unwrap_err().cause().is_none());
}

#[test]
fn line_blank_and_comment_are_skipped() {
    assert!(matches!(parse_line(""), Ok(None)));
    assert!(matches!(parse_line("   \t "), Ok(None)));
    assert!(matches!(parse_line("  # comment"), Ok(None)));
    assert!(matches!(parse_line("#x=1"), Ok(None)));
}

#[test]
fn line_splits_at_first_separator() {
    let r = parse_line("a=b=c").unwrap().unwrap();
    assert_eq!(r, ("a".to_string(), "b=c".to_string()));
}

#[test]
fn line_value_is_verbatim() {
    let r = parse_line("y=345# comment").unwrap().unwrap();
    assert_eq!(r, ("y".to_string(), "345# comment".to_string()));
    let r = parse_line("  k= spaced value  ").unwrap().unwrap();
    assert_eq!(r, ("k".to_string(), " spaced value  ".to_string()));
}

#[test]
fn line_empty_key_and_empty_value() {
    assert_eq!(parse_line("=v").unwrap().unwrap(), ("".to_string(), "v".to_string()));
    assert_eq!(parse_line("k=").unwrap().unwrap(), ("k".to_string(), "".to_string()));
}

#[test]
fn line_non_ascii_text() {
    let r = parse_line("clé=été").unwrap().unwrap();
    assert_eq!(r, ("clé".to_string(), "été".to_string()));
}

#[test]
fn line_missing_separator() {
    let e = parse_line("y").unwrap_err();
    assert!(e.cause().is_none());
    assert_eq!(e.message(), "key and value must be separated by `=`");
}

#[test]
fn line_whitespace_in_key() {
    let e = parse_line("xx x=123").unwrap_err();
    assert_eq!(e.message(), "key cannot contain whitespaces");
    let e = parse_line("a\tb=1").unwrap_err();
    assert_eq!(e.message(), "key cannot contain whitespaces");
    let e = parse_line("a\u{a0}b=1").unwrap_err();
    assert_eq!(e.message(), "key cannot contain whitespaces");
    let e = parse_line("a b=c=d e").unwrap_err();
    assert_eq!(e.message(), "key cannot contain whitespaces");
}

#[test]
fn line_unicode_leading_whitespace_is_trimmed() {
    let r = parse_line("\u{3000}\u{2003}k=v").unwrap().unwrap();
    assert_eq!(r, ("k".to_string(), "v".to_string()));
}

#[test]
fn parse_empty_input() {
    assert_eq!(parse(b"").unwrap(), Vec::<(String, String)>::new());
    assert_eq!(parse(b"\n\n# only comments\n   \n").unwrap(), Vec::<(String, String)>::new());
}

#[test]
fn parse_crlf_lines() {
    assert_eq!(parse(b"x=1\r\ny=2\r\n").unwrap(), pairs(&[("x", "1"), ("y", "2")]));
    assert_eq!(parse(b"x=1\r").unwrap(), pairs(&[("x", "1\r")]));
    assert_eq!(parse(b"x=1\r\r\n").unwrap(), pairs(&[("x", "1\r")]));
}

#[test]
fn parse_keeps_duplicates_in_order() {
    assert_eq!(
        parse(b"k=1\nj=2\nk=3").unwrap(),
        pairs(&[("k", "1"), ("j", "2"), ("k", "3")])
    );
}

#[test]
fn parse_error_messages() {
    let e = parse(b"x=123\ny").unwrap_err();
    assert_eq!(e.message(), "key and value must be separated by `=`");
    let e = parse(b"xx x=123\ny").unwrap_err();
    assert_eq!(e.message(), "key cannot contain whitespaces");
}

#[test]
fn parse_invalid_utf8_is_io_error() {
    let e = parse(b"x=1\ny=\xff\xfe\n").unwrap_err();
    assert!(e.cause().is_some());
    assert!(matches!(e.detail, Detail::IoError(_)));
    let e = parse(b"x=\xff\ny").unwrap_err();
    assert!(e.cause().is_some());
}

#[test]
fn parse_first_error_wins() {
    let e = parse(b"bad line\nx=\xff\n").unwrap_err();
    assert!(e.cause().is_none());
}

#[test]
fn parse_twice_gives_same_pairs() {
    let input = b"a=1\n  # c\nb=x=y\n\nc=\n";
    let first = parse(input).unwrap();
    let second = parse(input).unwrap();
    assert_eq!(first, second);
    assert_eq!(first, pairs(&[("a", "1"), ("b", "x=y"), ("c", "")]));
}

#[test]
fn error_constructors() {
    let e = Error::new("some message");
    assert!(e.cause().is_none());
    assert_eq!(e.message(), "some message");
    let io = std::io::Error::new(std::io::ErrorKind::NotFound, "no such file");
    let e = Error::from_io_error(io);
    assert!(e.cause().is_some());
    assert_eq!(e.cause().unwrap().kind(), std::io::ErrorKind::NotFound);
    assert_eq!(e.message(), "no such file");
}
