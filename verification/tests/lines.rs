use std::io::BufRead;

use treescan::lines::text_lines;

fn lines(bytes: &[u8]) -> Vec<String> {
    text_lines(bytes)
}

#[test]
fn text_lines_splits_at_newlines() {
    assert_eq!(lines(b"foo\nbar\nfoobar\n"), vec!["foo", "bar", "foobar"]);
    assert_eq!(lines(b"foo\nbar"), vec!["foo", "bar"]);
}

#[test]
fn text_lines_of_empty_file_is_empty() {
    assert_eq!(lines(b""), Vec::<String>::new());
}

#[test]
fn text_lines_keeps_empty_lines() {
    assert_eq!(lines(b"\n"), vec![""]);
    assert_eq!(lines(b"a\n\nb\n"), vec!["a", "", "b"]);
    assert_eq!(lines(b"\n\n"), vec!["", ""]);
}

#[test]
fn text_lines_takes_carriage_return_with_the_newline() {
    assert_eq!(lines(b"a\r\nb\r\n"), vec!["a", "b"]);
    assert_eq!(lines(b"a\r\r\n"), vec!["a\r"]);
    assert_eq!(lines(b"\r\n"), vec![""]);
}

#[test]
fn text_lines_keeps_carriage_return_without_newline() {
    assert_eq!(lines(b"a\r"), vec!["a\r"]);
    assert_eq!(lines(b"a\rb\n"), vec!["a\rb"]);
}

#[test]
fn text_lines_stops_before_line_that_is_not_text() {
    assert_eq!(lines(b"ok\n\xff\xfe\nafter\n"), vec!["ok"]);
    assert_eq!(lines(b"\xc3\n"), Vec::<String>::new());
    assert_eq!(lines(b"one\ntwo\n\x80"), vec!["one", "two"]);
}

#[test]
fn text_lines_decodes_utf8() {
    assert_eq!(lines("héllo\nwörld\n".as_bytes()), vec!["héllo", "wörld"]);
    assert_eq!(lines("日本語".as_bytes()), vec!["日本語"]);
}

#[test]
fn text_lines_agrees_with_the_standard_reader() {
    let samples: Vec<&[u8]> = vec![
        b"",
        b"\n",
        b"a",
        b"a\n",
        b"a\nb",
        b"a\r\nb\r",
        b"\r",
        b"\r\n\r\n",
        b"x\n\xffy\nz",
        b"tab\there\n  spaced  \n",
        b"\xc0\x80\nnever",
        b"\xed\xa0\x80\nnever",
        b"\xf4\x90\x80\x80\nnever",
        b"\xf0\x9f\x98\x80\nface",
        b"\xe2\x82\nshort",
        b"ok\n\xe2\x82\xac\neuro\n",
    ];
    for sample in samples {
        let mut expected = Vec::new();
        for line in std::io::BufReader::new(sample).lines() {
            match line {
                Ok(text) => expected.push(text),
                Err(_) => break,
            }
        }
        assert_eq!(lines(sample), expected);
    }
}
