use rawhttp::http::bytes::{find_in_bytes, position_in_bytes, split_byte_spans};
use rawhttp::http::number::{digit_of, format_decimal, parse_unsigned_in};
use rawhttp::http::percent::{ascii_string, decode_bytes, encode_bytes};
use rawhttp::http::text::{
    chars_of, find_in, line_spans, position_in, span_is, split_spans, substring, trim_bounds,
    whitespace, word_spans,
};

fn cut(text: &str, spans: &[(usize, usize)]) -> Vec<String> {
    let cs: Vec<char> = text.chars().collect();
    spans.iter().map(|(a, b)| cs[*a..*b].iter().collect()).collect()
}

fn number(text: &str, radix: usize) -> Option<usize> {
    let cs = chars_of(text);
    parse_unsigned_in(&cs, 0, cs.len(), radix)
}

#[test]
fn whitespace_is_the_unicode_class() {
    for c in [' ', '\t', '\n', '\u{b}', '\u{c}', '\r', '\u{85}', '\u{a0}', '\u{1680}', '\u{2000}',
        '\u{200a}', '\u{2028}', '\u{2029}', '\u{202f}', '\u{205f}', '\u{3000}']
    {
        assert!(whitespace(c));
    }
    for c in ['a', '\0', '\u{8}', '\u{e}', '\u{200b}', '\u{feff}', '_'] {
        assert!(!whitespace(c));
    }
    let mut c = 0u32;
    while c < 0x3100 {
        if let Some(ch) = char::from_u32(c) {
            assert_eq!(whitespace(ch), ch.is_whitespace());
        }
        c += 1;
    }
}

#[test]
fn words_are_split_as_the_standard_library_does() {
    for text in ["", "   ", "a", " a  bb\tccc\n", "GET / HTTP/1.1", "x\u{a0}y\u{3000}", "é ü"] {
        let cs = chars_of(text);
        let words = cut(text, &word_spans(&cs));
        let expected: Vec<String> = text.split_whitespace().map(|w| w.to_string()).collect();
        assert_eq!(words, expected);
    }
}

#[test]
fn lines_are_split_as_the_standard_library_does() {
    for text in ["", "a", "a\n", "a\r\n", "a\nb", "a\r\nb\r\n", "\n", "\r\n\r\n", "a\r", "a\r\r\n",
        "a\n\nb", "é\nü\r"]
    {
        let cs = chars_of(text);
        let lines = cut(text, &line_spans(&cs));
        let expected: Vec<String> = text.lines().map(|l| l.to_string()).collect();
        assert_eq!(lines, expected, "{:?}", text);
    }
}

#[test]
fn pieces_are_split_as_the_standard_library_does() {
    for text in ["", "a", "a\r\nb", "a\r\n", "\r\n", "a\r\n\r\nb", "a\rb\nc", "\r\r\n\n"] {
        let cs = chars_of(text);
        let pieces = cut(text, &split_spans(&cs, &vec!['\r', '\n']));
        let expected: Vec<String> = text.split("\r\n").map(|l| l.to_string()).collect();
        assert_eq!(pieces, expected, "{:?}", text);
    }
}

#[test]
fn trimming_and_searching() {
    let cs = chars_of("  \u{a0}ab c\t ");
    assert_eq!(trim_bounds(&cs, 0, cs.len()), (3, 7));
    assert_eq!(trim_bounds(&cs, 0, 2), (2, 2));
    assert_eq!(position_in(&cs, 0, cs.len(), 'c'), 6);
    assert_eq!(position_in(&cs, 0, cs.len(), 'z'), cs.len());
    assert_eq!(find_in(&cs, 0, cs.len(), &vec!['b', ' ']), 4);
    assert_eq!(find_in(&cs, 5, cs.len(), &vec!['b', ' ']), cs.len());
    assert!(span_is(&cs, 3, 5, "ab"));
    assert!(!span_is(&cs, 3, 6, "ab"));
    assert_eq!(substring("héllo", 1, 3), "él");
    assert_eq!(chars_of("héllo"), vec!['h', 'é', 'l', 'l', 'o']);
}

#[test]
fn numbers_are_read_as_the_standard_library_does() {
    for text in ["0", "7", "42", "+42", "007", "", "+", "-1", "4 2", "12a", "١٢", " 1", "1_000",
        "18446744073709551615", "18446744073709551616", "99999999999999999999999"]
    {
        assert_eq!(number(text, 10), text.parse::<usize>().ok(), "{:?}", text);
    }
    for text in ["0", "ff", "FF", "+1a", "g", "0x10", "", "ffffffffffffffff", "10000000000000000"] {
        assert_eq!(number(text, 16), usize::from_str_radix(text, 16).ok(), "{:?}", text);
    }
    assert_eq!(digit_of('7', 10), Some(7));
    assert_eq!(digit_of('a', 10), None);
    assert_eq!(digit_of('F', 16), Some(15));
    assert_eq!(digit_of('g', 16), None);
}

#[test]
fn numbers_are_written_in_base_ten() {
    for n in [0usize, 7, 10, 13, 99, 100, 10240, usize::MAX] {
        assert_eq!(format_decimal(n), n.to_string());
        assert_eq!(number(&format_decimal(n), 10), Some(n));
    }
}

#[test]
fn bytes_are_searched_and_cut() {
    let data = b"ab&cd&&e";
    assert_eq!(position_in_bytes(data, 0, data.len(), b'&'), 2);
    assert_eq!(position_in_bytes(data, 3, data.len(), b'&'), 5);
    assert_eq!(position_in_bytes(data, 0, 2, b'&'), 2);
    assert_eq!(find_in_bytes(data, 0, b"&&"), 5);
    assert_eq!(find_in_bytes(data, 0, b"&&&"), data.len());
    assert_eq!(split_byte_spans(data, b'&'), vec![(0, 2), (3, 5), (6, 6), (7, 8)]);
    assert_eq!(split_byte_spans(b"", b'&'), vec![(0, 0)]);
}

#[test]
fn percent_coding_of_bytes() {
    assert_eq!(encode_bytes(b"a b/\xff"), b"a+b%2F%FF".to_vec());
    assert_eq!(decode_bytes(b"a+b%2f%FF", 0, 9), Some(b"a b/\xff".to_vec()));
    assert_eq!(decode_bytes(b"xx%41yy", 2, 5), Some(b"A".to_vec()));
    assert_eq!(decode_bytes(b"%4", 0, 2), None);
    assert_eq!(decode_bytes(b"%4g", 0, 3), None);
    let mut all = Vec::new();
    let mut b = 0u8;
    loop {
        all.push(b);
        if b == 255 {
            break;
        }
        b += 1;
    }
    let written = encode_bytes(&all);
    assert!(written.iter().all(|b| b.is_ascii()));
    assert_eq!(decode_bytes(&written, 0, written.len()), Some(all));
    assert_eq!(ascii_string(b"plain text"), "plain text");
}
