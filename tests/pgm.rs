use elsdc::pgm::{parse_pgm, read_pgm_header, PgmError, PgmHeader, PgmSamples};
use elsdc::text::{find_tokens, parse_usize};

#[test]
fn header_on_one_line() {
    let s = b"3 2 255\nrest";
    let h = read_pgm_header(s, 0).unwrap();
    assert_eq!(h, PgmHeader { width: 3, height: 2, depth: 255, data_start: 8 });
}

#[test]
fn header_spread_over_lines_with_comments() {
    let s = b"# made by hand\n640\n# another\n  480   255  9\nX";
    let h = read_pgm_header(s, 0).unwrap();
    assert_eq!(h.width, 640);
    assert_eq!(h.height, 480);
    assert_eq!(h.depth, 255);
    assert_eq!(&s[h.data_start..], b"X");
}

#[test]
fn header_comment_only_at_line_start() {
    let s = b" # 5 6 7\n";
    assert_eq!(read_pgm_header(s, 0), Err(PgmError::InvalidWidth));
}

#[test]
fn header_truncated() {
    assert_eq!(read_pgm_header(b"10 20\n", 0), Err(PgmError::UnexpectedEof));
    assert_eq!(read_pgm_header(b"", 0), Err(PgmError::UnexpectedEof));
    assert_eq!(read_pgm_header(b"10 20 30", 0), Ok(PgmHeader { width: 10, height: 20, depth: 30, data_start: 8 }));
}

#[test]
fn header_invalid_fields() {
    assert_eq!(read_pgm_header(b"x 2 3\n", 0), Err(PgmError::InvalidWidth));
    assert_eq!(read_pgm_header(b"1 -2 3\n", 0), Err(PgmError::InvalidHeight));
    assert_eq!(read_pgm_header(b"1 2 3.5\n", 0), Err(PgmError::InvalidDepth));
    assert_eq!(read_pgm_header(b"+1 2 3\n", 0).unwrap().width, 1);
}

#[test]
fn usize_parsing() {
    let s = b"18446744073709551615 18446744073709551616 + 007";
    let t = find_tokens(s, 0, s.len());
    assert_eq!(t.len(), 4);
    assert_eq!(parse_usize(s, t[0].0, t[0].1), "18446744073709551615".parse::<usize>().ok());
    assert_eq!(parse_usize(s, t[1].0, t[1].1), "18446744073709551616".parse::<usize>().ok());
    assert_eq!(parse_usize(s, t[2].0, t[2].1), None);
    assert_eq!(parse_usize(s, t[3].0, t[3].1), Some(7));
}

#[test]
fn binary_image() {
    let mut s = b"P5\n# c\n2 2\n255\n".to_vec();
    s.extend_from_slice(&[0, 128, 255, 7, 99]);
    let img = parse_pgm(&s).unwrap();
    assert_eq!(img.header.width, 2);
    match img.samples {
        PgmSamples::Binary(v) => assert_eq!(v, vec![0, 128, 255, 7]),
        PgmSamples::Ascii(_) => panic!("expected binary samples"),
    }
}

#[test]
fn binary_image_short() {
    let mut s = b"P5\n2 2 255\n".to_vec();
    s.extend_from_slice(&[1, 2, 3]);
    assert!(matches!(parse_pgm(&s), Err(PgmError::UnexpectedEof)));
}

#[test]
fn ascii_image() {
    let s = b"P2\n3 1\n255\n 12 \n\t7\n255";
    let img = parse_pgm(s).unwrap();
    match img.samples {
        PgmSamples::Ascii(spans) => {
            let texts: Vec<&[u8]> = spans.iter().map(|&(a, b)| &s[a..b]).collect();
            assert_eq!(texts, vec![&b"12"[..], &b"7"[..], &b"255"[..]]);
        }
        PgmSamples::Binary(_) => panic!("expected ascii samples"),
    }
}

#[test]
fn ascii_image_missing_line() {
    let s = b"P2\n2 1\n255\n1\n";
    assert!(matches!(parse_pgm(s), Err(PgmError::UnexpectedEof)));
}

#[test]
fn not_pgm() {
    assert!(matches!(parse_pgm(b"P6\n1 1 255\n\0\0\0"), Err(PgmError::NotPgm)));
    assert!(matches!(parse_pgm(b""), Err(PgmError::NotPgm)));
    assert!(matches!(parse_pgm(b"P"), Err(PgmError::NotPgm)));
}

#[test]
fn magic_line_rest_is_ignored() {
    let s = b"P5 9 9 9\n1 1 255\nA";
    let img = parse_pgm(s).unwrap();
    assert_eq!(img.header.width, 1);
    assert!(matches!(img.samples, PgmSamples::Binary(ref v) if v == &vec![b'A']));
}

#[test]
fn size_overflow() {
    let s = b"P5\n18446744073709551615 2 255\n";
    assert!(matches!(parse_pgm(s), Err(PgmError::TooLarge)));
}
