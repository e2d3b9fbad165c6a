use o3rg::error::{Error, ErrorKind};
use o3rg::search::{
    record_file, scan, scan_read, search_single_file, skip_hidden, Pattern, SearchMatch,
};

fn pairs(ms: &[SearchMatch]) -> Vec<(u64, String)> {
    ms.iter().map(|m| (m.line(), m.match_result().clone())).collect()
}

#[test]
fn test_search_single_file() {
    let f = "name abc\n123 xyz\nteststring\n\nname".to_owned().into_bytes();
    let res = search_single_file(&f, "name").unwrap();
    assert_eq!(res.len(), 2)
}

#[test]
fn test_search_single_file_no_matches() {
    let f = "test abc\n123 xyz\nteststring".to_owned().into_bytes();
    let res = search_single_file(&f, "nonexistent").unwrap();
    assert_eq!(res.len(), 0);
}

#[test]
fn test_search_single_file_with_regex() {
    let f = "test123\ntest456\nnotmatch\ntest789".to_owned().into_bytes();
    let res = search_single_file(&f, r"test\d+").unwrap();
    assert_eq!(res.len(), 3);
}

#[test]
fn test_invalid_regex() {
    let f = "test content".to_owned().into_bytes();
    let res = search_single_file(&f, "[invalid regex(");
    assert!(res.is_err());
}

#[test]
fn name_matches_on_first_and_last_line() {
    let f = b"name abc\n123 xyz\nteststring\n\nname";
    let res = search_single_file(f, "name").unwrap();
    assert_eq!(pairs(&res), vec![(1, "name".to_owned()), (5, "name".to_owned())]);
}

#[test]
fn digits_pattern_hits_lines_one_two_four() {
    let f = b"test123\ntest456\nnotmatch\ntest789";
    let res = search_single_file(f, r"test\d+").unwrap();
    assert_eq!(
        pairs(&res),
        vec![
            (1, "test123".to_owned()),
            (2, "test456".to_owned()),
            (4, "test789".to_owned())
        ]
    );
}

#[test]
fn match_text_is_the_matched_span_not_the_line() {
    let res = search_single_file(b"xx test42 yy\nno", r"test\d+").unwrap();
    assert_eq!(pairs(&res), vec![(1, "test42".to_owned())]);
}

#[test]
fn only_first_match_per_line() {
    let res = search_single_file(b"ab ab ab", "ab").unwrap();
    assert_eq!(pairs(&res), vec![(1, "ab".to_owned())]);
}

#[test]
fn carriage_return_is_stripped() {
    let res = search_single_file(b"end\r\nend\r\n", "end$").unwrap();
    assert_eq!(pairs(&res), vec![(1, "end".to_owned()), (2, "end".to_owned())]);
}

#[test]
fn invalid_utf8_line_is_skipped() {
    let f: Vec<u8> = vec![b'a', 0xff, b'\n', b'a', b'\n', b'a'];
    let res = search_single_file(&f, "a").unwrap();
    assert_eq!(pairs(&res), vec![(2, "a".to_owned()), (3, "a".to_owned())]);
}

#[test]
fn empty_stream_gives_no_matches() {
    let res = search_single_file(b"", "a").unwrap();
    assert!(res.is_empty());
}

#[test]
fn pattern_error_is_pattern_kind() {
    let err = match Pattern::new("(") {
        Err(e) => e,
        Ok(_) => panic!("pattern should not compile"),
    };
    assert!(err.is_pattern());
    assert!(!err.is_io());
    assert!(matches!(err.kind(), ErrorKind::GrepRegexErr(_)));
}

#[test]
fn scan_reuses_compiled_pattern() {
    let p = Pattern::new("b+").unwrap();
    let first = scan(b"abbb\nc\nb", &p);
    let second = scan(b"abbb\nc\nb", &p);
    assert_eq!(pairs(&first), vec![(1, "bbb".to_owned()), (3, "b".to_owned())]);
    assert_eq!(pairs(&first), pairs(&second));
}

#[test]
fn scan_read_reports_io_error() {
    let p = Pattern::new("x").unwrap();
    let read = Err(std::io::Error::new(std::io::ErrorKind::PermissionDenied, "denied"));
    let err = match scan_read(read, &p) {
        Err(e) => e,
        Ok(_) => panic!("a failed read should be an error"),
    };
    assert!(err.is_io());
}

#[test]
fn scan_read_scans_bytes() {
    let p = Pattern::new("x").unwrap();
    let res = scan_read(Ok(b"a\nx".to_vec()), &p).unwrap();
    assert_eq!(pairs(&res), vec![(2, "x".to_owned())]);
}

#[test]
fn hidden_policy() {
    assert!(skip_hidden(None));
    assert!(skip_hidden(Some(true)));
    assert!(!skip_hidden(Some(false)));
}

#[test]
fn failed_file_is_skipped_and_readable_file_kept() {
    let p = Pattern::new("test").unwrap();
    let mut results = Vec::new();
    let denied = Err(std::io::Error::new(std::io::ErrorKind::PermissionDenied, "denied"));
    record_file(&mut results, Some("locked.txt".to_owned()), scan_read(denied, &p));
    let readable = scan_read(Ok(b"test one\nother\ntest two".to_vec()), &p);
    record_file(&mut results, Some("open.txt".to_owned()), readable);
    let got: Vec<(u64, String, String)> = results
        .iter()
        .map(|(m, f)| (m.line(), m.match_result().clone(), f.clone()))
        .collect();
    assert_eq!(
        got,
        vec![
            (1, "test".to_owned(), "open.txt".to_owned()),
            (3, "test".to_owned(), "open.txt".to_owned())
        ]
    );
}

#[test]
fn path_that_is_not_text_adds_nothing() {
    let p = Pattern::new("a").unwrap();
    let mut results = Vec::new();
    record_file(&mut results, None, scan_read(Ok(b"a".to_vec()), &p));
    assert!(results.is_empty());
}

#[test]
fn recording_order_keeps_same_entries() {
    let p = Pattern::new("k").unwrap();
    let mut one = Vec::new();
    record_file(&mut one, Some("a".to_owned()), scan_read(Ok(b"k\nk".to_vec()), &p));
    record_file(&mut one, Some("b".to_owned()), scan_read(Ok(b"xk".to_vec()), &p));
    let mut two = Vec::new();
    record_file(&mut two, Some("b".to_owned()), scan_read(Ok(b"xk".to_vec()), &p));
    record_file(&mut two, Some("a".to_owned()), scan_read(Ok(b"k\nk".to_vec()), &p));
    let key = |v: &Vec<(SearchMatch, String)>| {
        let mut k: Vec<(String, u64, String)> = v
            .iter()
            .map(|(m, f)| (f.clone(), m.line(), m.match_result().clone()))
            .collect();
        k.sort();
        k
    };
    assert_eq!(key(&one), key(&two));
    assert_eq!(one.len(), 3);
}

#[test]
fn conversions_keep_the_category() {
    let io = Error::from(std::io::Error::new(std::io::ErrorKind::NotFound, "missing"));
    assert!(io.is_io());
    match io.kind() {
        ErrorKind::IoErr(e) => assert_eq!(e.kind(), std::io::ErrorKind::NotFound),
        _ => panic!("an I/O error should keep its kind"),
    }
    let regex_err = match grep::regex::RegexMatcher::new("(") {
        Err(e) => e,
        Ok(_) => panic!("pattern should not compile"),
    };
    let pattern = Error::from(regex_err);
    assert!(pattern.is_pattern());
}
