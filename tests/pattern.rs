use xerus::http::error::HttpError;
use xerus::http::parser::CommandArgument;
use xerus::http::pattern::{expand_url_pattern, replace_bytes};

#[test]
fn test_regex_correct() {
    let test1 = "[[a-c]]";
    let command = CommandArgument::new();
    let a = command.re_for_url(test1).unwrap();
    assert_eq!(a, vec!["a", "b", "c"]);
    let a = command.re_for_url("www.baidu[[a-e]].exe").unwrap();
    assert_eq!(a.len(), 5);
    let a = command.re_for_url("[[1-100]]").unwrap();
    assert_eq!(a.len(), 100);
    let a = command.re_for_url("www.[[1-1]]").unwrap();
    assert_eq!(a, vec!["www.1"]);
    let test1 = "[[11-1]]";
    let command = CommandArgument::new();
    let a = command.re_for_url(test1).unwrap();
    assert_eq!(a.len(), 0);
    let a = command.re_for_url("1222").unwrap();
    assert_eq!(a, vec!["1222"]);
}

#[test]
#[should_panic]
fn test_regex_fail() {
    let test1 = "[[aa-c]]";
    let command = CommandArgument::new();
    let _ = command.re_for_url(test1).unwrap();
}

#[test]
fn numbered_urls_are_in_order() {
    let command = CommandArgument::new();
    let a = command.re_for_url("http://h/f[[8-11]].bin").unwrap();
    assert_eq!(a, vec!["http://h/f8.bin", "http://h/f9.bin", "http://h/f10.bin", "http://h/f11.bin"]);
    assert_eq!(command.re_for_url("x[[a]]").unwrap(), vec!["x[[a]]"]);
    assert_eq!(command.re_for_url("x[[abc]]"), Err(HttpError::UserInput));
    assert_eq!(command.re_for_url("x[[3-b]]").unwrap().len(), 0);
}

#[test]
fn expansion_from_spans() {
    let url = b"a[[1-2]]b".to_vec();
    let out = expand_url_pattern(&url, &vec![(1, 8)]).unwrap();
    assert_eq!(out, vec![b"a1b".to_vec(), b"a2b".to_vec()]);
    assert_eq!(expand_url_pattern(&url, &vec![]).unwrap(), vec![url.clone()]);
    assert_eq!(expand_url_pattern(&url, &vec![(1, 20)]), Err(HttpError::UserInput));
}

#[test]
fn replace_every_occurrence() {
    let out = replace_bytes(&b"xabyabab".to_vec(), &b"ab".to_vec(), &b"Q".to_vec());
    assert_eq!(out, b"xQyQQ".to_vec());
    let out = replace_bytes(&b"aaa".to_vec(), &b"aa".to_vec(), &b"b".to_vec());
    assert_eq!(out, b"ba".to_vec());
}
