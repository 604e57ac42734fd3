use xerus::http::error::HttpError;
use xerus::http::http::{
    filename_from_disposition, makesure_support_download, parse_decimal, split_ranges, FileName,
    HttpDownloader,
};

#[test]
fn plan_of_ten_bytes_in_four() {
    assert_eq!(split_ranges(10, 4), vec![(0, 3), (3, 6), (6, 9), (9, 10)]);
}

#[test]
fn plan_of_ten_bytes_in_one() {
    assert_eq!(split_ranges(10, 1), vec![(0, 10)]);
}

#[test]
fn plan_skips_empty_segments() {
    assert_eq!(split_ranges(2, 4), vec![(0, 1), (1, 2)]);
    assert_eq!(split_ranges(0, 3), vec![]);
    assert_eq!(split_ranges(9, 3), vec![(0, 3), (3, 6), (6, 9)]);
    assert_eq!(split_ranges(u64::MAX, 2), vec![(0, 1u64 << 63), (1u64 << 63, u64::MAX)]);
}

#[test]
fn plan_partitions_the_range() {
    for length in 0u64..40 {
        for c in 1u16..12 {
            let plan = split_ranges(length, c);
            assert!(plan.len() <= c as usize);
            let mut at = 0;
            for (s, e) in plan {
                assert_eq!(s, at);
                assert!(s < e);
                at = e;
            }
            assert_eq!(at, length);
        }
    }
}

#[test]
fn downloader_split_uses_its_concurrency() {
    let d = HttpDownloader::new().set_concurrency(4).set_url("http://x".to_string());
    assert_eq!(d.split(10), vec![(0, 3), (3, 6), (6, 9), (9, 10)]);
    assert_eq!(HttpDownloader::new().concurrency, 8);
    assert_eq!(HttpDownloader::new().output_path, Some(".".to_string()));
}

#[test]
fn probe_reads_length_and_ranges() {
    let len = b"1234".to_vec();
    let bytes = b"bytes".to_vec();
    let none = b"none".to_vec();
    assert_eq!(makesure_support_download(Some(&len), Some(&bytes)), Ok((true, 1234)));
    assert_eq!(makesure_support_download(Some(&len), Some(&none)), Ok((false, 1234)));
    assert_eq!(makesure_support_download(Some(&len), None), Ok((false, 1234)));
    assert_eq!(makesure_support_download(Some(&len), Some(&b"Bytes".to_vec())), Ok((false, 1234)));
}

#[test]
fn probe_needs_a_positive_length() {
    let bytes = b"bytes".to_vec();
    assert_eq!(makesure_support_download(None, Some(&bytes)), Err(HttpError::Probe));
    assert_eq!(makesure_support_download(Some(&b"0".to_vec()), Some(&bytes)), Err(HttpError::Probe));
    assert_eq!(makesure_support_download(Some(&b"12a".to_vec()), None), Err(HttpError::Probe));
}

#[test]
fn decimal_values() {
    assert_eq!(parse_decimal(&b"18446744073709551615".to_vec()), Some(u64::MAX));
    assert_eq!(parse_decimal(&b"18446744073709551616".to_vec()), None);
    assert_eq!(parse_decimal(&b"007".to_vec()), Some(7));
    assert_eq!(parse_decimal(&b"".to_vec()), None);
    assert_eq!(parse_decimal(&b"+7".to_vec()), None);
}

#[test]
fn filename_from_header() {
    let v = b"attachment; filename=\"report.pdf\"".to_vec();
    assert_eq!(filename_from_disposition(&v), Some(b"report.pdf".to_vec()));
    let v = b"attachment;FileName=\"a b\"; size=3".to_vec();
    assert_eq!(filename_from_disposition(&v), Some(b"a b".to_vec()));
    assert_eq!(filename_from_disposition(&b"attachment; filename=x".to_vec()), None);
    assert_eq!(filename_from_disposition(&b"inline".to_vec()), None);
    let v = b"a;b;filename=\"x\"".to_vec();
    assert_eq!(filename_from_disposition(&v), Some(b"x".to_vec()));
    let v = b"attachment; size=3;  filename=\"late.txt\"".to_vec();
    assert_eq!(filename_from_disposition(&v), Some(b"late.txt".to_vec()));
}

#[test]
fn default_names_are_numbered() {
    let mut d = HttpDownloader::new();
    assert_eq!(d.parse_filename(None), FileName::Numbered(0));
    let v = b"attachment; filename=\"f.bin\"".to_vec();
    assert_eq!(d.parse_filename(Some(&v)), FileName::Given(b"f.bin".to_vec()));
    assert_eq!(d.parse_filename(Some(&b"inline".to_vec())), FileName::Numbered(2));
    assert_eq!(d.count, 3);
}
