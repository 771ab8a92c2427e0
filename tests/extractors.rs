use book_series_tracker::asin::{looks_like_asin, validate_asin};
use book_series_tracker::date::{parse_date, parse_u32, DateError};
use book_series_tracker::text::{extract_asin, sanitize_string, strip_tags};

#[test]
fn test_validate_asin_ok() {
    assert!(validate_asin("B09FSCHFGK").is_ok());
    assert!(validate_asin(" B09FSCHFGK ").is_err());
    assert!(validate_asin("some other text").is_err());
}

#[test]
fn test_looks_like_asin() {
    assert!(looks_like_asin("B09FSCHFGK"));

    assert!(!looks_like_asin(" B09FSCHFGK "));
    assert!(!looks_like_asin("some other text"));
}

#[test]
fn job_processor_test_parse_date_err() {
    assert!(parse_date("".to_string()).is_err());
    assert!(parse_date("Not a date".to_string()).is_err());
    assert!(parse_date("November 66, 15670".to_string()).is_err());
}

#[test]
fn job_processor_test_parse_date_ok() {
    let cases = vec![
        ("November 10, 2024", "2024-11-10"),
        ("January 19, 2025", "2025-01-19"),
        ("February 31, 2023", "2023-02-31"),
    ];

    for (input, expected_result) in cases.into_iter() {
        let result = parse_date(String::from(input));
        assert!(result.is_ok());
        assert_eq!(result.unwrap(), expected_result);
    }
}

#[test]
fn common_test_parse_date_err() {
    assert!(parse_date("".to_string()).is_err());
    assert!(parse_date("Not a date".to_string()).is_err());
    assert!(parse_date("November 66, 15670".to_string()).is_err());
}

#[test]
fn common_test_parse_date_ok() {
    let cases = vec![
        ("November 10, 2024", "2024-11-10"),
        ("January 19, 2025", "2025-01-19"),
        ("February 31, 2023", "2023-02-31"),
    ];

    for (input, expected_result) in cases.into_iter() {
        let result = parse_date(String::from(input));
        assert!(result.is_ok());
        assert_eq!(result.unwrap(), expected_result);
    }
}

#[test]
fn test_sanitize_string_author() {
    let author = "\n                J.N. Chaney (Author)\n                ,\n            ";
    assert_eq!(sanitize_string(author.to_string()), "J.N. Chaney (Author)");
}

#[test]
fn test_sanitize_string() {
    assert_eq!(sanitize_string(String::from("    25     \n")), "25");
}

#[test]
fn test_strip_tags() {
    let cases = vec![
        (
            "<h3 class=\"a-text-normal\">Fist of Orion (Backyard Starship Book 25)</h3>",
            "Fist of Orion (Backyard Starship Book 25)",
        ),
        (
            "<h3 class=\"a-text-normal\"><b>Fist of Orion</b> (Backyard Starship Book 25)</h3>",
            "Fist of Orion (Backyard Starship Book 25)",
        ),
        (
            "Fist of Orion (Backyard Starship Book 25)",
            "Fist of Orion (Backyard Starship Book 25)",
        ),
    ];

    for (input, expected_result) in cases.into_iter() {
        let result = strip_tags(String::from(input));
        assert_eq!(result, expected_result);
    }
}

#[test]
fn test_extract_asin() {
    let link = "/gp/product/B0DLX35C16?ref_=dbs_m_mng_rwt_calw_tkin_24&storeType=ebooks";
    assert_eq!(extract_asin(link.to_string()), "B0DLX35C16");
}

#[test]
fn strip_tags_small_cases() {
    assert_eq!(strip_tags("<h3 class=\"x\">Title</h3>".to_string()), "Title");
    assert_eq!(strip_tags("<b>Fist of Orion</b> (Book 25)".to_string()), "Fist of Orion (Book 25)");
    assert_eq!(strip_tags("plain text".to_string()), "plain text");
    assert_eq!(strip_tags("".to_string()), "");
    // "<>" is no tag, and a "<" with no ">" after it stays
    assert_eq!(strip_tags("a <> b".to_string()), "a <> b");
    assert_eq!(strip_tags("1 < 2".to_string()), "1 < 2");
    assert_eq!(strip_tags("x<<b>y".to_string()), "xy");
}

#[test]
fn extract_asin_small_cases() {
    assert_eq!(extract_asin("/gp/product/B0DLX35C16?ref_=xyz".to_string()), "B0DLX35C16");
    assert_eq!(extract_asin("B0DLX35C16".to_string()), "B0DLX35C16");
    assert_eq!(extract_asin("/dp/B012345678/".to_string()), "");
    assert_eq!(extract_asin("a/b?c/d".to_string()), "b");
}

#[test]
fn sanitize_drops_one_trailing_comma() {
    assert_eq!(sanitize_string("  Jane Doe ,  ".to_string()), "Jane Doe");
    assert_eq!(sanitize_string("a,,".to_string()), "a,");
    assert_eq!(sanitize_string("\u{a0}x\u{3000}".to_string()), "x");
    assert_eq!(sanitize_string("".to_string()), "");
}

#[test]
fn validate_asin_messages() {
    assert_eq!(validate_asin("B09FSCHFGK").unwrap(), "B09FSCHFGK");
    assert_eq!(
        validate_asin("b09fschfgk").unwrap_err(),
        "Following string does not look like asin: 'b09fschfgk'"
    );
    assert!(!looks_like_asin("B09FSCHFG"));
    assert!(!looks_like_asin("B09FSCHFGKX"));
    assert!(!looks_like_asin("A09FSCHFGK"));
    assert!(!looks_like_asin("B09FSCHFGK\n"));
}

#[test]
fn parse_date_errors_by_kind() {
    assert_eq!(parse_date("".to_string()), Err(DateError::WrongShape));
    assert_eq!(parse_date("November 10, 2024 x".to_string()), Err(DateError::WrongShape));
    assert_eq!(parse_date("November 10,".to_string()), Err(DateError::WrongShape));
    assert_eq!(parse_date("Not a date".to_string()), Err(DateError::UnknownMonth));
    assert_eq!(parse_date("Novem 10, 2024".to_string()), Err(DateError::UnknownMonth));
    assert_eq!(parse_date("November ten, 2024".to_string()), Err(DateError::NotANumber));
    assert_eq!(parse_date("November 10, 20x4".to_string()), Err(DateError::NotANumber));
    assert_eq!(parse_date("November 66, 15670".to_string()), Err(DateError::OutOfRange));
    assert_eq!(parse_date("November 32, 2024".to_string()), Err(DateError::OutOfRange));
    assert_eq!(parse_date("November 1, 2101".to_string()), Err(DateError::OutOfRange));
}

#[test]
fn parse_date_forms() {
    assert_eq!(parse_date("Nov 3, 2024".to_string()).unwrap(), "2024-11-03");
    assert_eq!(parse_date("sEpTeMbEr 19, 2021".to_string()).unwrap(), "2021-09-19");
    assert_eq!(parse_date("May 31, 2100".to_string()).unwrap(), "2100-05-31");
    assert_eq!(parse_date("March 0, 999".to_string()).unwrap(), "999-03-00");
    assert_eq!(parse_date("December +7, 2030".to_string()).unwrap(), "2030-12-07");
    assert_eq!(parse_date("December 7 2030".to_string()).unwrap(), "2030-12-07");
    assert_eq!(parse_date("November  10, 2024".to_string()).unwrap(), "2024-11-10");
    assert_eq!(parse_date(" November\t10,\n2024 ".to_string()).unwrap(), "2024-11-10");
}

#[test]
fn parse_u32_as_std_does() {
    let c = |s: &str| s.chars().collect::<Vec<char>>();
    assert_eq!(parse_u32(&c("0")), Some(0));
    assert_eq!(parse_u32(&c("+42")), Some(42));
    assert_eq!(parse_u32(&c("4294967295")), Some(u32::MAX));
    assert_eq!(parse_u32(&c("4294967296")), None);
    assert_eq!(parse_u32(&c("")), None);
    assert_eq!(parse_u32(&c("+")), None);
    assert_eq!(parse_u32(&c("-1")), None);
    assert_eq!(parse_u32(&c(" 1")), None);
}
