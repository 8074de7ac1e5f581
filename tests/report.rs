use ace_log_stats::report::{
    category_risk, decimal_chars, file_risk, high_risk_csv, is_huorong_log, peak_row,
    process_risk, ranked, Risk,
};
use ace_log_stats::tally::Tally;
use ace_log_stats::width::shorten_path;

#[test]
fn signature_check() {
    let good = "SGuard64.exe 触犯自定义防护规则 操作文件：C:\\a";
    assert!(is_huorong_log(good));
    assert!(is_huorong_log("SGuardSvc64 触犯自定义防护规则 操作文件："));
    assert!(!is_huorong_log("SGuard 触犯自定义防护规则 操作文件："));
    assert!(!is_huorong_log("SGuard64 操作文件："));
    assert!(!is_huorong_log(""));
}

#[test]
fn risk_thresholds() {
    assert_eq!(file_risk(31), Risk::High);
    assert_eq!(file_risk(30), Risk::Medium);
    assert_eq!(file_risk(11), Risk::Medium);
    assert_eq!(file_risk(10), Risk::Low);
    assert_eq!(process_risk(501), Risk::High);
    assert_eq!(process_risk(201), Risk::Medium);
    assert_eq!(process_risk(200), Risk::Low);
    assert_eq!(category_risk(1001), Risk::High);
    assert_eq!(category_risk(301), Risk::Medium);
    assert_eq!(category_risk(300), Risk::Low);
    assert_eq!(Risk::High.label(), "高危");
}

#[test]
fn ranking_most_frequent_first() {
    let mut t = Tally::new();
    for k in ["a", "b", "b", "c", "c", "c", "d"] {
        t.increment(k.to_string());
    }
    let r = ranked(&t);
    assert_eq!(
        r,
        vec![
            ("c".to_string(), 3),
            ("b".to_string(), 2),
            ("a".to_string(), 1),
            ("d".to_string(), 1)
        ]
    );
}

#[test]
fn csv_rows_and_escaping() {
    let rows = vec![
        ("C:\\x\\a,b.sys".to_string(), 40),
        ("C:\\y\\q\"t.dll".to_string(), 12),
        ("C:\\z\\plain".to_string(), 3),
    ];
    let csv = high_risk_csv(&rows);
    let expected = "\u{feff}排名,扫描频次,文件路径,风险等级,文件类型,完整路径\n\
1,40,\"C:\\x\\a,b.sys\",高危,sys,\"C:\\x\\a,b.sys\"\n\
2,12,\"C:\\y\\q\"\"t.dll\",中危,dll,\"C:\\y\\q\"t.dll\"\n\
3,3,C:\\z\\plain,低危,C:\\z\\plain,\"C:\\z\\plain\"\n";
    assert_eq!(csv, expected);
    assert_eq!(&csv.as_bytes()[..3], &[0xEF, 0xBB, 0xBF]);
}

#[test]
fn csv_keeps_two_hundred_rows() {
    let rows: Vec<(String, usize)> = (0..250).map(|i| (format!("f{}.x", i), 1)).collect();
    let csv = high_risk_csv(&rows);
    assert_eq!(csv.lines().count(), 201);
    assert!(csv.contains("\n200,1,f199.x,"));
    assert!(!csv.contains("f200.x"));
}

#[test]
fn csv_of_no_rows() {
    let csv = high_risk_csv(&vec![]);
    assert_eq!(csv, "\u{feff}排名,扫描频次,文件路径,风险等级,文件类型,完整路径\n");
}

#[test]
fn decimal_digits() {
    let s: String = decimal_chars(0).into_iter().collect();
    assert_eq!(s, "0");
    let s: String = decimal_chars(1207).into_iter().collect();
    assert_eq!(s, "1207");
}

#[test]
fn shortened_paths() {
    assert_eq!(shorten_path("C:\\short.sys"), "C:\\short.sys");
    let long = "C:\\Windows\\System32\\DriverStore\\FileRepository\\very_long_name.inf";
    assert_eq!(
        shorten_path(long),
        format!("{}...{}", &long[..20], &long[long.len() - 26..])
    );
}

#[test]
fn peak_is_last_maximum() {
    let rows = vec![
        ("01:00-01:59".to_string(), 3),
        ("02:00-02:59".to_string(), 5),
        ("03:00-03:59".to_string(), 5),
        ("04:00-04:59".to_string(), 1),
    ];
    assert_eq!(peak_row(&rows), Some(2));
    assert_eq!(peak_row(&vec![]), None);
}
