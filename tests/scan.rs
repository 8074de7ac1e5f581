use ace_log_stats::category::{categorize, categorize_target, category_of_path, Category};
use ace_log_stats::field::extract_field;
use ace_log_stats::hour::extract_hour;
use ace_log_stats::stats::{hour_label_string, parse_ace_logs_precise, AceScanStats};
use ace_log_stats::tally::Tally;
use ace_log_stats::width::{display_width, pad_to_width};

fn separator() -> String {
    ">".repeat(60)
}

fn entry(time: &str, file: &str, blocked: bool, process: &str, rule: &str) -> String {
    format!(
        "2024-01-01 {} SGuard64\n操作进程：{}\n操作进程命令行：\"{}\" -scan\n触犯规则：{}\n操作类型：读取\n操作文件：{}\n操作结果：{}\n",
        time,
        process,
        process,
        rule,
        file,
        if blocked { "已阻止" } else { "已允许" }
    )
}

#[test]
fn field_between_prefix_and_terminator() {
    assert_eq!(extract_field("P:abcXdef", "P:", &["X", "Y"]), Some("abc"));
}

#[test]
fn field_missing_after_prefix() {
    assert_eq!(extract_field("P:", "P:", &["X", "Y"]), None);
}

#[test]
fn field_runs_to_end_without_terminator() {
    assert_eq!(extract_field("P:abc", "P:", &["X", "Y"]), Some("abc"));
}

#[test]
fn field_missing_prefix() {
    assert_eq!(extract_field("abcXdef", "P:", &["X"]), None);
}

#[test]
fn field_empty_span() {
    assert_eq!(extract_field("P:Xabc", "P:", &["X"]), None);
}

#[test]
fn field_nearest_terminator_in_any_order() {
    let a = extract_field("P:abYcXd", "P:", &["X", "Y"]);
    let b = extract_field("P:abYcXd", "P:", &["Y", "X"]);
    assert_eq!(a, Some("ab"));
    assert_eq!(a, b);
}

#[test]
fn field_multibyte_text() {
    let text = "操作文件：C:\\a.sys\r\n操作结果：已阻止";
    assert_eq!(extract_field(text, "操作文件：", &["操作结果：", "\r\n", "\n"]), Some("C:\\a.sys"));
}

#[test]
fn hour_from_first_line() {
    assert_eq!(extract_hour("2024-01-01 05:23:11 extra"), Some(5));
}

#[test]
fn hour_out_of_range() {
    assert_eq!(extract_hour("2024-01-01 25:00:00"), None);
}

#[test]
fn hour_needs_two_tokens() {
    assert_eq!(extract_hour("2024-01-01"), None);
    assert_eq!(extract_hour(""), None);
}

#[test]
fn hour_only_first_line() {
    assert_eq!(extract_hour("header\n2024-01-01 05:00:00"), None);
    assert_eq!(extract_hour("2024-01-01   23:59:59\nnext"), Some(23));
}

#[test]
fn hour_not_a_number() {
    assert_eq!(extract_hour("2024-01-01 ab:00:00"), None);
    assert_eq!(extract_hour("2024-01-01 +7:00:00"), Some(7));
    assert_eq!(extract_hour("2024-01-01 99999999999:00"), None);
}

#[test]
fn drivers_before_system32() {
    assert_eq!(
        category_of_path("C:\\Windows\\System32\\drivers\\storqosflt.sys"),
        Category::SystemDriver
    );
    assert_eq!(Category::SystemDriver.label(), "System Driver");
}

#[test]
fn category_priority_order() {
    assert_eq!(categorize("c:\\windows\\system32\\ntdll.dll"), Category::System32Core);
    assert_eq!(categorize("c:\\windows\\syswow64\\x.dll"), Category::SysWow64);
    assert_eq!(categorize("c:\\windows\\microsoft.net\\x.dll"), Category::DotNet);
    assert_eq!(categorize("c:\\program files\\anti cheat expert\\x"), Category::AntiCheat);
    assert_eq!(categorize("c:\\program files\\windowsapps\\x"), Category::WindowsApps);
    assert_eq!(categorize("c:\\programdata\\x"), Category::UserData);
    assert_eq!(categorize("c:\\windows\\winsxs\\x"), Category::ComponentStore);
    assert_eq!(categorize("d:\\games\\x.bin"), Category::Other);
}

#[test]
fn category_ignores_case() {
    assert_eq!(category_of_path("C:\\WINDOWS\\SYSTEM32\\NTDLL.DLL"), Category::System32Core);
    assert_eq!(
        category_of_path("C:\\WINDOWS\\SYSTEM32\\NTDLL.DLL"),
        category_of_path("C:\\WINDOWS\\SYSTEM32\\NTDLL.DLL")
    );
}

#[test]
fn categorize_target_counts_label() {
    let mut t = Tally::new();
    categorize_target("C:\\Windows\\SysWOW64\\drivers\\a.sys", &mut t);
    categorize_target("C:\\Windows\\SysWOW64\\drivers\\b.sys", &mut t);
    categorize_target("D:\\x.txt", &mut t);
    assert_eq!(t.get("System Driver"), 2);
    assert_eq!(t.get("Other System File"), 1);
    assert_eq!(t.len(), 2);
}

#[test]
fn tally_counts() {
    let mut t = Tally::new();
    t.increment("a".to_string());
    t.increment("b".to_string());
    t.increment("a".to_string());
    assert_eq!(t.get("a"), 2);
    assert_eq!(t.get("b"), 1);
    assert_eq!(t.get("c"), 0);
    assert_eq!(t.entries(), vec![("a".to_string(), 2), ("b".to_string(), 1)]);
}

#[test]
fn end_to_end_two_entries() {
    let path = "C:\\Windows\\System32\\drivers\\storqosflt.sys";
    let process = "C:\\Program Files\\AntiCheatExpert\\SGuard64.exe";
    let blob = format!(
        "{}{}{}",
        entry("03:15:00", path, true, process, "ACE扫盘"),
        separator(),
        entry("03:45:00", path, false, process, "ACE扫盘")
    );
    let stats = parse_ace_logs_precise(&blob);
    assert_eq!(stats.total_attempts, 2);
    assert_eq!(stats.blocked_attempts, 1);
    assert_eq!(stats.unique_files.get(path), 2);
    assert_eq!(stats.target_categories.get("System Driver"), 2);
    assert_eq!(stats.time_distribution(), vec![("03:00-03:59".to_string(), 2)]);
    assert_eq!(stats.processes.get("SGuard64.exe"), 2);
    assert_eq!(stats.rules_triggered.get("ACE扫盘"), 2);
    assert_eq!(stats.file_extensions.get("sys"), 2);
}

#[test]
fn round_trip_synthetic_log() {
    let n = 10;
    let mut parts = Vec::new();
    for i in 0..n {
        parts.push(entry(
            &format!("{:02}:00:00", i),
            &format!("C:\\data\\file{}.BIN", i),
            i % 2 == 1,
            &format!("C:\\p\\proc{}.exe", i),
            &format!("rule{}", i),
        ));
    }
    let blob = parts.join(&separator());
    let stats = parse_ace_logs_precise(&blob);
    assert_eq!(stats.total_attempts, n);
    assert_eq!(stats.blocked_attempts, n / 2);
    assert_eq!(stats.unique_files.len(), n);
    assert_eq!(stats.processes.len(), n);
    assert_eq!(stats.rules_triggered.len(), n);
    assert_eq!(stats.file_extensions.get("bin"), n);
    assert!(stats.blocked_attempts <= stats.total_attempts);
}

#[test]
fn segments_without_anchors_ignored() {
    let path = "C:\\x\\a.dll";
    let p = "C:\\p\\SGuardSvc64.exe";
    let blob = format!(
        "{}{}{}{}{}{}   \n",
        entry("01:00:00", path, true, p, "r"),
        separator(),
        "2024-01-01 02:00:00 other\n操作文件：C:\\y\\b.dll\n操作结果：已阻止\n",
        separator(),
        "2024-01-01 02:00:00 SGuard64 without file anchor\n操作结果：已阻止\n",
        separator()
    );
    let stats = parse_ace_logs_precise(&blob);
    assert_eq!(stats.total_attempts, 1);
    assert_eq!(stats.blocked_attempts, 1);
    assert_eq!(stats.unique_files.len(), 1);
    assert_eq!(stats.unique_files.get("C:\\y\\b.dll"), 0);
    assert_eq!(stats.time_distribution(), vec![("01:00-01:59".to_string(), 1)]);
}

#[test]
fn parse_twice_identical() {
    let blob = format!(
        "{}{}{}",
        entry("07:00:00", "C:\\a\\x.sys", true, "C:\\p\\a.exe", "r1"),
        separator(),
        entry("08:30:00", "C:\\b\\y.dll", false, "C:\\p\\b.exe", "r2")
    );
    let a: AceScanStats = parse_ace_logs_precise(&blob);
    let b: AceScanStats = parse_ace_logs_precise(&blob);
    assert_eq!(a.total_attempts, b.total_attempts);
    assert_eq!(a.blocked_attempts, b.blocked_attempts);
    assert_eq!(a.unique_files.entries(), b.unique_files.entries());
    assert_eq!(a.processes.entries(), b.processes.entries());
    assert_eq!(a.rules_triggered.entries(), b.rules_triggered.entries());
    assert_eq!(a.file_extensions.entries(), b.file_extensions.entries());
    assert_eq!(a.target_categories.entries(), b.target_categories.entries());
    assert_eq!(a.time_distribution(), b.time_distribution());
}

#[test]
fn empty_log_has_no_attempts() {
    let stats = parse_ace_logs_precise("");
    assert_eq!(stats.total_attempts, 0);
    assert_eq!(stats.time_distribution(), vec![]);
}

#[test]
fn extension_and_process_edge_cases() {
    let blob = format!(
        "2024-01-01 xx SGuard\n操作进程：C:\\p\\\n操作文件：C:\\dir\\NOEXT\n{}2024-01-01 xx SGuard\n操作文件：C:\\dir\\trail.\n",
        separator()
    );
    let stats = parse_ace_logs_precise(&blob);
    assert_eq!(stats.total_attempts, 2);
    assert_eq!(stats.processes.get("unknown"), 1);
    assert_eq!(stats.file_extensions.get("no-extension"), 2);
    assert_eq!(stats.time_distribution(), vec![]);
}

#[test]
fn extension_lowercased() {
    let blob = "2024-01-01 10:00:00 SGuard\n操作文件：C:\\dir\\Game.EXE\n";
    let stats = parse_ace_logs_precise(blob);
    assert_eq!(stats.file_extensions.get("exe"), 1);
    assert_eq!(stats.file_extensions.get("EXE"), 0);
    assert_eq!(stats.unique_files.get("C:\\dir\\Game.EXE"), 1);
}

#[test]
fn hour_labels() {
    assert_eq!(hour_label_string(3), "03:00-03:59");
    assert_eq!(hour_label_string(23), "23:00-23:59");
}

#[test]
fn widths() {
    assert_eq!(display_width("abc"), 3);
    assert_eq!(display_width("ab中文"), 6);
    assert_eq!(display_width(""), 0);
}

#[test]
fn padding_and_clipping() {
    assert_eq!(pad_to_width("abc", 5), "abc  ");
    assert_eq!(pad_to_width("abcdef", 4), "abc…");
    assert_eq!(pad_to_width("abcd", 4), "abc…");
    assert_eq!(pad_to_width("中文字", 4), "中…");
}
