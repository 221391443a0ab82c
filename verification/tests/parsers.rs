use memtop::process::{
    file_get_name, file_get_stat, file_get_tgid, get_pids_of_all_processes, is_kernel_thread,
    parse_rss_and_pss, parse_smaps_rollup, proc_file_path, proc_get_threads_ids, stat_would_panic,
    thread_file_path,
};
use memtop::text::{decimal_string, parse_i32, parse_u32, parse_u64};

fn chars(s: &str) -> Vec<char> {
    s.chars().collect()
}

fn u32_of(s: &str) -> Option<u32> {
    let c = chars(s);
    parse_u32(&c, 0, c.len())
}

fn i32_of(s: &str) -> Option<i32> {
    let c = chars(s);
    parse_i32(&c, 0, c.len())
}

fn u64_of(s: &str) -> Option<u64> {
    let c = chars(s);
    parse_u64(&c, 0, c.len())
}

#[test]
fn numbers_parse_as_std_does() {
    for s in ["0", "42", "+7", "4294967295", "4294967296", "", "+", "-1", "1a", "007", "++1", " 1"] {
        assert_eq!(u32_of(s), s.parse::<u32>().ok(), "u32 {:?}", s);
    }
    for s in ["-2147483648", "-2147483649", "2147483647", "2147483648", "-", "-0", "+5", "--1"] {
        assert_eq!(i32_of(s), s.parse::<i32>().ok(), "i32 {:?}", s);
    }
    for s in ["18446744073709551615", "18446744073709551616", "99999999999999999999999", "12"] {
        assert_eq!(u64_of(s), s.parse::<u64>().ok(), "u64 {:?}", s);
    }
}

#[test]
fn kernel_thread_flag() {
    assert!(is_kernel_thread(0x0020_0000));
    assert!(is_kernel_thread(0x0020_8040));
    assert!(!is_kernel_thread(0x0040_0100));
    assert!(!is_kernel_thread(0));
}

const STAT: &str = "1234 (my proc) R 1 1234 1234 0 -1 4194304 100 0 0 0 11 22 -3 4 20 -5 1 0 5555 6666 77 18446744073709551615 1 1\n";

#[test]
fn stat_fields() {
    let st = file_get_stat(STAT.as_bytes()).unwrap();
    assert_eq!(st.comm, "my proc");
    assert_eq!(st.state, 'R');
    assert_eq!(st.ppid, 1);
    assert!(!st.is_kernel_thread);
    assert_eq!(st.utime, 11);
    assert_eq!(st.stime, 22);
    assert_eq!(st.priority, 20);
    assert_eq!(st.nice, -5);
    assert_eq!(st.start_time, 5555);
    assert_eq!(st.vsize, 6666);
    assert_eq!(st.rss, 77);
}

#[test]
fn stat_errors() {
    // not UTF-8
    assert!(file_get_stat(&[0xff, 0xfe, b'(', b')', b' ']).is_none());
    // no parentheses
    assert!(file_get_stat(b"1 x S 1").is_none());
    // too few fields
    assert!(file_get_stat(b"1 (x) S 1 2 3").is_none());
    // a field that does not parse
    let bad = STAT.replace(" 11 22 ", " 11 x ");
    assert!(file_get_stat(bad.as_bytes()).is_none());
    // a comm with a space and fields split on tabs and new lines
    let tabs = STAT.replace(' ', "\t").replace("my\tproc", "my proc");
    assert_eq!(file_get_stat(tabs.as_bytes()).unwrap().stime, 22);
}

#[test]
fn stat_name_holding_parentheses() {
    let text = format!("9 (a) b) S 1{}", " 0".repeat(20));
    let st = file_get_stat(text.as_bytes()).unwrap();
    assert_eq!(st.comm, "a) b");
    assert_eq!(st.state, 'S');
    assert_eq!(st.ppid, 1);
    let nested = STAT.replace("(my proc)", "((x) (y))");
    assert_eq!(file_get_stat(nested.as_bytes()).unwrap().comm, "(x) (y)");
}

#[test]
fn stat_panic_cases() {
    assert!(!stat_would_panic(STAT.as_bytes()));
    assert!(stat_would_panic(b"1 (x)"));
    assert!(stat_would_panic(b"1 )x( S"));
    assert!(stat_would_panic("1 (x)\u{e9} S".as_bytes()));
    assert!(!stat_would_panic(b"1 (x) "));
    assert!(!stat_would_panic(b"no parens"));
    // the name ends at the last `)`
    assert!(stat_would_panic(b"1 (x) y)"));
    assert!(!stat_would_panic(b"1 (x) y) S"));
}

#[test]
fn tgid_field() {
    let status = "Name:\tbash\nUmask:\t0022\nTgid:\t4321\nPid:\t4322\n";
    assert_eq!(file_get_tgid(status.as_bytes()), Some(4321));
    assert_eq!(file_get_tgid(b"Name:\tbash\n"), None);
    // the first Tgid line decides, even when it has no value
    assert_eq!(file_get_tgid(b"Tgid:\nTgid:\t5\n"), None);
    assert_eq!(file_get_tgid(b"Tgid:\tx\n"), None);
    assert_eq!(file_get_tgid(b"Tgid:\t7\r\n"), Some(7));
    assert_eq!(file_get_tgid(&[0xc3]), None);
}

const SMAPS: &str = "55d0a0000000-7ffd0000 ---p 00000000 00:00 0 [rollup]\nRss:                5120 kB\nPss:                1234 kB\nPss_Dirty:           100 kB\n";

#[test]
fn rss_and_pss() {
    let c = chars(SMAPS);
    assert_eq!(parse_rss_and_pss(&c), (Some(5120), Some(1234)));
    assert_eq!(parse_smaps_rollup(SMAPS.as_bytes()), (Some(5120), Some(1234)));
    assert_eq!(parse_rss_and_pss(&chars("Rss: 1\n")), (Some(1), None));
    // a later Rss line without a value clears the earlier one
    assert_eq!(parse_rss_and_pss(&chars("Rss: 1\nRss:\n")), (None, None));
    // the scan stops once both are known
    assert_eq!(parse_rss_and_pss(&chars("Pss: 2\nRss: 1\nRss: 9\n")), (Some(1), Some(2)));
    assert_eq!(parse_smaps_rollup(&[0x80]), (None, None));
}

#[test]
fn names() {
    assert_eq!(file_get_name(Some("bash\n".to_string())), "bash\n");
    assert_eq!(file_get_name(None), "");
}

#[test]
fn pid_entries() {
    let entries = vec![
        Some("1".to_string()),
        Some("self".to_string()),
        None,
        Some("42".to_string()),
        Some("+3".to_string()),
        Some("99999999999".to_string()),
    ];
    assert_eq!(get_pids_of_all_processes(Some(entries.clone())), Some(vec![1, 42, 3]));
    assert_eq!(proc_get_threads_ids(Some(entries)), Some(vec![1, 42, 3]));
    assert_eq!(get_pids_of_all_processes(None), None);
}

#[test]
fn paths() {
    assert_eq!(proc_file_path(1234, "stat"), "/proc/1234/stat");
    assert_eq!(proc_file_path(0, "comm"), "/proc/0/comm");
    assert_eq!(thread_file_path(12, 345, "comm"), "/proc/12/task/345/comm");
    assert_eq!(decimal_string(4294967295), "4294967295");
    assert_eq!(decimal_string(10), "10");
}

#[test]
fn decimal_reads_back() {
    for n in [0u32, 7, 10, 99, 100, 4096, 65535, 4294967295] {
        let s: Vec<char> = decimal_string(n as u64).chars().collect();
        assert_eq!(parse_u32(&s, 0, s.len()), Some(n));
    }
}
