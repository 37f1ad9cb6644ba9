use process::parse::{
    cpu_count, is_pid_entry, last_token, meminfo_field, nth_token, parse_u32, parse_u64,
    status_name, status_ppid, status_rss, status_uid, uptime_centis, user_for_uid,
};

#[test]
fn parse_u64_accepts_plain_numerals() {
    assert_eq!(parse_u64(b"0"), Some(0));
    assert_eq!(parse_u64(b"123"), Some(123));
    assert_eq!(parse_u64(b"18446744073709551615"), Some(u64::MAX));
}

#[test]
fn parse_u64_rejects_empty_and_malformed() {
    assert_eq!(parse_u64(b""), None);
    assert_eq!(parse_u64(b"12a"), None);
    assert_eq!(parse_u64(b"-3"), None);
    assert_eq!(parse_u64(b"18446744073709551616"), None);
}

#[test]
fn parse_u32_bounds() {
    assert_eq!(parse_u32(b"4294967295"), Some(u32::MAX));
    assert_eq!(parse_u32(b"4294967296"), None);
}

#[test]
fn tokens_split_on_whitespace() {
    assert_eq!(nth_token(b"  a bb\tccc \n", 0), Some(b"a".to_vec()));
    assert_eq!(nth_token(b"  a bb\tccc \n", 1), Some(b"bb".to_vec()));
    assert_eq!(nth_token(b"  a bb\tccc \n", 2), Some(b"ccc".to_vec()));
    assert_eq!(nth_token(b"  a bb\tccc \n", 3), None);
    assert_eq!(last_token(b"  a bb\tccc \n"), Some(b"ccc".to_vec()));
    assert_eq!(last_token(b"   \n"), None);
}

#[test]
fn status_name_takes_value_of_name_line() {
    let status = b"Header: x\nName:\tbash\nPPid:\t7\n";
    assert_eq!(status_name(status), b"bash".to_vec());
    assert_eq!(status_name(b"PPid: 3\n"), Vec::<u8>::new());
}

#[test]
fn status_ppid_defaults_to_zero() {
    assert_eq!(status_ppid(b"Name: x\nPPid:\t42\n"), 42);
    assert_eq!(status_ppid(b"Name: x\nPPid:\tnope\n"), 0);
    assert_eq!(status_ppid(b"Name: x\n"), 0);
}

#[test]
fn status_rss_reads_second_token() {
    assert_eq!(status_rss(b"VmRSS:\t  1234 kB\n"), 1234);
    assert_eq!(status_rss(b"Name: x\n"), 0);
    assert_eq!(status_rss(b"VmRSS: bad kB\n"), 0);
}

#[test]
fn uid_and_user_resolution() {
    let status = b"Uid:\t1000\t1000\t1000\t1000\n";
    assert_eq!(status_uid(status), b"1000".to_vec());
    let passwd = b"root:x:0:0:root:/root:/bin/bash\nuser:x:1000:1000::/home/u:/bin/sh\n";
    assert_eq!(user_for_uid(passwd, b"1000"), b"user".to_vec());
    assert_eq!(user_for_uid(passwd, b"0"), b"root".to_vec());
    assert_eq!(user_for_uid(passwd, b"42"), Vec::<u8>::new());
}

#[test]
fn meminfo_field_reads_labeled_lines() {
    let meminfo = b"MemTotal: 1000 kB\nMemFree: 200 kB\n";
    assert_eq!(meminfo_field(meminfo, b"MemTotal:"), Some(1000));
    assert_eq!(meminfo_field(meminfo, b"MemFree:"), Some(200));
    assert_eq!(meminfo_field(meminfo, b"Cached:"), Some(0));
    assert_eq!(meminfo_field(b"MemTotal: bad kB\n", b"MemTotal:"), None);
}

#[test]
fn uptime_reads_centiseconds() {
    assert_eq!(uptime_centis(b"123.45 99.20\n"), Some(12345));
    assert_eq!(uptime_centis(b"7\n"), Some(700));
    assert_eq!(uptime_centis(b"7.5\n"), Some(750));
    assert_eq!(uptime_centis(b"7.\n"), Some(700));
    assert_eq!(uptime_centis(b""), None);
    assert_eq!(uptime_centis(b"x.2\n"), None);
}

#[test]
fn cpu_count_counts_processor_lines() {
    let cpuinfo = b"processor\t: 0\nmodel name: z\nprocessor\t: 1\n";
    assert_eq!(cpu_count(cpuinfo), 2);
    assert_eq!(cpu_count(b"model name: z\n"), 0);
}

#[test]
fn pid_entries_start_with_a_digit() {
    assert!(is_pid_entry(b"123"));
    assert!(is_pid_entry(b"1abc"));
    assert!(!is_pid_entry(b"self"));
    assert!(!is_pid_entry(b""));
}
