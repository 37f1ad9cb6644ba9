use process::metrics::{proc_cpu_centi, proc_mem_centi, total_cpu_centi, total_mem_centi};
use process::{ProcError, RawProcessRecord, RawSystemCounters, System};

fn counters() -> RawSystemCounters {
    RawSystemCounters {
        uptime: b"100.00 50.00\n".to_vec(),
        cpuinfo: b"processor\t: 0\n".to_vec(),
        cpu_stat: b"cpu  100 0 50 800 0 0 0 0 0\ncpu0 1 2 3 4 5 6 7 8 9\n".to_vec(),
        meminfo: b"MemTotal: 1000 kB\nMemFree: 200 kB\nBuffers: 50 kB\nCached: 50 kB\n".to_vec(),
        passwd: b"root:x:0:0:root:/root:/bin/bash\nuser:x:1000:1000::/home/u:/bin/sh\n".to_vec(),
    }
}

fn record(pid: &str, name: &str, ppid: u32, rss: u64) -> RawProcessRecord {
    let status = format!(
        "Name:\t{}\nUid:\t1000\t1000\t1000\t1000\nPPid:\t{}\nVmRSS:\t{} kB\n",
        name, ppid, rss
    );
    RawProcessRecord {
        name: pid.as_bytes().to_vec(),
        status: Some(status.into_bytes()),
        stat: Some(b"1 (x) S 0 0 0 0 0 0 0 0 0 0 0 0 0 0 0 0 0 0 0 0 0".to_vec()),
        exe_path: b"/bin/x".to_vec(),
    }
}

#[test]
fn total_memory_formula() {
    // MemTotal=1000, MemFree=200, Buffers=50, Cached=50: 100 - 300/1000*100 = 70.0%
    let meminfo = b"MemTotal: 1000 kB\nMemFree: 200 kB\nBuffers: 50 kB\nCached: 50 kB\n";
    assert_eq!(total_mem_centi(meminfo), Some(7000));
}

#[test]
fn total_cpu_formula() {
    // fields [100,0,50,800,0,0,0,0,0]: sum=950, idle=800: 100 - 800/950*100 = 15.79%
    let stat = b"cpu  100 0 50 800 0 0 0 0 0\n";
    assert_eq!(total_cpu_centi(stat), Some(1579));
}

#[test]
fn total_cpu_rejects_malformed_field() {
    assert_eq!(total_cpu_centi(b"cpu 100 0 x 800 0 0 0 0 0\n"), None);
}

#[test]
fn total_cpu_of_empty_record_is_zero() {
    assert_eq!(total_cpu_centi(b""), Some(0));
}

#[test]
fn proc_mem_formula() {
    assert_eq!(proc_mem_centi(300, 1000), 3000);
    assert_eq!(proc_mem_centi(7, 0), 0);
    // Resident memory far beyond the total saturates instead of wrapping.
    assert_eq!(proc_mem_centi(u64::MAX, 1), u64::MAX);
}

#[test]
fn total_memory_clamps_at_zero() {
    // More free+buffers+cached than total reads as 0% used, not a wrap.
    let meminfo = b"MemTotal: 100 kB\nMemFree: 200 kB\nBuffers: 0 kB\nCached: 0 kB\n";
    assert_eq!(total_mem_centi(meminfo), Some(0));
    let zero_total = b"MemTotal: 0 kB\nMemFree: 5 kB\nBuffers: 0 kB\nCached: 0 kB\n";
    assert_eq!(total_mem_centi(zero_total), Some(0));
}

#[test]
fn proc_cpu_formula() {
    // 200 ticks over 100 s at 100 ticks/s on one cpu: 2% of lifetime.
    assert_eq!(proc_cpu_centi(100, 100, 0, 10000, 100, 1), 200);
    // A process whose start time lies beyond the uptime reads as 0.
    assert_eq!(proc_cpu_centi(100, 100, 20000, 10000, 100, 1), 0);
    assert_eq!(proc_cpu_centi(100, 100, 0, 10000, 100, 0), 0);
}

#[test]
fn refresh_fills_snapshot_and_totals() {
    let mut sys = System::new();
    let records = vec![record("1", "init", 0, 300), record("2", "shell", 1, 100)];
    assert!(sys.refresh_system_info(&records, &counters()).is_ok());
    let list = sys.get_procs_as_list();
    assert_eq!(list.len(), 2);
    assert_eq!(sys.get_total_cpu_usage(), 1579);
    assert_eq!(sys.get_total_mem_usage(), 7000);
    let p = sys.get_proc_info(&1).expect("pid 1 sampled");
    assert_eq!(p.get_name(), &b"init".to_vec());
    assert_eq!(p.get_ppid(), 0);
    assert_eq!(p.get_pid(), 1);
    assert_eq!(p.get_user(), &b"user".to_vec());
    assert_eq!(p.get_path(), &b"/bin/x".to_vec());
    assert_eq!(p.get_mem_used(), 3000);
    assert!(sys.get_proc_info(&3).is_none());
}

#[test]
fn refresh_with_empty_listing_succeeds_empty() {
    let mut sys = System::new();
    let records: Vec<RawProcessRecord> = Vec::new();
    assert!(sys.refresh_system_info(&records, &counters()).is_ok());
    assert_eq!(sys.get_procs_as_list().len(), 0);
}

#[test]
fn refresh_replaces_prior_snapshot() {
    let mut sys = System::new();
    let first = vec![record("1", "init", 0, 300)];
    assert!(sys.refresh_system_info(&first, &counters()).is_ok());
    assert!(sys.get_proc_info(&1).is_some());
    let second = vec![record("2", "shell", 1, 100)];
    assert!(sys.refresh_system_info(&second, &counters()).is_ok());
    assert!(sys.get_proc_info(&1).is_none());
    assert!(sys.get_proc_info(&2).is_some());
}

#[test]
fn refresh_skips_non_pid_entries() {
    let mut sys = System::new();
    let mut rec = record("1", "init", 0, 300);
    rec.name = b"self".to_vec();
    assert!(sys.refresh_system_info(&vec![rec], &counters()).is_ok());
    assert_eq!(sys.get_procs_as_list().len(), 0);
}

#[test]
fn refresh_keeps_last_record_of_duplicate_pid() {
    let mut sys = System::new();
    let records = vec![record("1", "first", 0, 300), record("1", "second", 0, 100)];
    assert!(sys.refresh_system_info(&records, &counters()).is_ok());
    let list = sys.get_procs_as_list();
    assert_eq!(list.len(), 1);
    assert_eq!(list[0].1.get_name(), &b"second".to_vec());
}

#[test]
fn unreadable_record_aborts_and_keeps_prior_snapshot() {
    let mut sys = System::new();
    assert!(sys.refresh_system_info(&vec![record("1", "init", 0, 300)], &counters()).is_ok());
    let mut bad = record("2", "gone", 1, 0);
    bad.status = None;
    let r = sys.refresh_system_info(&vec![bad], &counters());
    assert_eq!(r, Err(ProcError::Io));
    // The prior snapshot is retained on failure.
    assert!(sys.get_proc_info(&1).is_some());
}

#[test]
fn malformed_stat_field_is_a_parse_error() {
    let mut sys = System::new();
    let mut bad = record("1", "init", 0, 300);
    bad.stat = Some(b"1 (x) S 0 0 0 0 0 0 0 0 0 0 bad 0 0 0 0 0 0 0 0 0".to_vec());
    let r = sys.refresh_system_info(&vec![bad], &counters());
    assert_eq!(r, Err(ProcError::Parse));
}

#[test]
fn malformed_pid_entry_is_a_parse_error() {
    let mut sys = System::new();
    let r = sys.refresh_system_info(&vec![record("1x", "init", 0, 300)], &counters());
    assert_eq!(r, Err(ProcError::Parse));
}

#[test]
fn malformed_total_memory_counter_aborts_refresh() {
    let mut sys = System::new();
    assert!(sys.refresh_system_info(&vec![record("1", "init", 0, 300)], &counters()).is_ok());
    let mut bad = counters();
    bad.meminfo = b"MemTotal: oops kB\n".to_vec();
    let r = sys.refresh_system_info(&vec![record("2", "x", 1, 0)], &bad);
    assert_eq!(r, Err(ProcError::Parse));
    assert!(sys.get_proc_info(&1).is_some());
    assert_eq!(sys.get_total_mem_usage(), 7000);
}

#[test]
fn malformed_uptime_is_a_parse_error_when_sampling() {
    let mut sys = System::new();
    let mut bad = counters();
    bad.uptime = b"not-a-number\n".to_vec();
    let r = sys.refresh_system_info(&vec![record("1", "init", 0, 300)], &bad);
    assert_eq!(r, Err(ProcError::Parse));
    // With nothing to sample the uptime record is never read.
    let none: Vec<process::RawProcessRecord> = Vec::new();
    assert!(sys.refresh_system_info(&none, &bad).is_ok());
}

#[test]
fn listing_read_is_non_destructive() {
    let mut sys = System::new();
    assert!(sys.refresh_system_info(&vec![record("1", "init", 0, 300)], &counters()).is_ok());
    assert_eq!(sys.get_procs_as_list().len(), 1);
    assert_eq!(sys.get_procs_as_list().len(), 1);
}

#[test]
fn snapshot_keys_match_stored_pids() {
    let mut sys = System::new();
    let records = vec![record("5", "a", 0, 1), record("9", "b", 5, 1)];
    assert!(sys.refresh_system_info(&records, &counters()).is_ok());
    for (pid, proc_info) in sys.get_procs_as_list() {
        assert_eq!(pid, proc_info.get_pid());
        let looked_up = sys.get_proc_info(&pid).expect("listed pid resolves");
        assert_eq!(looked_up.get_pid(), pid);
    }
}
