//! Utilization formulas over the parsed counters, as exact fixed-point
//! arithmetic in hundredths of a percent (10000 = 100%).

use vstd::prelude::*;
use vstd::arithmetic::div_mod::lemma_div_is_ordered;

use crate::parse::{
    find_byte, label_buffers, label_buffers_x, label_cached, label_cached_x, label_memfree,
    label_memfree_x, label_memtotal, label_memtotal_x, meminfo_field, spec_find_byte,
    spec_meminfo_field, spec_stat_field, stat_field,
};

verus! {

/// Sum of the counter fields 1 through `k` of the leading line (missing
/// tokens count as 0; malformed ones contribute their parsed prefix
/// semantics through [`spec_stat_field`], which the callers rule out).
pub open spec fn spec_cpu_sum(line: Seq<u8>, k: nat) -> int
    decreases k,
{
    if k == 0 {
        0
    } else {
        spec_cpu_sum(line, (k - 1) as nat) + (match spec_stat_field(line, k) {
            Some(v) => v as int,
            None => 0,
        })
    }
}

/// Whether the nine counter fields of the line all parse.
pub open spec fn spec_cpu_fields_ok(line: Seq<u8>) -> bool {
    forall|k: nat| 1 <= k <= 9 ==> (#[trigger] spec_stat_field(line, k)) is Some
}

/// Total CPU usage in hundredths of a percent, from the leading line of
/// the system counter record. With the nine counter fields `f1..f9`
/// (the whitespace tokens after the label; a missing token counts as 0)
/// and `idle = f4`, the value is `10000 - idle*10000/(f1+..+f9)`, or 0
/// when the sum is 0. `None` when one of the nine tokens is present but
/// not a numeral.
pub open spec fn spec_total_cpu_centi(stat: Seq<u8>) -> Option<u64> {
    let line = stat.subrange(0, spec_find_byte(stat, 0, 10));
    if !spec_cpu_fields_ok(line) {
        None
    } else {
        let sum = spec_cpu_sum(line, 9);
        let idle = match spec_stat_field(line, 4) {
            Some(v) => v as int,
            None => 0,
        };
        if sum == 0 {
            Some(0)
        } else {
            Some((10000 - (idle * 10000) / sum) as u64)
        }
    }
}

pub fn total_cpu_centi(stat: &[u8]) -> (r: Option<u64>)
    ensures
        r == spec_total_cpu_centi(stat@),
{
    let e = find_byte(stat, 0, 10);
    let line = vstd::slice::slice_subrange(stat, 0, e);
    let mut sum: u128 = 0;
    let mut idle: u64 = 0;
    let mut k: usize = 1;
    while k <= 9
        invariant
            1 <= k <= 10,
            line@ == stat@.subrange(0, spec_find_byte(stat@, 0, 10)),
            sum == spec_cpu_sum(line@, (k - 1) as nat),
            sum <= (k - 1) * (u64::MAX as int),
            forall|j: nat| 1 <= j < k ==> (#[trigger] spec_stat_field(line@, j)) is Some,
            k > 4 ==> Some(idle) == spec_stat_field(line@, 4) && idle <= sum,
        decreases 10 - k,
    {
        match stat_field(line, k) {
            Some(v) => {
                sum = sum + (v as u128);
                if k == 4 {
                    idle = v;
                }
            },
            None => {
                proof {
                    assert(spec_stat_field(line@, k as nat) is None);
                    assert(!spec_cpu_fields_ok(line@));
                }
                return None;
            },
        }
        k += 1;
    }
    if sum == 0 {
        Some(0)
    } else {
        let q: u128 = (idle as u128) * 10000 / sum;
        proof {
            assert((idle as int) * 10000 <= (sum as int) * 10000) by (nonlinear_arith)
                requires
                    idle as int <= sum as int,
            ;
            lemma_div_is_ordered((idle as int) * 10000, (sum as int) * 10000, sum as int);
            assert((sum as int) * 10000 / (sum as int) == 10000) by (nonlinear_arith)
                requires
                    sum as int > 0,
            ;
        }
        Some((10000 - q) as u64)
    }
}

/// Total memory usage in hundredths of a percent: with `total` from the
/// `MemTotal:` line and `avail` the sum of the `MemFree:`, `Buffers:`
/// and `Cached:` lines (all in kB), the value is
/// `10000 - avail*10000/total`, clamped to 0 when `avail*10000/total`
/// reaches 10000, and 0 when `total` is 0. `None` when one of the four
/// tokens is present but not a numeral.
pub open spec fn spec_total_mem_centi(meminfo: Seq<u8>) -> Option<u64> {
    match (
        spec_meminfo_field(meminfo, label_memtotal()),
        spec_meminfo_field(meminfo, label_memfree()),
        spec_meminfo_field(meminfo, label_buffers()),
        spec_meminfo_field(meminfo, label_cached()),
    ) {
        (Some(total), Some(free), Some(buf), Some(cac)) => {
            if total == 0 {
                Some(0)
            } else {
                let frac = ((free + buf + cac) * 10000) / (total as int);
                if frac >= 10000 {
                    Some(0)
                } else {
                    Some((10000 - frac) as u64)
                }
            }
        },
        _ => None,
    }
}

pub fn total_mem_centi(meminfo: &[u8]) -> (r: Option<u64>)
    ensures
        r == spec_total_mem_centi(meminfo@),
{
    let ltotal = label_memtotal_x();
    let lfree = label_memfree_x();
    let lbuf = label_buffers_x();
    let lcac = label_cached_x();
    let total = match meminfo_field(meminfo, ltotal.as_slice()) {
        Some(v) => v,
        None => {
            return None;
        },
    };
    let free = match meminfo_field(meminfo, lfree.as_slice()) {
        Some(v) => v,
        None => {
            return None;
        },
    };
    let buf = match meminfo_field(meminfo, lbuf.as_slice()) {
        Some(v) => v,
        None => {
            return None;
        },
    };
    let cac = match meminfo_field(meminfo, lcac.as_slice()) {
        Some(v) => v,
        None => {
            return None;
        },
    };
    if total == 0 {
        Some(0)
    } else {
        let avail: u128 = free as u128 + buf as u128 + cac as u128;
        let frac: u128 = avail * 10000 / (total as u128);
        if frac >= 10000 {
            Some(0)
        } else {
            Some((10000 - frac) as u64)
        }
    }
}

/// Per-process memory usage in hundredths of a percent:
/// `rss*10000/total`, saturated at `u64::MAX`; 0 when `total` is 0.
pub open spec fn spec_proc_mem_centi(rss: u64, total: u64) -> u64 {
    if total == 0 {
        0
    } else {
        let v = ((rss as int) * 10000) / (total as int);
        if v > u64::MAX as int {
            u64::MAX
        } else {
            v as u64
        }
    }
}

pub fn proc_mem_centi(rss: u64, total: u64) -> (r: u64)
    ensures
        r == spec_proc_mem_centi(rss, total),
{
    if total == 0 {
        0
    } else {
        let v: u128 = (rss as u128) * 10000 / (total as u128);
        if v > u64::MAX as u128 {
            u64::MAX
        } else {
            v as u64
        }
    }
}

/// Per-process CPU usage in hundredths of a percent, a lifetime average
/// since the process started: with `elapsed = tck*uptime_cs -
/// 100*starttime` (the process's lifetime in clock ticks, scaled by
/// 100), the value is `1000000*total_ticks / elapsed / ncpus`,
/// saturated at `u64::MAX`. It is 0 when `elapsed` is not positive (a
/// process that appears to have started this instant, or clock skew) or
/// when `ncpus` is 0.
pub open spec fn spec_proc_cpu_centi(
    total_ticks: int,
    starttime: int,
    uptime_cs: int,
    tck: int,
    ncpus: int,
) -> u64 {
    let elapsed = tck * uptime_cs - 100 * starttime;
    if ncpus <= 0 || elapsed <= 0 || total_ticks < 0 {
        0
    } else {
        let v = 1000000 * total_ticks / elapsed / ncpus;
        if v > u64::MAX as int {
            u64::MAX
        } else {
            v as u64
        }
    }
}

pub fn proc_cpu_centi(
    utime: u64,
    stime: u64,
    starttime: u64,
    uptime_cs: u64,
    tck: u64,
    ncpus: usize,
) -> (r: u64)
    requires
        1 <= tck <= 1000000,
    ensures
        r == spec_proc_cpu_centi(
            utime as int + stime as int,
            starttime as int,
            uptime_cs as int,
            tck as int,
            ncpus as int,
        ),
{
    proof {
        assert((tck as int) * (uptime_cs as int) <= 1000000 * (u64::MAX as int))
            by (nonlinear_arith)
            requires
                1 <= tck as int <= 1000000,
                0 <= uptime_cs as int <= u64::MAX as int,
        ;
    }
    let a: u128 = (tck as u128) * (uptime_cs as u128);
    let b: u128 = 100 * (starttime as u128);
    if ncpus == 0 || a <= b {
        0
    } else {
        let elapsed: u128 = a - b;
        let num: u128 = 1000000 * ((utime as u128) + (stime as u128));
        let v: u128 = num / elapsed / (ncpus as u128);
        if v > u64::MAX as u128 {
            u64::MAX
        } else {
            v as u64
        }
    }
}

} // verus!
