//! The system aggregator: owns the current snapshot of sampled
//! processes and the system-wide totals, and rebuilds all of it from
//! raw kernel-interface records on each refresh.
//!
//! The caller captures the raw per-process records and the system-wide
//! counter records first and hands them over; the refresh then parses
//! and aggregates without further reads, which keeps the cross-process
//! sampling skew down and makes the whole computation a function of its
//! inputs.

use vstd::prelude::*;

use crate::metrics::{
    proc_cpu_centi, proc_mem_centi, spec_proc_cpu_centi, spec_proc_mem_centi,
    spec_total_cpu_centi, spec_total_mem_centi, total_cpu_centi, total_mem_centi,
};
use crate::parse::{
    cpu_count, is_pid_entry, label_memtotal, label_memtotal_x, meminfo_field, opt_bytes,
    parse_u32, spec_cpu_count, spec_is_pid_entry, spec_meminfo_field, spec_parse_u32,
    spec_stat_field, spec_status_name, spec_status_ppid, spec_status_rss, spec_status_uid,
    spec_uptime_centis, spec_user_for_uid, stat_field, status_name, status_ppid, status_rss,
    status_uid, uptime_centis, user_for_uid,
};

verus! {

/// What can go wrong while refreshing: an unreadable source record, or
/// a malformed numeric token.
#[derive(Clone, Copy, Debug, PartialEq, Eq, Structural)]
pub enum ProcError {
    Io,
    Parse,
}

/// One sampled process. Percentages are fixed-point, in hundredths of
/// a percent; textual values are kept as the raw bytes read from the
/// kernel interface.
pub struct Process {
    pub pid: u32,
    pub name: Vec<u8>,
    pub cpu_used: u64,
    pub mem_used: u64,
    pub path: Vec<u8>,
    pub user: Vec<u8>,
    pub ppid: u32,
}

/// The mathematical value of a [`Process`].
pub ghost struct ProcModel {
    pub pid: u32,
    pub name: Seq<u8>,
    pub cpu_used: u64,
    pub mem_used: u64,
    pub path: Seq<u8>,
    pub user: Seq<u8>,
    pub ppid: u32,
}

impl Process {
    pub open spec fn model(&self) -> ProcModel {
        ProcModel {
            pid: self.pid,
            name: self.name@,
            cpu_used: self.cpu_used,
            mem_used: self.mem_used,
            path: self.path@,
            user: self.user@,
            ppid: self.ppid,
        }
    }

    pub fn get_name(&self) -> (r: &Vec<u8>)
        ensures
            r@ == self.model().name,
    {
        &self.name
    }

    pub fn get_cpu_used(&self) -> (r: u64)
        ensures
            r == self.model().cpu_used,
    {
        self.cpu_used
    }

    pub fn get_mem_used(&self) -> (r: u64)
        ensures
            r == self.model().mem_used,
    {
        self.mem_used
    }

    pub fn get_path(&self) -> (r: &Vec<u8>)
        ensures
            r@ == self.model().path,
    {
        &self.path
    }

    pub fn get_user(&self) -> (r: &Vec<u8>)
        ensures
            r@ == self.model().user,
    {
        &self.user
    }

    pub fn get_ppid(&self) -> (r: u32)
        ensures
            r == self.model().ppid,
    {
        self.ppid
    }

    pub fn get_pid(&self) -> (r: u32)
        ensures
            r == self.model().pid,
    {
        self.pid
    }

    /// A value-equal copy of the record.
    pub fn duplicate(&self) -> (r: Process)
        ensures
            r.model() == self.model(),
    {
        Process {
            pid: self.pid,
            name: vstd::slice::slice_to_vec(self.name.as_slice()),
            cpu_used: self.cpu_used,
            mem_used: self.mem_used,
            path: vstd::slice::slice_to_vec(self.path.as_slice()),
            user: vstd::slice::slice_to_vec(self.user.as_slice()),
            ppid: self.ppid,
        }
    }
}

/// The models of a snapshot's records, in snapshot order.
pub open spec fn models(s: Seq<Process>) -> Seq<ProcModel> {
    s.map_values(|p: Process| p.model())
}

/// Whether a (pid, record) pair carries exactly the given model.
pub open spec fn pair_matches(t: (u32, Process), m: ProcModel) -> bool {
    t.0 == m.pid && t.1.model() == m
}

/// Whether no pid occurs twice.
pub open spec fn pids_distinct(s: Seq<ProcModel>) -> bool {
    forall|i: int, j: int| 0 <= i < j < s.len() ==> s[i].pid != s[j].pid
}

/// Index of the first record with the given pid, at or after `i`.
pub open spec fn spec_model_index(s: Seq<ProcModel>, pid: u32, i: int) -> Option<int>
    decreases s.len() - i,
{
    if i < 0 || i >= s.len() {
        None
    } else if s[i].pid == pid {
        Some(i)
    } else {
        spec_model_index(s, pid, i + 1)
    }
}

/// Law: looking a pid up yields a record whose stored pid is that key,
/// and a miss means no record carries the key.
pub proof fn lemma_lookup_key(s: Seq<ProcModel>, pid: u32, i: int)
    requires
        0 <= i <= s.len(),
    ensures
        match spec_model_index(s, pid, i) {
            Some(j) => i <= j < s.len() && s[j].pid == pid,
            None => forall|m: int| i <= m < s.len() ==> s[m].pid != pid,
        },
    decreases s.len() - i,
{
    if i < s.len() && s[i].pid != pid {
        lemma_lookup_key(s, pid, i + 1);
    }
}

pub(crate) fn find_index(procs: &Vec<Process>, pid: u32, i: usize) -> (r: Option<usize>)
    requires
        i <= procs@.len(),
    ensures
        match r {
            Some(j) => Some(j as int) == spec_model_index(models(procs@), pid, i as int),
            None => spec_model_index(models(procs@), pid, i as int) is None,
        },
    decreases procs@.len() - i,
{
    if i >= procs.len() {
        None
    } else if procs[i].pid == pid {
        Some(i)
    } else {
        find_index(procs, pid, i + 1)
    }
}

/// A raw, unparsed capture of one process-listing entry: the entry's
/// name, its status and stat records (`None` where the record could not
/// be read, the accepted race with process exit), and the resolved
/// executable link (empty where unresolvable).
pub struct RawProcessRecord {
    pub name: Vec<u8>,
    pub status: Option<Vec<u8>>,
    pub stat: Option<Vec<u8>>,
    pub exe_path: Vec<u8>,
}

/// The mathematical value of a [`RawProcessRecord`].
pub ghost struct RawRecModel {
    pub name: Seq<u8>,
    pub status: Option<Seq<u8>>,
    pub stat: Option<Seq<u8>>,
    pub exe_path: Seq<u8>,
}

impl RawProcessRecord {
    pub open spec fn model(&self) -> RawRecModel {
        RawRecModel {
            name: self.name@,
            status: opt_bytes(self.status),
            stat: opt_bytes(self.stat),
            exe_path: self.exe_path@,
        }
    }
}

/// The models of a record capture, in capture order.
pub open spec fn rec_models(s: Seq<RawProcessRecord>) -> Seq<RawRecModel> {
    s.map_values(|r: RawProcessRecord| r.model())
}

/// Raw captures of the system-wide counter records.
pub struct RawSystemCounters {
    pub uptime: Vec<u8>,
    pub cpuinfo: Vec<u8>,
    pub cpu_stat: Vec<u8>,
    pub meminfo: Vec<u8>,
    pub passwd: Vec<u8>,
}

/// The mathematical value of [`RawSystemCounters`].
pub ghost struct CountersModel {
    pub uptime: Seq<u8>,
    pub cpuinfo: Seq<u8>,
    pub cpu_stat: Seq<u8>,
    pub meminfo: Seq<u8>,
    pub passwd: Seq<u8>,
}

impl RawSystemCounters {
    pub open spec fn model(&self) -> CountersModel {
        CountersModel {
            uptime: self.uptime@,
            cpuinfo: self.cpuinfo@,
            cpu_stat: self.cpu_stat@,
            meminfo: self.meminfo@,
            passwd: self.passwd@,
        }
    }
}

/// What sampling one listing entry yields: `Ok(None)` for an entry that
/// is no pid (skipped), `Ok(Some(m))` for a sampled process, `Err` when
/// the entry's records are unreadable (`Io`) or a numeric token of the
/// per-process or system records is malformed (`Parse`).
pub open spec fn spec_sample_one(rec: RawRecModel, c: CountersModel, tck: u64) -> Result<
    Option<ProcModel>,
    ProcError,
> {
    if !spec_is_pid_entry(rec.name) {
        Ok(None)
    } else {
        match spec_parse_u32(rec.name) {
            None => Err(ProcError::Parse),
            Some(pid) => match (rec.status, rec.stat) {
                (Some(status), Some(stat)) => {
                    match (
                        spec_stat_field(stat, 13),
                        spec_stat_field(stat, 14),
                        spec_stat_field(stat, 21),
                        spec_uptime_centis(c.uptime),
                        spec_meminfo_field(c.meminfo, label_memtotal()),
                    ) {
                        (Some(ut), Some(st), Some(start), Some(upcs), Some(total)) => Ok(
                            Some(
                                ProcModel {
                                    pid,
                                    name: spec_status_name(status),
                                    cpu_used: spec_proc_cpu_centi(
                                        ut as int + st as int,
                                        start as int,
                                        upcs as int,
                                        tck as int,
                                        spec_cpu_count(c.cpuinfo) as int,
                                    ),
                                    mem_used: spec_proc_mem_centi(spec_status_rss(status), total),
                                    path: rec.exe_path,
                                    user: spec_user_for_uid(c.passwd, 0, spec_status_uid(status)),
                                    ppid: spec_status_ppid(status),
                                },
                            ),
                        ),
                        _ => Err(ProcError::Parse),
                    }
                },
                _ => Err(ProcError::Io),
            },
        }
    }
}

/// The model of a sampling result, for stating [`sample_one`]'s contract.
pub open spec fn sample_result_model(r: Result<Option<Process>, ProcError>) -> Result<
    Option<ProcModel>,
    ProcError,
> {
    match r {
        Ok(Some(p)) => Ok(Some(p.model())),
        Ok(None) => Ok(None),
        Err(e) => Err(e),
    }
}

fn sample_one(rec: &RawProcessRecord, counters: &RawSystemCounters, tck: u64) -> (r: Result<
    Option<Process>,
    ProcError,
>)
    requires
        1 <= tck <= 1000000,
    ensures
        sample_result_model(r) == spec_sample_one(rec.model(), counters.model(), tck),
{
    if !is_pid_entry(rec.name.as_slice()) {
        return Ok(None);
    }
    let pid = match parse_u32(rec.name.as_slice()) {
        Some(p) => p,
        None => {
            return Err(ProcError::Parse);
        },
    };
    let status = match &rec.status {
        Some(s) => s,
        None => {
            return Err(ProcError::Io);
        },
    };
    let stat = match &rec.stat {
        Some(s) => s,
        None => {
            return Err(ProcError::Io);
        },
    };
    let ut = match stat_field(stat.as_slice(), 13) {
        Some(v) => v,
        None => {
            return Err(ProcError::Parse);
        },
    };
    let st = match stat_field(stat.as_slice(), 14) {
        Some(v) => v,
        None => {
            return Err(ProcError::Parse);
        },
    };
    let start = match stat_field(stat.as_slice(), 21) {
        Some(v) => v,
        None => {
            return Err(ProcError::Parse);
        },
    };
    let upcs = match uptime_centis(counters.uptime.as_slice()) {
        Some(v) => v,
        None => {
            return Err(ProcError::Parse);
        },
    };
    let lt = label_memtotal_x();
    let total = match meminfo_field(counters.meminfo.as_slice(), lt.as_slice()) {
        Some(v) => v,
        None => {
            return Err(ProcError::Parse);
        },
    };
    let ncpus = cpu_count(counters.cpuinfo.as_slice());
    let cpu = proc_cpu_centi(ut, st, start, upcs, tck, ncpus);
    let rss = status_rss(status.as_slice());
    let mem = proc_mem_centi(rss, total);
    let name = status_name(status.as_slice());
    let uid = status_uid(status.as_slice());
    let user = user_for_uid(counters.passwd.as_slice(), uid.as_slice());
    let ppid = status_ppid(status.as_slice());
    let path = vstd::slice::slice_to_vec(rec.exe_path.as_slice());
    Ok(Some(Process { pid, name, cpu_used: cpu, mem_used: mem, path, user, ppid }))
}

/// Inserting a sampled process into a snapshot: a record with the same
/// pid is replaced in place, otherwise the record is appended.
pub open spec fn spec_insert(s: Seq<ProcModel>, m: ProcModel) -> Seq<ProcModel> {
    match spec_model_index(s, m.pid, 0) {
        Some(j) => s.update(j, m),
        None => s.push(m),
    }
}

fn insert_proc(procs: &mut Vec<Process>, p: Process)
    ensures
        models(final(procs)@) == spec_insert(models(old(procs)@), p.model()),
        pids_distinct(models(old(procs)@)) ==> pids_distinct(models(final(procs)@)),
{
    proof {
        lemma_lookup_key(models(procs@), p.pid, 0);
    }
    match find_index(procs, p.pid, 0) {
        Some(j) => {
            let slot = vstd::std_specs::vec::vec_index_mut(procs, j);
            *slot = p;
            proof {
                assert(models(procs@) =~= spec_insert(models(old(procs)@), p.model()));
            }
        },
        None => {
            procs.push(p);
            proof {
                assert(models(procs@) =~= spec_insert(models(old(procs)@), p.model()));
            }
        },
    }
}

/// The snapshot a refresh computes, folded over the record captures in
/// order from `i` on: skipped entries leave the accumulator alone,
/// sampled ones are inserted, the first failure aborts the whole fold.
pub open spec fn spec_refresh_from(
    recs: Seq<RawRecModel>,
    i: int,
    acc: Seq<ProcModel>,
    c: CountersModel,
    tck: u64,
) -> Result<Seq<ProcModel>, ProcError>
    decreases recs.len() - i,
{
    if i < 0 || i >= recs.len() {
        Ok(acc)
    } else {
        match spec_sample_one(recs[i], c, tck) {
            Err(e) => Err(e),
            Ok(None) => spec_refresh_from(recs, i + 1, acc, c, tck),
            Ok(Some(m)) => spec_refresh_from(recs, i + 1, spec_insert(acc, m), c, tck),
        }
    }
}

/// The snapshot a refresh computes from the given captures.
pub open spec fn spec_refresh_result(
    recs: Seq<RawRecModel>,
    c: CountersModel,
    tck: u64,
) -> Result<Seq<ProcModel>, ProcError> {
    spec_refresh_from(recs, 0, Seq::empty(), c, tck)
}

/// Whether some listing entry samples to a process with the given pid.
pub open spec fn spec_observed(
    recs: Seq<RawRecModel>,
    c: CountersModel,
    tck: u64,
    pid: u32,
) -> bool {
    exists|j: int|
        0 <= j < recs.len() && (match spec_sample_one(#[trigger] recs[j], c, tck) {
            Ok(Some(m)) => m.pid == pid,
            _ => false,
        })
}

proof fn lemma_refresh_from_observed(
    recs: Seq<RawRecModel>,
    i: int,
    acc: Seq<ProcModel>,
    c: CountersModel,
    tck: u64,
    res: Seq<ProcModel>,
)
    requires
        0 <= i <= recs.len(),
        spec_refresh_from(recs, i, acc, c, tck) == Ok::<Seq<ProcModel>, ProcError>(res),
        forall|k: int|
            0 <= k < acc.len() ==> spec_observed(recs, c, tck, (#[trigger] acc[k]).pid),
    ensures
        forall|k: int|
            0 <= k < res.len() ==> spec_observed(recs, c, tck, (#[trigger] res[k]).pid),
    decreases recs.len() - i,
{
    if i < recs.len() {
        match spec_sample_one(recs[i], c, tck) {
            Err(_) => {},
            Ok(None) => {
                lemma_refresh_from_observed(recs, i + 1, acc, c, tck, res);
            },
            Ok(Some(m)) => {
                assert(spec_observed(recs, c, tck, m.pid));
                let ins = spec_insert(acc, m);
                assert forall|k: int|
                    0 <= k < ins.len() implies spec_observed(
                    recs,
                    c,
                    tck,
                    (#[trigger] ins[k]).pid,
                ) by {
                    match spec_model_index(acc, m.pid, 0) {
                        Some(j) => {
                            lemma_lookup_key(acc, m.pid, 0);
                            if k != j {
                                assert(ins[k] == acc[k]);
                            }
                        },
                        None => {
                            if k < acc.len() {
                                assert(ins[k] == acc[k]);
                            }
                        },
                    }
                }
                lemma_refresh_from_observed(recs, i + 1, ins, c, tck, res);
            },
        }
    }
}

/// Law: after a successful refresh nothing survives from any prior
/// snapshot — every record of the result arises from one of the given
/// listing entries, whatever the snapshot held before.
pub proof fn lemma_refresh_no_carryover(
    recs: Seq<RawRecModel>,
    c: CountersModel,
    tck: u64,
    res: Seq<ProcModel>,
)
    requires
        spec_refresh_result(recs, c, tck) == Ok::<Seq<ProcModel>, ProcError>(res),
    ensures
        forall|k: int|
            0 <= k < res.len() ==> spec_observed(recs, c, tck, (#[trigger] res[k]).pid),
{
    lemma_refresh_from_observed(recs, 0, Seq::empty(), c, tck, res);
}

/// Relies on nix::unistd::sysconf with SysconfVar::CLK_TCK: queries the
/// scheduler's clock-tick rate. The value is machine-dependent, so
/// nothing is promised of it; an error or an absent value comes back as
/// `None`.
#[verifier::external_body]
fn query_clock_tick() -> (r: Option<i64>) {
    match nix::unistd::sysconf(nix::unistd::SysconfVar::CLK_TCK) {
        Ok(Some(v)) => Some(v),
        _ => None,
    }
}

/// Clock ticks per second, for converting tick counters to seconds: the
/// queried rate where it is positive and plausible, else the customary
/// default of 100.
pub fn clock_ticks_per_second() -> (r: u64)
    ensures
        1 <= r <= 1000000,
{
    match query_clock_tick() {
        Some(v) => if 1 <= v && v <= 1000000 {
            v as u64
        } else {
            100
        },
        None => 100,
    }
}

/// The system aggregator: the current snapshot and the system-wide
/// totals, all replaced wholesale by each successful refresh.
pub struct System {
    pub procs: Vec<Process>,
    pub cpu_used: u64,
    pub mem_used: u64,
    pub clk_tck: u64,
}

impl System {
    /// Well-formedness: no pid occurs twice in the snapshot, and the
    /// clock-tick rate is usable.
    pub open spec fn wf(&self) -> bool {
        &&& pids_distinct(models(self.procs@))
        &&& 1 <= self.clk_tck <= 1000000
    }

    /// A fresh aggregator with an empty snapshot and zero totals.
    pub fn new() -> (s: System)
        ensures
            s.wf(),
            s.procs@.len() == 0,
            s.cpu_used == 0,
            s.mem_used == 0,
    {
        System { procs: Vec::new(), cpu_used: 0, mem_used: 0, clk_tck: clock_ticks_per_second() }
    }

    /// Discards the previous snapshot and rebuilds everything from the
    /// given captures: every listing entry is sampled and inserted, then
    /// the system-wide totals are computed. On any failure the
    /// aggregator is left exactly as it was (the caller keeps the prior
    /// snapshot); on success the snapshot is exactly the fold of the
    /// captures and the totals are the two counter formulas.
    pub fn refresh_system_info(
        &mut self,
        records: &Vec<RawProcessRecord>,
        counters: &RawSystemCounters,
    ) -> (r: Result<(), ProcError>)
        requires
            old(self).wf(),
        ensures
            final(self).wf(),
            final(self).clk_tck == old(self).clk_tck,
            match r {
                Ok(()) => {
                    &&& spec_refresh_result(
                        rec_models(records@),
                        counters.model(),
                        old(self).clk_tck,
                    ) == Ok::<Seq<ProcModel>, ProcError>(models(final(self).procs@))
                    &&& Some(final(self).cpu_used) == spec_total_cpu_centi(counters.cpu_stat@)
                    &&& Some(final(self).mem_used) == spec_total_mem_centi(counters.meminfo@)
                },
                Err(e) => {
                    &&& *final(self) == *old(self)
                    &&& {
                        ||| spec_refresh_result(
                            rec_models(records@),
                            counters.model(),
                            old(self).clk_tck,
                        ) == Err::<Seq<ProcModel>, ProcError>(e)
                        ||| (spec_refresh_result(
                            rec_models(records@),
                            counters.model(),
                            old(self).clk_tck,
                        ) is Ok && spec_total_cpu_centi(counters.cpu_stat@) is None && e
                            == ProcError::Parse)
                        ||| (spec_refresh_result(
                            rec_models(records@),
                            counters.model(),
                            old(self).clk_tck,
                        ) is Ok && spec_total_cpu_centi(counters.cpu_stat@) is Some
                            && spec_total_mem_centi(counters.meminfo@) is None && e
                            == ProcError::Parse)
                    }
                },
            },
    {
        let ghost recs = rec_models(records@);
        let ghost c = counters.model();
        let tck = self.clk_tck;
        let mut new_procs: Vec<Process> = Vec::new();
        proof {
            assert(models(new_procs@) =~= Seq::<ProcModel>::empty());
        }
        let mut idx: usize = 0;
        while idx < records.len()
            invariant
                idx <= records@.len(),
                recs == rec_models(records@),
                c == counters.model(),
                1 <= tck <= 1000000,
                tck == old(self).clk_tck,
                *self == *old(self),
                old(self).wf(),
                pids_distinct(models(new_procs@)),
                spec_refresh_from(recs, 0, Seq::empty(), c, tck) == spec_refresh_from(
                    recs,
                    idx as int,
                    models(new_procs@),
                    c,
                    tck,
                ),
            decreases records@.len() - idx,
        {
            let ghost prev = models(new_procs@);
            let rec = &records[idx];
            proof {
                assert(recs[idx as int] == rec.model());
            }
            match sample_one(rec, counters, tck) {
                Ok(Some(p)) => {
                    proof {
                        assert(spec_sample_one(recs[idx as int], c, tck) == Ok::<
                            Option<ProcModel>,
                            ProcError,
                        >(Some(p.model())));
                    }
                    insert_proc(&mut new_procs, p);
                    proof {
                        assert(spec_refresh_from(recs, idx as int, prev, c, tck)
                            == spec_refresh_from(
                            recs,
                            idx as int + 1,
                            models(new_procs@),
                            c,
                            tck,
                        ));
                    }
                },
                Ok(None) => {},
                Err(e) => {
                    proof {
                        assert(spec_refresh_from(recs, idx as int, prev, c, tck) == Err::<
                            Seq<ProcModel>,
                            ProcError,
                        >(e));
                    }
                    return Err(e);
                },
            }
            idx += 1;
        }
        let tc = match total_cpu_centi(counters.cpu_stat.as_slice()) {
            Some(v) => v,
            None => {
                return Err(ProcError::Parse);
            },
        };
        let tm = match total_mem_centi(counters.meminfo.as_slice()) {
            Some(v) => v,
            None => {
                return Err(ProcError::Parse);
            },
        };
        self.procs = new_procs;
        self.cpu_used = tc;
        self.mem_used = tm;
        Ok(())
    }

    /// The sampled record for `pid` in the current snapshot, if any.
    pub fn get_proc_info(&self, pid: &u32) -> (r: Option<&Process>)
        ensures
            match spec_model_index(models(self.procs@), *pid, 0) {
                Some(j) => r is Some && r.unwrap().model() == models(self.procs@)[j],
                None => r is None,
            },
    {
        proof {
            lemma_lookup_key(models(self.procs@), *pid, 0);
        }
        match find_index(&self.procs, *pid, 0) {
            Some(j) => Some(&self.procs[j]),
            None => None,
        }
    }

    /// Total CPU usage of the last refresh, in hundredths of a percent.
    pub fn get_total_cpu_usage(&self) -> (r: u64)
        ensures
            r == self.cpu_used,
    {
        self.cpu_used
    }

    /// Total memory usage of the last refresh, in hundredths of a percent.
    pub fn get_total_mem_usage(&self) -> (r: u64)
        ensures
            r == self.mem_used,
    {
        self.mem_used
    }

    /// The current snapshot as a list of (pid, record) pairs, in
    /// snapshot order. This read is non-destructive: the snapshot stays
    /// as it is.
    pub fn get_procs_as_list(&self) -> (r: Vec<(u32, Process)>)
        ensures
            r@.len() == self.procs@.len(),
            forall|i: int|
                0 <= i < r@.len() ==> pair_matches(#[trigger] r@[i], models(self.procs@)[i]),
    {
        let mut r: Vec<(u32, Process)> = Vec::new();
        let mut i: usize = 0;
        while i < self.procs.len()
            invariant
                i <= self.procs@.len(),
                r@.len() == i,
                forall|k: int|
                    0 <= k < i ==> pair_matches(#[trigger] r@[k], models(self.procs@)[k]),
            decreases self.procs@.len() - i,
        {
            let p = &self.procs[i];
            proof {
                assert(models(self.procs@)[i as int] == self.procs@[i as int].model());
            }
            let ghost rprev = r@;
            let d = p.duplicate();
            r.push((p.pid, d));
            proof {
                assert forall|k: int|
                    0 <= k < i + 1 implies pair_matches(
                    #[trigger] r@[k],
                    models(self.procs@)[k],
                ) by {
                    if k < i {
                        assert(r@[k] == rprev[k]);
                        assert(pair_matches(rprev[k], models(self.procs@)[k]));
                    } else {
                        assert(r@[k] == (p.pid, d));
                        assert(d.model() == self.procs@[k].model());
                    }
                }
            }
            i += 1;
        }
        r
    }
}

impl Default for System {
    /// The same as [`System::new`].
    fn default() -> (s: System)
        ensures
            s.wf(),
            s.procs@.len() == 0,
            s.cpu_used == 0,
            s.mem_used == 0,
    {
        System::new()
    }
}

} // verus!
