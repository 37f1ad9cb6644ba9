use process::{build_process_tree, Process, ProcessTreeNode, System};

fn proc_entry(pid: u32, ppid: u32) -> Process {
    Process {
        pid,
        name: format!("p{}", pid).into_bytes(),
        cpu_used: 0,
        mem_used: 0,
        path: Vec::new(),
        user: Vec::new(),
        ppid,
    }
}

fn system_of(entries: Vec<Process>) -> System {
    System { procs: entries, cpu_used: 0, mem_used: 0, clk_tck: 100 }
}

fn collect_pids(node: &ProcessTreeNode, out: &mut Vec<u32>) {
    out.push(node.proc_info.get_pid());
    for child in node.children.iter() {
        collect_pids(child, out);
    }
}

fn check_parent_links(node: &ProcessTreeNode) {
    for child in node.children.iter() {
        assert_eq!(child.proc_info.get_ppid(), node.proc_info.get_pid());
        check_parent_links(child);
    }
}

fn same_shape(a: &ProcessTreeNode, b: &ProcessTreeNode) -> bool {
    if a.proc_info.get_pid() != b.proc_info.get_pid() {
        return false;
    }
    if a.children.len() != b.children.len() {
        return false;
    }
    for (ca, cb) in a.children.iter().zip(b.children.iter()) {
        if !same_shape(ca, cb) {
            return false;
        }
    }
    true
}

#[test]
fn orphan_with_absent_parent_is_dropped() {
    // Snapshot {1->0, 2->1, 3->1, 4->99 (99 absent)}: the root has one
    // child (pid 1) with two children (2, 3); pid 4 is absent.
    let sys = system_of(vec![
        proc_entry(1, 0),
        proc_entry(2, 1),
        proc_entry(3, 1),
        proc_entry(4, 99),
    ]);
    let live = vec![1, 2, 3, 4];
    let tree = build_process_tree(&sys, &live);
    assert_eq!(tree.root.proc_info.get_pid(), 0);
    assert_eq!(tree.root.children.len(), 1);
    let child = &tree.root.children[0];
    assert_eq!(child.proc_info.get_pid(), 1);
    assert_eq!(child.children.len(), 2);
    let mut grand: Vec<u32> =
        child.children.iter().map(|c| c.proc_info.get_pid()).collect();
    grand.sort();
    assert_eq!(grand, vec![2, 3]);
    let mut pids = Vec::new();
    collect_pids(&tree.root, &mut pids);
    assert!(!pids.contains(&4));
}

#[test]
fn empty_snapshot_gives_root_only_tree() {
    let sys = system_of(Vec::new());
    let live: Vec<u32> = Vec::new();
    let tree = build_process_tree(&sys, &live);
    assert_eq!(tree.root.proc_info.get_pid(), 0);
    assert_eq!(tree.root.proc_info.get_name(), &b"System Hierarchy".to_vec());
    assert_eq!(tree.root.children.len(), 0);
}

#[test]
fn repeated_builds_agree() {
    let sys = system_of(vec![
        proc_entry(1, 0),
        proc_entry(2, 1),
        proc_entry(3, 2),
        proc_entry(7, 0),
    ]);
    let live = vec![3, 1, 7, 2];
    let t1 = build_process_tree(&sys, &live);
    let t2 = build_process_tree(&sys, &live);
    assert!(same_shape(&t1.root, &t2.root));
}

#[test]
fn no_pid_appears_twice() {
    let sys = system_of(vec![proc_entry(1, 0), proc_entry(2, 1), proc_entry(3, 1)]);
    // The listing may report a pid more than once; the tree holds it once.
    let live = vec![1, 1, 2, 3, 2];
    let tree = build_process_tree(&sys, &live);
    let mut pids = Vec::new();
    collect_pids(&tree.root, &mut pids);
    let mut sorted = pids.clone();
    sorted.sort();
    sorted.dedup();
    assert_eq!(sorted.len(), pids.len());
    assert_eq!(sorted, vec![0, 1, 2, 3]);
}

#[test]
fn children_carry_parents_pid() {
    let sys = system_of(vec![
        proc_entry(1, 0),
        proc_entry(2, 1),
        proc_entry(3, 2),
        proc_entry(4, 1),
    ]);
    let live = vec![4, 3, 2, 1];
    let tree = build_process_tree(&sys, &live);
    check_parent_links(&tree.root);
}

#[test]
fn cyclic_parent_links_stay_out_of_the_tree() {
    // 5 and 6 point at each other and never reach the root.
    let sys = system_of(vec![proc_entry(1, 0), proc_entry(5, 6), proc_entry(6, 5)]);
    let live = vec![1, 5, 6];
    let tree = build_process_tree(&sys, &live);
    let mut pids = Vec::new();
    collect_pids(&tree.root, &mut pids);
    pids.sort();
    assert_eq!(pids, vec![0, 1]);
}

#[test]
fn listed_but_unsampled_pid_is_excluded() {
    let sys = system_of(vec![proc_entry(1, 0)]);
    // 2 is alive in the listing but missing from the snapshot.
    let live = vec![1, 2];
    let tree = build_process_tree(&sys, &live);
    let mut pids = Vec::new();
    collect_pids(&tree.root, &mut pids);
    pids.sort();
    assert_eq!(pids, vec![0, 1]);
}

#[test]
fn sampled_but_unlisted_pid_is_excluded() {
    let sys = system_of(vec![proc_entry(1, 0), proc_entry(2, 1)]);
    // 2 vanished between sampling and the tree's own enumeration.
    let live = vec![1];
    let tree = build_process_tree(&sys, &live);
    let mut pids = Vec::new();
    collect_pids(&tree.root, &mut pids);
    pids.sort();
    assert_eq!(pids, vec![0, 1]);
}
