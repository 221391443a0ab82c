use memtop::process::{ProcFiles, ProcessType, TaskFiles};
use memtop::process_tree::tree_update_would_panic;
use memtop::process_list::ProcessList;
use memtop::process_tree::ProcessTree;

fn task(tid: u32, name: &str) -> TaskFiles {
    TaskFiles {
        tid,
        comm: Some(format!("{}\n", name)),
        task_comm: Some(format!("{}\n", name)),
    }
}

fn stat_text(pid: u32, name: &str, ppid: u32, flags: u32) -> Vec<u8> {
    format!(
        "{} ({}) S {} {} {} 0 -1 {} 120 0 0 0 15 7 0 0 20 0 3 0 4242 123456 789 18446744073709551615\n",
        pid, name, ppid, pid, pid, flags
    )
    .into_bytes()
}

fn status_text(name: &str, tgid: u32) -> Vec<u8> {
    format!("Name:\t{}\nUmask:\t0022\nState:\tS (sleeping)\nTgid:\t{}\nNgid:\t0\n", name, tgid)
        .into_bytes()
}

fn process(pid: u32, name: &str, ppid: u32, flags: u32, threads: &[u32]) -> ProcFiles {
    let mut tasks = vec![task(pid, name)];
    for t in threads {
        tasks.push(task(*t, &format!("{}-worker", name)));
    }
    ProcFiles {
        pid,
        stat: Some(stat_text(pid, name, ppid, flags)),
        status: Some(status_text(name, pid)),
        tasks: Some(tasks),
    }
}

/// A small `/proc`: init, a kernel thread daemon, a shell with two threads,
/// and a child of the shell.
fn snapshot() -> Option<Vec<ProcFiles>> {
    Some(vec![
        process(1, "systemd", 0, 0x400100, &[]),
        process(2, "kthreadd", 0, 0x208040, &[]),
        process(100, "bash", 1, 0x400000, &[101, 102]),
        process(200, "top", 100, 0x400000, &[]),
    ])
}

#[test]
fn test_update() {
    let mut process_list = ProcessList::new();
    assert_eq!(process_list.update(true, &snapshot()), None);
    assert!(!process_list.0.is_empty());

    for process in &process_list.0 {
        println!(
            "pid: {}, name: {}, rss: {}, pss: {}",
            process.pid, process.name, process.rss, process.pss
        )
    }
}

#[test]
fn test_build_process_tree() {
    let mut process_tree = ProcessTree::new();
    assert_eq!(process_tree.update(true, &snapshot()), None);
    assert!(!process_tree.0.is_empty());
    let root_indices: Vec<usize> = process_tree.root_indices();
    assert!(!root_indices.is_empty());

    assert!(process_tree.fits_roots(&root_indices));
    for line in process_tree.print_lines(&root_indices) {
        println!("{}", line);
    }
}

#[test]
fn list_with_threads_lists_every_thread() {
    let mut list = ProcessList::new();
    list.update(true, &snapshot());
    let pids: Vec<u32> = list.0.iter().map(|l| l.pid).collect();
    assert_eq!(pids, vec![1, 2, 100, 101, 102, 200]);
    assert_eq!(list.0[3].name, "bash-worker\n");
    assert!(list.0.iter().all(|l| l.rss == 0 && l.pss == 0));
}

#[test]
fn list_without_threads_lists_first_thread_only() {
    let mut list = ProcessList::new();
    list.update(false, &snapshot());
    let pids: Vec<u32> = list.0.iter().map(|l| l.pid).collect();
    assert_eq!(pids, vec![1, 2, 100, 200]);
    assert_eq!(list.0[0].name, "systemd\n");
}

#[test]
fn list_stops_at_unlistable_threads() {
    let mut procs = snapshot().unwrap();
    procs[2].tasks = None;
    let mut list = ProcessList::new();
    assert_eq!(list.update(true, &Some(procs)), None);
    let pids: Vec<u32> = list.0.iter().map(|l| l.pid).collect();
    assert_eq!(pids, vec![1, 2]);
}

#[test]
fn list_empty_without_proc() {
    let mut list = ProcessList::new();
    list.update(true, &snapshot());
    list.update(true, &None);
    assert!(list.0.is_empty());
}

#[test]
fn tree_links_threads_and_children() {
    let mut tree = ProcessTree::new();
    tree.update(true, &snapshot());
    let pids: Vec<u32> = tree.0.iter().map(|n| n.data.pid).collect();
    assert_eq!(pids, vec![1, 2, 100, 101, 102, 200]);
    // bash (position 2) holds its threads and its child top
    assert_eq!(tree.0[2].children, vec![3, 4, 5]);
    // systemd holds bash
    assert_eq!(tree.0[0].children, vec![2]);
    assert!(tree.0[1].children.is_empty());
    assert_eq!(tree.0[0].data.name, "systemd");
    assert_eq!(tree.0[3].data.name, "bash-worker\n");
    assert_eq!(tree.0[3].data.ppid, 1);
    assert_eq!(tree.0[3].data.tgid, 100);
    assert_eq!(tree.0[1].data.process_type, ProcessType::Kernel);
    assert_eq!(tree.0[0].data.process_type, ProcessType::Regular);
    assert_eq!(tree.0[4].data.process_type, ProcessType::Thread);
    assert_eq!(tree.root_indices(), vec![0, 1]);
}

#[test]
fn tree_without_threads() {
    let mut tree = ProcessTree::new();
    tree.update(false, &snapshot());
    let pids: Vec<u32> = tree.0.iter().map(|n| n.data.pid).collect();
    assert_eq!(pids, vec![1, 2, 100, 200]);
    assert_eq!(tree.0[2].children, vec![3]);
}

#[test]
fn tree_empty_when_a_stat_is_missing() {
    let mut procs = snapshot().unwrap();
    procs[1].stat = None;
    let mut tree = ProcessTree::new();
    tree.update(true, &snapshot());
    assert_eq!(tree.update(true, &Some(procs)), None);
    assert!(tree.0.is_empty());
}

#[test]
fn tree_empty_when_a_status_lacks_tgid() {
    let mut procs = snapshot().unwrap();
    procs[3].status = Some(b"Name:\ttop\n".to_vec());
    let mut tree = ProcessTree::new();
    tree.update(false, &Some(procs));
    assert!(tree.0.is_empty());
}

#[test]
fn tree_rows_depth_first() {
    let mut tree = ProcessTree::new();
    tree.update(true, &snapshot());
    let roots = tree.root_indices();
    assert!(tree.fits_roots(&roots));
    let rows = tree.flatten(&roots);
    assert_eq!(rows, vec![(0, 0), (2, 1), (3, 2), (4, 2), (5, 2), (1, 0)]);
    let lines = tree.print_lines(&roots);
    assert_eq!(lines[0], "├─ systemd (PID 1)");
    assert_eq!(lines[1], "  ├─ bash (PID 100)");
    assert_eq!(lines[5], "├─ kthreadd (PID 2)");
}

#[test]
fn tree_update_panic_cases() {
    assert!(!tree_update_would_panic(&snapshot(), true));
    assert!(!tree_update_would_panic(&None, true));
    // no process at all gives an empty tree
    assert!(!tree_update_would_panic(&Some(vec![]), true));
    let mut empty = ProcessTree::new();
    assert_eq!(empty.update(true, &Some(vec![])), None);
    assert!(empty.0.is_empty());
    let mut procs = snapshot().unwrap();
    procs[1].stat = Some(b"2 (x)".to_vec());
    assert!(tree_update_would_panic(&Some(procs), false));
}

#[test]
fn tree_update_ignores_prior_contents() {
    let mut once = ProcessTree::new();
    once.update(true, &snapshot());
    let mut twice = ProcessTree::new();
    twice.update(false, &snapshot());
    twice.update(true, &snapshot());
    assert_eq!(once.0.len(), twice.0.len());
    for (a, b) in once.0.iter().zip(twice.0.iter()) {
        assert_eq!(a.data.pid, b.data.pid);
        assert_eq!(a.data.name, b.data.name);
        assert_eq!(a.children, b.children);
    }
    twice.update(true, &snapshot());
    assert_eq!(once.0.len(), twice.0.len());
}

#[test]
fn list_update_ignores_prior_contents() {
    let mut once = ProcessList::new();
    once.update(true, &snapshot());
    let mut twice = ProcessList::new();
    twice.update(false, &snapshot());
    twice.update(true, &snapshot());
    let a: Vec<(u32, String)> = once.0.iter().map(|l| (l.pid, l.name.clone())).collect();
    let b: Vec<(u32, String)> = twice.0.iter().map(|l| (l.pid, l.name.clone())).collect();
    assert_eq!(a, b);
}
