use sysmon::process::{select_and_sort, ProcessInfo, ProcessManager, SortBy};

fn proc_info(pid: u32, name: &str, cpu: f32, memory: u64) -> ProcessInfo {
    ProcessInfo { pid, name: name.to_string(), cpu_bits: cpu.to_bits(), memory, status: "Run".to_string() }
}

fn pids(v: &[ProcessInfo]) -> Vec<u32> {
    v.iter().map(|p| p.pid).collect()
}

fn sample() -> Vec<ProcessInfo> {
    vec![
        proc_info(30, "bash", 1.5, 300),
        proc_info(10, "Zsh", 12.0, 100),
        proc_info(20, "apache", 0.0, 900),
        proc_info(40, "cargo", 12.0, 100),
    ]
}

fn manager(mode: SortBy, filter: &str) -> ProcessManager {
    let mut m = ProcessManager::new();
    m.sort_mode = mode;
    m.set_filter(filter.to_string());
    m
}

#[test]
fn new_manager_sorts_by_cpu_without_selection() {
    let m = ProcessManager::new();
    assert_eq!(m.sort_mode, SortBy::Cpu);
    assert_eq!(m.selected_pid, None);
    assert_eq!(m.filter, "");
}

#[test]
fn toggle_sort_cycles_through_all_modes() {
    let mut m = ProcessManager::new();
    let mut seen = vec![m.sort_mode.clone()];
    for _ in 0..4 {
        m.toggle_sort();
        seen.push(m.sort_mode.clone());
    }
    assert_eq!(seen, vec![SortBy::Cpu, SortBy::Memory, SortBy::Pid, SortBy::Name, SortBy::Cpu]);
}

#[test]
fn sort_by_pid_ascending() {
    assert_eq!(pids(&manager(SortBy::Pid, "").get_sorted_processes(&sample())), vec![10, 20, 30, 40]);
}

#[test]
fn sort_by_name_ignores_case() {
    assert_eq!(pids(&manager(SortBy::Name, "").get_sorted_processes(&sample())), vec![20, 30, 40, 10]);
}

#[test]
fn sort_by_cpu_descending_and_stable() {
    // Zsh (pid 10) and cargo (pid 40) tie on CPU and keep their input order.
    assert_eq!(pids(&manager(SortBy::Cpu, "").get_sorted_processes(&sample())), vec![10, 40, 30, 20]);
}

#[test]
fn sort_by_memory_descending_and_stable() {
    assert_eq!(pids(&manager(SortBy::Memory, "").get_sorted_processes(&sample())), vec![20, 30, 10, 40]);
}

#[test]
fn filter_matches_substring_ignoring_case() {
    assert_eq!(pids(&manager(SortBy::Pid, "A").get_sorted_processes(&sample())), vec![20, 30, 40]);
    assert_eq!(pids(&manager(SortBy::Pid, "sh").get_sorted_processes(&sample())), vec![10, 30]);
    assert_eq!(pids(&manager(SortBy::Pid, "zzz").get_sorted_processes(&sample())), Vec::<u32>::new());
}

#[test]
fn empty_filter_keeps_every_process() {
    let all = manager(SortBy::Pid, "").get_sorted_processes(&sample());
    assert_eq!(all.len(), 4);
}

#[test]
fn sorted_list_keeps_process_fields() {
    let sorted = manager(SortBy::Pid, "zsh").get_sorted_processes(&sample());
    assert_eq!(sorted.len(), 1);
    assert_eq!(sorted[0].name, "Zsh");
    assert_eq!(f32::from_bits(sorted[0].cpu_bits), 12.0);
    assert_eq!(sorted[0].memory, 100);
    assert_eq!(sorted[0].status, "Run");
}

#[test]
fn select_and_sort_uses_given_folded_names() {
    let items = sample();
    let folded: Vec<String> = vec!["d".to_string(), "c".to_string(), "b".to_string(), "a".to_string()];
    let r = select_and_sort(&items, &folded, "", SortBy::Name);
    assert_eq!(pids(&r), vec![40, 20, 10, 30]);
    let r = select_and_sort(&items, &folded, "b", SortBy::Pid);
    assert_eq!(pids(&r), vec![20]);
}

#[test]
fn name_prefix_sorts_first() {
    let items = vec![proc_info(1, "abc", 0.0, 0), proc_info(2, "ab", 0.0, 0), proc_info(3, "abd", 0.0, 0)];
    assert_eq!(pids(&manager(SortBy::Name, "").get_sorted_processes(&items)), vec![2, 1, 3]);
}

#[test]
fn empty_process_list_sorts_to_empty() {
    assert!(manager(SortBy::Cpu, "").get_sorted_processes(&Vec::new()).is_empty());
}
