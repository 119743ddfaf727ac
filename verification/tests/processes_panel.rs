use system_monitor::processes::{
    format_memory, name_cell, name_width, pid_cell, top_by_memory, truncate_name, ProcessEntry, SortBy,
};
use system_monitor::style::Reading;

fn p(pid: u32, memory: u64) -> ProcessEntry {
    ProcessEntry { pid, memory }
}

#[test]
fn top_processes_by_memory_are_stable() {
    let procs = vec![p(1, 100), p(2, 300), p(3, 100), p(4, 200), p(5, 100)];
    assert_eq!(top_by_memory(&procs, 4), vec![p(2, 300), p(4, 200), p(1, 100), p(3, 100)]);
    assert_eq!(top_by_memory(&procs, 10), vec![p(2, 300), p(4, 200), p(1, 100), p(3, 100), p(5, 100)]);
    assert_eq!(top_by_memory(&procs, 0), vec![]);
    assert_eq!(top_by_memory(&vec![], 3), vec![]);
}

#[test]
fn titles() {
    assert_eq!(SortBy::Cpu.title(), " Processes (CPU) ");
    assert_eq!(SortBy::Memory.title(), " Processes (MEM) ");
}

#[test]
fn names_are_cut_with_an_ellipsis() {
    assert_eq!(truncate_name("systemd-journald", 8), "systemd…");
    assert_eq!(truncate_name("bash", 8), "bash");
    assert_eq!(truncate_name("exactly8", 8), "exactly8");
    assert_eq!(truncate_name("", 0), "");
    assert_eq!(truncate_name("ab", 1), "…");
}

#[test]
fn memory_readings_switch_units() {
    match format_memory(999) {
        Reading::Exact(s) => assert_eq!(s, "999"),
        _ => panic!("expected exact"),
    }
    match format_memory(2048) {
        Reading::Scaled { divisor, decimals, suffix } => {
            assert_eq!((divisor, decimals, suffix.as_str()), (1024, 0, "K"))
        }
        _ => panic!("expected scaled"),
    }
    match format_memory(5 << 20) {
        Reading::Scaled { divisor, decimals, suffix } => {
            assert_eq!((divisor, decimals, suffix.as_str()), (1 << 20, 0, "M"))
        }
        _ => panic!("expected scaled"),
    }
    match format_memory(3 << 30) {
        Reading::Scaled { divisor, decimals, suffix } => {
            assert_eq!((divisor, decimals, suffix.as_str()), (1 << 30, 1, "G"))
        }
        _ => panic!("expected scaled"),
    }
}

#[test]
fn process_row_cells() {
    assert_eq!(name_width(40), 28);
    assert_eq!(name_width(5), 0);
    assert_eq!(pid_cell(42), "42    ");
    assert_eq!(pid_cell(123456), "123456 ");
    assert_eq!(name_cell("bash", 6), "bash   ");
}

#[test]
fn smaller_limit_lists_a_prefix() {
    let procs = vec![p(7, 50), p(8, 900), p(9, 50), p(10, 400), p(11, 900), p(12, 1)];
    let all = top_by_memory(&procs, 6);
    for small in 0..=6usize {
        for large in small..=6usize {
            let a = top_by_memory(&procs, small);
            let b = top_by_memory(&procs, large);
            assert_eq!(a.as_slice(), &b[..a.len()]);
        }
    }
    assert_eq!(top_by_memory(&procs, 2), vec![p(8, 900), p(11, 900)]);
    assert_eq!(&all[..4], top_by_memory(&procs, 4).as_slice());
}
