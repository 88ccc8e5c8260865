use chips_core::utils::proc_stats::{memory_mb_from_statm, parse_u64, threads_from_status};

fn chars(s: &str) -> Vec<char> {
    s.chars().collect()
}

#[test]
fn statm_second_field_in_mib() {
    assert_eq!(memory_mb_from_statm("12345 2560 300 1 0 800 0\n"), Some(10));
    assert_eq!(memory_mb_from_statm("  1\t\t 511 "), Some(1));
    assert_eq!(memory_mb_from_statm("1"), None);
    assert_eq!(memory_mb_from_statm("1 x"), None);
    assert_eq!(memory_mb_from_statm(""), None);
}

#[test]
fn status_threads_line() {
    let text = "Name:\tcat\nState:\tR (running)\nThreads:\t7\nVmRSS:\t100 kB\n";
    assert_eq!(threads_from_status(text), Some(7));
    assert_eq!(threads_from_status("Threads:\r\nThreads: 3\r\n"), Some(3));
    assert_eq!(threads_from_status("Threads: x\nThreads: 12"), Some(12));
    assert_eq!(threads_from_status("Name: a\n"), None);
    assert_eq!(threads_from_status(" Threads: 4"), None);
    assert_eq!(threads_from_status(""), None);
}

#[test]
fn u64_parsing_like_std() {
    for s in ["0", "+7", "18446744073709551615", "007", "", "+", "-1", "1a", "18446744073709551616", " 1"] {
        assert_eq!(parse_u64(&chars(s)), s.parse::<u64>().ok(), "input {:?}", s);
    }
}
