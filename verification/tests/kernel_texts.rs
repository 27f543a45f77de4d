use ysh::procfs::{cpu_times, lines_of, meminfo_totals, parse_u64_chars, thread_count, words_from, ProcReading};

fn chars(s: &str) -> Vec<char> {
    s.chars().collect()
}

#[test]
fn meminfo_totals_in_bytes() {
    let text = "MemTotal:       16384 kB\nMemFree:          100 kB\nMemAvailable:    8192 kB\n";
    assert_eq!(meminfo_totals(text), ProcReading::Values(16384 * 1024, 8192 * 1024));
    assert_eq!(meminfo_totals("Buffers: 1 kB\r\nMemAvailable: 2 kB\r\n"), ProcReading::Values(0, 2048));
    assert_eq!(meminfo_totals(""), ProcReading::Values(0, 0));
    // A later line of the same name wins.
    assert_eq!(meminfo_totals("MemTotal: 1 kB\nMemTotal: 3 kB"), ProcReading::Values(3072, 0));
}

#[test]
fn meminfo_errors() {
    assert_eq!(meminfo_totals("MemTotal: abc kB\n"), ProcReading::Unreadable);
    assert_eq!(meminfo_totals("MemTotal:\nMemAvailable: 5 kB\n"), ProcReading::Unreadable);
    assert_eq!(meminfo_totals("MemTotal: 99999999999999999999 kB\n"), ProcReading::Unreadable);
    assert_eq!(meminfo_totals("MemTotal: 18446744073709551615 kB\n"), ProcReading::Overflow);
    // The first bad line decides.
    assert_eq!(meminfo_totals("MemTotal: x\nMemAvailable: 18446744073709551615\n"), ProcReading::Unreadable);
}

#[test]
fn cpu_times_from_first_line() {
    let text = "cpu  10 20 30 40 50 60\ncpu0 1 2 3 4\n";
    assert_eq!(cpu_times(text), ProcReading::Values(210, 150));
    assert_eq!(cpu_times("cpu 1 x 2 3 4"), ProcReading::Values(10, 4));
    assert_eq!(cpu_times("cpu 1 2 3"), ProcReading::Unreadable);
    assert_eq!(cpu_times(""), ProcReading::Unreadable);
    assert_eq!(cpu_times("cpu 18446744073709551615 1 0 0"), ProcReading::Overflow);
}

#[test]
fn thread_counts() {
    assert_eq!(thread_count("Name:\tysh\nThreads:\t12\nVmRSS:\t1 kB\n"), 12);
    assert_eq!(thread_count("Name:\tysh\n"), 0);
    assert_eq!(thread_count("Threads:\tmany\n"), 0);
    assert_eq!(thread_count("Threads: 3\nThreads: 9\n"), 3);
}

#[test]
fn lines_words_and_numbers() {
    let ls = lines_of(&chars("a\r\nb\n\nc\r"));
    assert_eq!(ls, vec![chars("a"), chars("b"), chars(""), chars("c\r")]);
    assert_eq!(lines_of(&chars("x\n")), vec![chars("x")]);
    assert_eq!(words_from(&chars("  one\ttwo \u{3000}three "), 0), vec![chars("one"), chars("two"), chars("three")]);
    assert_eq!(words_from(&chars("ab cd"), 1), vec![chars("b"), chars("cd")]);
    assert_eq!(parse_u64_chars(&chars("+42")), Some(42));
    assert_eq!(parse_u64_chars(&chars("-1")), None);
    assert_eq!(parse_u64_chars(&chars("+")), None);
    assert_eq!(parse_u64_chars(&chars("18446744073709551615")), Some(u64::MAX));
    assert_eq!(parse_u64_chars(&chars("18446744073709551616")), None);
}
