use lang_lib::{DEBOUNCE_MICROS, PendingReloads};

fn sorted(mut v: Vec<String>) -> Vec<String> {
    v.sort();
    v
}

#[test]
fn nothing_is_ready_before_the_quiet_period() {
    let mut pending = PendingReloads::new();
    pending.record("/l/en.toml".to_string(), 1_000);
    assert!(pending.take_ready(1_000 + DEBOUNCE_MICROS - 1, DEBOUNCE_MICROS).is_empty());
    assert_eq!(pending.take_ready(1_000 + DEBOUNCE_MICROS, DEBOUNCE_MICROS), vec!["/l/en.toml".to_string()]);
    assert!(pending.take_ready(10_000_000, DEBOUNCE_MICROS).is_empty());
}

#[test]
fn a_burst_of_changes_is_reloaded_once() {
    let mut pending = PendingReloads::new();
    pending.record("/l/en.toml".to_string(), 0);
    pending.record("/l/en.toml".to_string(), 100_000);
    pending.record("/l/en.toml".to_string(), 200_000);
    assert!(pending.take_ready(300_000, 150_000).is_empty());
    assert_eq!(pending.take_ready(350_000, 150_000), vec!["/l/en.toml".to_string()]);
    assert!(pending.take_ready(1_000_000, 150_000).is_empty());
}

#[test]
fn only_settled_files_are_taken() {
    let mut pending = PendingReloads::new();
    pending.record("a.toml".to_string(), 0);
    pending.record("b.toml".to_string(), 100);
    pending.record("c.toml".to_string(), 50);
    assert_eq!(sorted(pending.take_ready(150, 100)), vec!["a.toml".to_string(), "c.toml".to_string()]);
    assert_eq!(pending.take_ready(200, 100), vec!["b.toml".to_string()]);
}

#[test]
fn a_clock_that_went_back_counts_as_no_time() {
    let mut pending = PendingReloads::new();
    pending.record("a.toml".to_string(), 500);
    assert!(pending.take_ready(100, 1).is_empty());
    assert_eq!(pending.take_ready(100, 0), vec!["a.toml".to_string()]);
}
