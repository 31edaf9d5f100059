use site_counter::archive::{classify, ArchiveEntry};
use site_counter::backpressure::{Monitor, Watch, POLL_MILLIS};
use site_counter::settings::{Choices, Settings, DEFAULT_BUDGET_KIB, DEFAULT_DESTINATION};

fn choices(start_url: &str) -> Choices {
    Choices {
        start_url: start_url.to_string(),
        num_workers: None,
        budget_kib: None,
        destination: None,
        is_bfs: false,
        verbose: false,
    }
}

#[test]
fn the_monitor_cancels_at_the_budget() {
    let monitor = Monitor::new(4096);
    assert_eq!(monitor.budget(), 4096);
    assert_eq!(POLL_MILLIS, 200);
    assert_eq!(monitor.observe(0), Watch::Wait(200));
    assert_eq!(monitor.observe(4095), Watch::Wait(200));
    assert_eq!(monitor.observe(4096), Watch::Cancel);
    assert_eq!(monitor.observe(u64::MAX), Watch::Cancel);
}

#[test]
fn a_budget_of_zero_cancels_at_once() {
    let monitor = Monitor::new(0);
    assert_eq!(monitor.observe(0), Watch::Cancel);
    assert_eq!(monitor.cancels_at(&vec![0, 0]), Some(0));
}

#[test]
fn the_monitor_cancels_at_the_first_measurement_over_budget() {
    let monitor = Monitor::new(1000);
    assert_eq!(monitor.cancels_at(&vec![0, 300, 999, 1000, 5000, 10]), Some(3));
    assert_eq!(monitor.cancels_at(&vec![0, 300, 999, 1500, 100, 2000]), Some(3));
    assert_eq!(monitor.cancels_at(&vec![1000]), Some(0));
    assert_eq!(monitor.cancels_at(&vec![0, 300, 999]), None);
    assert_eq!(monitor.cancels_at(&Vec::new()), None);
}

#[test]
fn settings_fall_back_to_the_defaults() {
    let settings = Settings::resolve(choices("https://abc.de/"), 8);
    assert_eq!(settings.start_url, "https://abc.de/");
    assert_eq!(settings.num_workers, 8);
    assert_eq!(settings.budget, 4096);
    assert_eq!(settings.destination, "./archive.xz");
    assert!(!settings.is_bfs);
    assert!(!settings.verbose);
    assert_eq!(DEFAULT_BUDGET_KIB, 4);
    assert_eq!(DEFAULT_DESTINATION, "./archive.xz");
}

#[test]
fn settings_keep_what_was_chosen() {
    let chosen = Choices {
        start_url: "https://abc.de/".to_string(),
        num_workers: Some(3),
        budget_kib: Some(10),
        destination: Some("/tmp/out.zip".to_string()),
        is_bfs: true,
        verbose: true,
    };
    let settings = Settings::resolve(chosen, 8);
    assert_eq!(settings.num_workers, 3);
    assert_eq!(settings.budget, 10_240);
    assert_eq!(settings.destination, "/tmp/out.zip");
    assert!(settings.is_bfs);
    assert!(settings.verbose);
}

#[test]
fn a_budget_beyond_64_bits_loses_its_high_bits() {
    let mut chosen = choices("https://abc.de/");
    chosen.budget_kib = Some(u64::MAX);
    chosen.num_workers = Some(0);
    let settings = Settings::resolve(chosen, 8);
    assert_eq!(settings.budget, 0xFFFF_FFFF_FFFF_FC00);
    assert_eq!(settings.num_workers, 0);
    let mut chosen = choices("https://abc.de/");
    chosen.budget_kib = Some(1 << 54);
    assert_eq!(Settings::resolve(chosen, 1).budget, 0);
}

#[test]
fn entries_of_the_store_are_classified() {
    assert_eq!(classify(true, "abc.de-.html"), ArchiveEntry::File);
    assert_eq!(classify(true, ""), ArchiveEntry::File);
    assert_eq!(classify(false, "sub"), ArchiveEntry::Directory);
    assert_eq!(classify(false, ""), ArchiveEntry::Skip);
}
