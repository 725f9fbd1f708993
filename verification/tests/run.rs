use onion_crawler_core::jobs::{
    cap_to_cores, cap_to_memory, jobs_or_one, plan_jobs, JobPlan, MAX_ARCHIVE_SIZE,
};
use onion_crawler_core::memory::{
    get_available_memory, mem_available_kb, memory_from_pages, sysctl_value,
};
use onion_crawler_core::plan::{plan_work, ProcessedSet, Step};
use onion_crawler_core::progress::{Outcome, Tally};
use onion_crawler_core::strategy::{
    acquisition, deletes_file, Acquisition, ParseRoute, Strategy,
};

const ALL: [Strategy; 4] = [
    Strategy::Baseline,
    Strategy::Bytes,
    Strategy::Memchr,
    Strategy::Mmap,
];

#[test]
fn strategies_that_need_a_file_fall_back_to_disk() {
    assert!(!Strategy::Baseline.stream_enabled(true));
    assert!(Strategy::Bytes.stream_enabled(true));
    assert!(Strategy::Memchr.stream_enabled(true));
    assert!(!Strategy::Mmap.stream_enabled(true));
    for strategy in ALL {
        assert!(!strategy.stream_enabled(false));
    }
}

#[test]
fn strategies_are_described() {
    assert_eq!(Strategy::Baseline.description(), "baseline (warc crate + regex)");
    assert_eq!(Strategy::Bytes.description(), "bytes (custom parser + regex::bytes)");
    assert_eq!(Strategy::Memchr.description(), "memchr (custom parser + SIMD memmem)");
    assert_eq!(Strategy::Mmap.description(), "mmap (decompress + mmap + SIMD memmem)");
}

#[test]
fn labels_tell_whether_a_strategy_streams() {
    assert_eq!(Strategy::Baseline.label(false), "baseline");
    assert_eq!(Strategy::Baseline.label(true), "baseline");
    assert_eq!(Strategy::Bytes.label(false), "bytes");
    assert_eq!(Strategy::Bytes.label(true), "bytes/stream");
    assert_eq!(Strategy::Memchr.label(false), "memchr");
    assert_eq!(Strategy::Memchr.label(true), "memchr/stream");
    assert_eq!(Strategy::Mmap.label(false), "mmap");
    assert_eq!(Strategy::Mmap.label(true), "mmap");
}

#[test]
fn each_strategy_has_its_parsers() {
    assert_eq!(Strategy::Baseline.parse_route(false), ParseRoute::BaselineFile);
    assert_eq!(Strategy::Baseline.parse_route(true), ParseRoute::BaselineFile);
    assert_eq!(Strategy::Bytes.parse_route(false), ParseRoute::BytesFile);
    assert_eq!(Strategy::Bytes.parse_route(true), ParseRoute::BytesMemory);
    assert_eq!(Strategy::Memchr.parse_route(false), ParseRoute::MemchrFile);
    assert_eq!(Strategy::Memchr.parse_route(true), ParseRoute::MemchrMemory);
    assert_eq!(Strategy::Mmap.parse_route(false), ParseRoute::MmapFile);
    assert_eq!(Strategy::Mmap.parse_route(true), ParseRoute::MmapFile);
}

#[test]
fn archives_reach_a_parser_that_can_read_them() {
    for strategy in ALL {
        for requested in [false, true] {
            for on_disk in [false, true] {
                let stream = strategy.stream_enabled(requested);
                let in_memory = acquisition(stream, on_disk) == Acquisition::ToMemory;
                let route = strategy.parse_route(in_memory);
                let reads_memory =
                    matches!(route, ParseRoute::BytesMemory | ParseRoute::MemchrMemory);
                assert_eq!(reads_memory, in_memory);
            }
        }
    }
}

#[test]
fn archives_are_fetched_where_they_are_missing() {
    assert_eq!(acquisition(true, true), Acquisition::ToMemory);
    assert_eq!(acquisition(true, false), Acquisition::ToMemory);
    assert_eq!(acquisition(false, true), Acquisition::Present);
    assert_eq!(acquisition(false, false), Acquisition::ToDisk);
}

#[test]
fn only_files_are_deleted() {
    assert!(deletes_file(true, false));
    assert!(!deletes_file(true, true));
    assert!(!deletes_file(false, false));
    assert!(!deletes_file(false, true));
}

#[test]
fn one_job_runs_where_cores_are_not_known() {
    assert_eq!(jobs_or_one(Some(8)), 8);
    assert_eq!(jobs_or_one(None), 1);
}

#[test]
fn jobs_are_capped_at_twice_the_cores() {
    assert_eq!(cap_to_cores(20, 8), 16);
    assert_eq!(cap_to_cores(16, 8), 16);
    assert_eq!(cap_to_cores(3, 8), 3);
    assert_eq!(cap_to_cores(0, 8), 0);
}

#[test]
fn streamed_jobs_are_capped_by_memory() {
    assert_eq!(MAX_ARCHIVE_SIZE, 1 << 30);
    assert_eq!(cap_to_memory(16, 8 << 30), 8);
    assert_eq!(cap_to_memory(16, (8 << 30) - 1), 7);
    assert_eq!(cap_to_memory(4, 8 << 30), 4);
    assert_eq!(cap_to_memory(4, 0), 1);
    assert_eq!(cap_to_memory(0, 0), 0);
}

#[test]
fn job_plan_applies_both_guards() {
    let eight = Some(8u64 << 30);
    assert_eq!(plan_jobs(40, 16, true, eight), JobPlan { capped: 32, effective: 8 });
    assert_eq!(plan_jobs(40, 16, false, eight), JobPlan { capped: 32, effective: 32 });
    assert_eq!(plan_jobs(40, 16, true, None), JobPlan { capped: 32, effective: 32 });
    assert_eq!(plan_jobs(4, 16, true, eight), JobPlan { capped: 4, effective: 4 });
}

#[test]
fn available_memory_is_read_off_meminfo() {
    let meminfo = "MemTotal:       16384000 kB\nMemFree:         1234567 kB\nMemAvailable:    8765432 kB\nBuffers: 1 kB\n";
    assert_eq!(mem_available_kb(meminfo), Some(8765432));
    assert_eq!(get_available_memory(meminfo), Some(8765432 * 1024));
}

#[test]
fn meminfo_variants() {
    assert_eq!(mem_available_kb("MemAvailable:7kB"), Some(7));
    assert_eq!(mem_available_kb("MemAvailable: 7\r\nx"), Some(7));
    assert_eq!(mem_available_kb("MemAvailable: 7 kBkB\n"), Some(7));
    assert_eq!(mem_available_kb("MemAvailable: 1 kB\nMemAvailable: 2 kB\n"), Some(1));
    assert_eq!(mem_available_kb(""), None);
    assert_eq!(mem_available_kb("MemFree: 7 kB\n"), None);
    assert_eq!(mem_available_kb(" MemAvailable: 7 kB\n"), None);
    assert_eq!(mem_available_kb("MemAvailable: 7 MB\nMemAvailable: 2 kB\n"), None);
    assert_eq!(mem_available_kb("MemAvailable: -7 kB"), None);
    assert_eq!(get_available_memory("MemFree: 7 kB\n"), None);
}

#[test]
fn sysctl_output_is_parsed() {
    assert_eq!(sysctl_value("16384\n"), Some(16384));
    assert_eq!(sysctl_value("  42 "), Some(42));
    assert_eq!(sysctl_value(""), None);
    assert_eq!(sysctl_value("unknown oid"), None);
}

#[test]
fn pages_add_up_to_memory() {
    assert_eq!(memory_from_pages(Some(4096), Some(10), Some(5), Some(1)), Some(16 * 4096));
    assert_eq!(memory_from_pages(Some(4096), Some(10), None, None), Some(40960));
    assert_eq!(memory_from_pages(None, Some(10), Some(5), Some(1)), None);
    assert_eq!(memory_from_pages(Some(4096), None, Some(5), Some(1)), None);
}

fn names(list: &[&str]) -> Vec<Option<String>> {
    list.iter()
        .map(|name| {
            if name.is_empty() {
                None
            } else {
                Some(name.to_string())
            }
        })
        .collect()
}

#[test]
fn processed_names_are_remembered() {
    let mut processed = ProcessedSet::new();
    assert!(!processed.contains("a"));
    processed.insert("a".to_string());
    processed.insert("a".to_string());
    assert!(processed.contains("a"));
    assert!(!processed.contains("b"));
}

#[test]
fn unlimited_run_takes_every_pending_archive() {
    let mut processed = ProcessedSet::new();
    processed.insert("b".to_string());
    let plan = plan_work(&names(&["a", "b", "", "c"]), &processed, None);
    assert_eq!(plan.steps, vec![Step::Take, Step::Skip, Step::Invalid, Step::Take]);
    assert_eq!(plan.work, vec![0, 3]);
    assert_eq!(plan.skipped, 1);
}

#[test]
fn skipped_archives_do_not_count_toward_the_limit() {
    let mut processed = ProcessedSet::new();
    processed.insert("a".to_string());
    processed.insert("c".to_string());
    let list = names(&["a", "b", "c", "", "d", "e"]);
    let plan = plan_work(&list, &processed, Some(2));
    assert_eq!(
        plan.steps,
        vec![Step::Skip, Step::Take, Step::Skip, Step::Invalid, Step::Take, Step::Stop]
    );
    assert_eq!(plan.work, vec![1, 4]);
    assert_eq!(plan.skipped, 2);
}

#[test]
fn run_stops_at_the_first_archive_beyond_the_limit() {
    let plan = plan_work(&names(&["a", "b", "c"]), &ProcessedSet::new(), Some(1));
    assert_eq!(plan.steps, vec![Step::Take, Step::Stop]);
    assert_eq!(plan.work, vec![0]);
    let plan = plan_work(&names(&["", "a"]), &ProcessedSet::new(), Some(0));
    assert_eq!(plan.steps, vec![Step::Invalid, Step::Stop]);
    assert_eq!(plan.work, Vec::<usize>::new());
    let plan = plan_work(&names(&["a", "b"]), &ProcessedSet::new(), Some(2));
    assert_eq!(plan.steps, vec![Step::Take, Step::Take]);
}

#[test]
fn repeated_archive_is_taken_each_time() {
    let plan = plan_work(&names(&["a", "a"]), &ProcessedSet::new(), None);
    assert_eq!(plan.work, vec![0, 1]);
}

#[test]
fn outcomes_are_counted() {
    let mut tally = Tally::new(3);
    tally.record(Outcome::Parsed { new_onions: 5 });
    tally.record(Outcome::Failed);
    tally.record(Outcome::Parsed { new_onions: 0 });
    assert_eq!(tally, Tally { processed: 2, skipped: 3, failed: 1, new_onions: 5 });
}
