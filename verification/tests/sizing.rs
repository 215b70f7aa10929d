use vekta::batch::{batch_count, batches};
use vekta::utils::{batch_size_for_memory, detect_system_resources, log, SystemResources, GIB};

#[test]
fn batch_size_steps_with_memory() {
    assert_eq!(batch_size_for_memory(3 * GIB), 1);
    assert_eq!(batch_size_for_memory(5 * GIB), 4);
    assert_eq!(batch_size_for_memory(10 * GIB), 8);
    assert_eq!(batch_size_for_memory(32 * GIB), 16);
}

#[test]
fn batch_size_at_the_boundaries() {
    assert_eq!(batch_size_for_memory(0), 1);
    assert_eq!(batch_size_for_memory(4 * GIB - 1), 1);
    assert_eq!(batch_size_for_memory(4 * GIB), 4);
    assert_eq!(batch_size_for_memory(8 * GIB - 1), 4);
    assert_eq!(batch_size_for_memory(8 * GIB), 8);
    assert_eq!(batch_size_for_memory(16 * GIB - 1), 8);
    assert_eq!(batch_size_for_memory(16 * GIB), 16);
    assert_eq!(batch_size_for_memory(u64::MAX), 16);
}

#[test]
fn one_gib_is_two_to_the_thirty() {
    assert_eq!(GIB, 1_073_741_824);
}

#[test]
fn batch_size_does_not_shrink_when_memory_grows() {
    let mut previous = 0;
    for half_gib in 0..48u64 {
        let size = batch_size_for_memory(half_gib * GIB / 2);
        assert!(previous <= size);
        previous = size;
    }
}

#[test]
fn resources_of_a_given_host() {
    let resources = SystemResources::new(6 * GIB + 17, Some(12));
    assert_eq!(resources.total_memory, 6 * GIB + 17);
    assert_eq!(resources.cpu_count, 12);
    assert_eq!(resources.batch_size, 4);
    assert_eq!(resources.memory_gib(), 6);
    let resources = SystemResources::new(0, None);
    assert_eq!(resources.cpu_count, 1);
    assert_eq!(resources.batch_size, 1);
    assert_eq!(resources.memory_gib(), 0);
}

#[test]
fn detected_batch_size_follows_the_detected_memory() {
    let resources = SystemResources::detect();
    assert_eq!(resources.batch_size, batch_size_for_memory(resources.total_memory));
    assert!(resources.total_memory > 0);
}

#[test]
fn detected_batch_size_is_one_of_the_four() {
    let batch_size = detect_system_resources();
    assert!(matches!(batch_size, 1 | 4 | 8 | 16));
}

#[test]
fn log_is_silent_only_for_the_flag_one() {
    assert_eq!(log("Processing file: a.txt", "1"), None);
    assert_eq!(log("Processing file: a.txt", ""), Some("Processing file: a.txt".to_string()));
    assert_eq!(log("m", "0"), Some("m".to_string()));
    assert_eq!(log("m", "11"), Some("m".to_string()));
    assert_eq!(log("m", " 1"), Some("m".to_string()));
    assert_eq!(log("m", "true"), Some("m".to_string()));
    assert_eq!(log("", "1"), None);
    assert_eq!(log("", "no"), Some(String::new()));
}

#[test]
fn batches_cover_the_items_in_order() {
    assert_eq!(batches(10, 4), vec![(0, 4), (4, 8), (8, 10)]);
    assert_eq!(batches(8, 4), vec![(0, 4), (4, 8)]);
    assert_eq!(batches(3, 16), vec![(0, 3)]);
    assert_eq!(batches(1, 1), vec![(0, 1)]);
    assert_eq!(batches(0, 4), Vec::<(usize, usize)>::new());
}

#[test]
fn batches_agree_with_the_standard_library() {
    for total in 0..40usize {
        let items: Vec<usize> = (0..total).collect();
        for size in [1usize, 4, 8, 16] {
            let planned: Vec<Vec<usize>> =
                batches(total, size).iter().map(|&(a, b)| items[a..b].to_vec()).collect();
            let expected: Vec<Vec<usize>> = items.chunks(size).map(|c| c.to_vec()).collect();
            assert_eq!(planned, expected);
            assert_eq!(batch_count(total, size), expected.len());
        }
    }
}

#[test]
fn batch_count_rounds_up() {
    assert_eq!(batch_count(0, 8), 0);
    assert_eq!(batch_count(1, 8), 1);
    assert_eq!(batch_count(8, 8), 1);
    assert_eq!(batch_count(9, 8), 2);
    assert_eq!(batch_count(usize::MAX, 1), usize::MAX);
    assert_eq!(batch_count(usize::MAX, 2), usize::MAX / 2 + 1);
    assert_eq!(batch_count(usize::MAX, usize::MAX), 1);
}
