use opencli::cache::{duplicate_groups, split_lines, CacheEntry, CacheManager};
use opencli::result::OpenCliError;

fn cache_with(text: &str) -> CacheManager {
    let mut cache = CacheManager::new("work");
    cache.load(Some(text.to_string()));
    cache
}

fn entry(filename: &str, hash: &str) -> CacheEntry {
    CacheEntry { filename: filename.to_string(), hash: hash.to_string() }
}

fn pairs(entries: &[CacheEntry]) -> Vec<(String, String)> {
    entries.iter().map(|e| (e.filename.clone(), e.hash.clone())).collect()
}

#[test]
fn cache_file_lies_in_base_directory() {
    assert_eq!(CacheManager::new("work").cache_file(), "work/cache.txt");
    assert_eq!(CacheManager::new("work/").cache_file(), "work/cache.txt");
    assert_eq!(CacheManager::new("").cache_file(), "cache.txt");
    assert!(CacheManager::new("work").content().is_none());
}

#[test]
fn store_then_get_then_remove() {
    let mut cache = CacheManager::new("work");
    cache.store_hash("a.txt", "h1").unwrap();
    assert_eq!(cache.content(), Some("a.txt\nargon2:h1\n"));
    assert_eq!(cache.get_hash("a.txt"), Some("h1".to_string()));
    assert!(cache.exists_cache("a.txt"));
    cache.remove_hash("a.txt");
    assert_eq!(cache.get_hash("a.txt"), None);
    assert!(!cache.exists_cache("a.txt"));
    assert_eq!(cache.content(), Some(""));
}

#[test]
fn store_appends_to_what_is_there() {
    let mut cache = cache_with("a.txt\nargon2:h1\n");
    cache.store_hash("b.txt", "h2").unwrap();
    assert_eq!(cache.content(), Some("a.txt\nargon2:h1\nb.txt\nargon2:h2\n"));
    assert_eq!(cache.get_hash("b.txt"), Some("h2".to_string()));
    assert_eq!(cache.get_hash("a.txt"), Some("h1".to_string()));
    assert_eq!(cache.get_hash("c.txt"), None);
}

#[test]
fn store_rejects_empty_and_multiline_values() {
    let mut cache = cache_with("a.txt\nargon2:h1\n");
    for (name, hash) in [("", "h"), ("a\nb", "h"), ("a", ""), ("a", "h\nx")] {
        let err = cache.store_hash(name, hash).unwrap_err();
        assert!(matches!(err, OpenCliError::Config(_)));
        assert_eq!(cache.content(), Some("a.txt\nargon2:h1\n"));
    }
}

#[test]
fn get_reads_first_match_and_skips_lines_without_tag() {
    let cache = cache_with("a\nargon2:1\na\nargon2:2\n");
    assert_eq!(cache.get_hash_fast("a"), Some("1".to_string()));
    let cache = cache_with("a\nnot a hash\na\nargon2:2\n");
    assert_eq!(cache.get_hash_fast("a"), Some("2".to_string()));
    let cache = cache_with("b\nargon2:1\na");
    assert_eq!(cache.get_hash_fast("a"), None);
    assert_eq!(CacheManager::new("x").get_hash_fast("a"), None);
}

#[test]
fn lines_follow_line_feeds_and_drop_carriage_returns() {
    let text: Vec<char> = "a\r\nb\n\nc\r".chars().collect();
    let lines: Vec<String> = split_lines(&text).iter().map(|l| l.iter().collect()).collect();
    assert_eq!(lines, vec!["a", "b", "", "c\r"]);
    assert!(split_lines(&[]).is_empty());
    let one: Vec<char> = "\n".chars().collect();
    assert_eq!(split_lines(&one).len(), 1);
}

#[test]
fn load_all_pairs_names_with_hashes_and_drops_orphans() {
    let cache = cache_with("argon2:orphan\na\nargon2:1\n\nb\n\nargon2:2\nc\nd\nargon2:4\ne\n");
    let entries = cache.load_all_hashes();
    assert_eq!(
        pairs(&entries),
        vec![
            ("a".to_string(), "1".to_string()),
            ("b".to_string(), "2".to_string()),
            ("d".to_string(), "4".to_string()),
        ]
    );
    assert_eq!(cache.count_cache(), 3);
    assert_eq!(cache.list_files_cache(), vec!["a", "b", "d"]);
}

#[test]
fn load_all_keeps_last_hash_of_a_name() {
    let cache = cache_with("a\nargon2:1\nb\nargon2:2\na\nargon2:3\n");
    let entries = cache.load_all_hashes();
    assert_eq!(
        pairs(&entries),
        vec![("a".to_string(), "3".to_string()), ("b".to_string(), "2".to_string())]
    );
}

#[test]
fn integrity_of_well_formed_and_broken_files() {
    assert!(CacheManager::new("x").find_cache_integrity());
    assert!(cache_with("").find_cache_integrity());
    assert!(cache_with("a\nargon2:1\n\n\nb\nargon2:2").find_cache_integrity());
    assert!(!cache_with("a\nargon2:1\nb\n").find_cache_integrity());
    assert!(!cache_with("a\nb\nargon2:2\n").find_cache_integrity());
    assert!(!cache_with("argon2:1\n").find_cache_integrity());
}

#[test]
fn repair_removes_the_orphan_and_keeps_the_pairs() {
    let mut cache = cache_with("a\nargon2:1\nb\nargon2:2\norphan.txt\n");
    assert!(!cache.find_cache_integrity());
    cache.repair_cache();
    assert_eq!(cache.content(), Some("a\nargon2:1\nb\nargon2:2\n"));
    assert!(cache.find_cache_integrity());
    assert_eq!(cache.get_hash("orphan.txt"), None);
    assert_eq!(cache.get_hash("b"), Some("2".to_string()));
}

#[test]
fn repair_leaves_a_well_formed_file_alone() {
    let mut cache = cache_with("a\nargon2:1\n\n\nb\nargon2:2");
    cache.repair_cache();
    assert_eq!(cache.content(), Some("a\nargon2:1\n\n\nb\nargon2:2"));
    let mut missing = CacheManager::new("x");
    missing.repair_cache();
    assert!(missing.content().is_none());
}

#[test]
fn remove_rewrites_the_other_records() {
    let mut cache = cache_with("a\nargon2:1\n\nb\nargon2:2\norphan\nc\nargon2:3");
    cache.remove_hash("b");
    assert_eq!(cache.content(), Some("a\nargon2:1\nc\nargon2:3\n"));
    let mut missing = CacheManager::new("x");
    missing.remove_hash("a");
    assert!(missing.content().is_none());
}

#[test]
fn update_replaces_the_hash() {
    let mut cache = cache_with("a\nargon2:1\nb\nargon2:2\n");
    cache.update_hash("a", "9").unwrap();
    assert_eq!(cache.content(), Some("b\nargon2:2\na\nargon2:9\n"));
    assert_eq!(cache.get_hash("a"), Some("9".to_string()));
    assert!(cache.update_hash("a", "").is_err());
    assert_eq!(cache.get_hash("a"), None);
}

#[test]
fn bulk_store_appends_all_entries() {
    let mut cache = CacheManager::new("x");
    cache.bulk_store(&vec![entry("a", "1"), entry("b", "2")]);
    assert_eq!(cache.content(), Some("a\nargon2:1\nb\nargon2:2\n"));
    cache.bulk_store(&vec![]);
    assert_eq!(cache.content(), Some("a\nargon2:1\nb\nargon2:2\n"));
}

#[test]
fn size_and_clear() {
    let mut cache = CacheManager::new("x");
    assert_eq!(cache.get_cache_size(), 0);
    cache.clear_cache();
    assert!(cache.content().is_none());
    cache.store_hash("é", "h").unwrap();
    assert_eq!(cache.get_cache_size(), "é\nargon2:h\n".len());
    cache.clear_cache();
    assert_eq!(cache.content(), Some(""));
    assert_eq!(cache.count_cache(), 0);
}

#[test]
fn find_duplicates_groups_names_by_hash() {
    let mut cache = CacheManager::new("x");
    cache.bulk_store(&vec![entry("f1", "h"), entry("f2", "h"), entry("f3", "h2")]);
    let groups = cache.find_duplicate_hashes();
    assert_eq!(groups.len(), 1);
    assert_eq!(groups[0].hash, "h");
    assert_eq!(groups[0].files, vec!["f1", "f2"]);
}

#[test]
fn duplicate_groups_come_in_order_of_first_occurrence() {
    let entries = vec![
        entry("a", "x"),
        entry("b", "y"),
        entry("c", "z"),
        entry("d", "y"),
        entry("e", "x"),
        entry("f", "x"),
    ];
    let groups = duplicate_groups(&entries);
    assert_eq!(groups.len(), 2);
    assert_eq!((groups[0].hash.as_str(), groups[0].files.clone()), ("x", vec!["a".to_string(), "e".to_string(), "f".to_string()]));
    assert_eq!((groups[1].hash.as_str(), groups[1].files.clone()), ("y", vec!["b".to_string(), "d".to_string()]));
    assert!(duplicate_groups(&vec![]).is_empty());
}
