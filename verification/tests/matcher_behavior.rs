use fastjump::cache::get_current_state;
use fastjump::config::{test_config, Config};
use fastjump::fj_matcher::{
    aggregate, escape_spaces, initial_result, reverse_string, score_child, worker_step,
    WorkerAction, WorkerEvent, WorkerResult,
};
use linked_hash_map::LinkedHashMap;
use std::collections::VecDeque;

/// Drives one worker over a prepared table of directory listings, exactly as
/// the shell drives it over the filesystem: pop a directory, look up its
/// children (a directory missing from the table is an unreadable one), let
/// the library decide, push what it says to enqueue, stop when it reports.
fn run_scan(
    root: &str,
    listings: &[(&str, Vec<&str>)],
    config: &Config,
    pattern: &str,
    cache_text: &str,
) -> String {
    let cache = get_current_state(config.clone(), cache_text).unwrap();
    let rev_pattern = reverse_string(pattern);
    let mut frontier: VecDeque<String> = VecDeque::new();
    frontier.push_back(String::from(root));
    let mut best = initial_result();
    loop {
        let event = match frontier.pop_front() {
            None => WorkerEvent::FrontierEmpty,
            Some(dir) => match listings.iter().find(|(d, _)| *d == dir) {
                None => WorkerEvent::ListingFailed,
                Some((_, children)) => {
                    WorkerEvent::Listing(children.iter().map(|c| String::from(*c)).collect())
                }
            },
        };
        match worker_step(&mut best, event, &config.ignores, rev_pattern.as_str(), &cache) {
            WorkerAction::Expand(enqueue) => {
                for path in enqueue {
                    frontier.push_back(path);
                }
            }
            WorkerAction::Report => break,
        }
    }
    aggregate(&vec![best])
}

#[test]
fn test_basic_exact_match() {
    let config = test_config();
    let listings = [("/tmp/fj", vec!["/tmp/fj/test"])];
    let result = run_scan("/tmp/fj", &listings, &config, "test", "");
    assert_eq!(result, String::from("/tmp/fj/test"));
}

#[test]
fn test_prefer_later_in_string() {
    let config = test_config();
    let listings = [
        ("/tmp/fj", vec!["/tmp/fj/projects"]),
        ("/tmp/fj/projects", vec!["/tmp/fj/projects/project", "/tmp/fj/projects/hello"]),
    ];
    let result = run_scan("/tmp/fj", &listings, &config, "project", "");
    assert_eq!(result, String::from("/tmp/fj/projects/project"));
}

#[test]
fn test_prefer_entries_from_cache() {
    let mut config = test_config();
    config.previous_visits = Some(String::from("/tmp/fj/visits.yml"));
    let listings = [
        ("/tmp/fj", vec!["/tmp/fj/projects"]),
        (
            "/tmp/fj/projects",
            vec![
                "/tmp/fj/projects/a",
                "/tmp/fj/projects/b",
                "/tmp/fj/projects/c",
                "/tmp/fj/projects/d",
            ],
        ),
    ];
    let cache_text = "---\n/tmp/fj/projects/c: 5";
    let result = run_scan("/tmp/fj", &listings, &config, "proj", cache_text);
    assert_eq!(result, String::from("/tmp/fj/projects/c"));
}

#[test]
fn test_handles_space_in_path() {
    let config = test_config();
    let listings = [
        ("/tmp/fj", vec!["/tmp/fj/projects"]),
        ("/tmp/fj/projects", vec!["/tmp/fj/projects/project other", "/tmp/fj/projects/hello"]),
    ];
    let result = run_scan("/tmp/fj", &listings, &config, "other", "");
    assert!(result.as_str().ends_with("/projects/project\\ other"));
}

#[test]
fn test_directory_does_not_exist() {
    let config = test_config();
    let listings: [(&str, Vec<&str>); 0] = [];
    let result = run_scan("asdf", &listings, &config, "projects", "");
    assert_eq!(result, String::from("."));
}

#[test]
fn test_unreadable_directory_keeps_partial_best() {
    // A worker that cannot read a directory reports what it has instead of
    // failing the scan.
    let config = test_config();
    let cache: LinkedHashMap<String, i64> = LinkedHashMap::new();
    let rev_pattern = reverse_string("test");
    let mut best = initial_result();
    let listing = WorkerEvent::Listing(vec![String::from("/tmp/fj/test")]);
    match worker_step(&mut best, listing, &config.ignores, rev_pattern.as_str(), &cache) {
        WorkerAction::Expand(enqueue) => assert_eq!(enqueue, vec![String::from("/tmp/fj/test")]),
        WorkerAction::Report => panic!("a listing is expanded, not reported"),
    }
    let partial_score = best.score;
    let partial_path = best.path.clone();
    assert!(partial_score > 0);
    let failed = WorkerEvent::ListingFailed;
    match worker_step(&mut best, failed, &config.ignores, rev_pattern.as_str(), &cache) {
        WorkerAction::Expand(_) => panic!("a failed listing is reported, not expanded"),
        WorkerAction::Report => {}
    }
    assert_eq!(best.score, partial_score);
    assert_eq!(best.path, partial_path);
}

#[test]
fn test_fresh_worker_reports_zero_result() {
    let config = test_config();
    let cache: LinkedHashMap<String, i64> = LinkedHashMap::new();
    let rev_pattern = reverse_string("projects");
    let mut best = initial_result();
    let action =
        worker_step(&mut best, WorkerEvent::ListingFailed, &config.ignores, rev_pattern.as_str(), &cache);
    assert!(matches!(action, WorkerAction::Report));
    assert_eq!(best.score, 0);
    assert_eq!(best.path, String::new());
}

#[test]
fn test_good_match() {
    let config = test_config();
    let listings = [("test_configs", vec!["test_configs/empty"])];
    let result = run_scan("test_configs", &listings, &config, "empty", "");
    assert_eq!(result, String::from("test_configs/empty"));
}

#[test]
fn test_no_match() {
    let config = test_config();
    let listings = [("test_configs", vec![])];
    let result = run_scan("test_configs", &listings, &config, "nonexisting", "");
    assert_eq!(result, String::from("."));
}

#[test]
fn test_empty_pattern_falls_back() {
    let config = test_config();
    let listings = [("/tmp/fj", vec!["/tmp/fj/test"])];
    let result = run_scan("/tmp/fj", &listings, &config, "", "");
    assert_eq!(result, String::from("."));
}

#[test]
fn test_ignored_and_hidden_children_skipped() {
    let mut config = test_config();
    config.ignores = vec![String::from("node_modules")];
    let cache: LinkedHashMap<String, i64> = LinkedHashMap::new();
    let rev_pattern = reverse_string("node_modules");
    let mut best = initial_result();
    let listing =
        WorkerEvent::Listing(vec![String::from("/tmp/fj/node_modules"), String::from("/tmp/fj/.git")]);
    match worker_step(&mut best, listing, &config.ignores, rev_pattern.as_str(), &cache) {
        WorkerAction::Expand(enqueue) => assert_eq!(enqueue, Vec::<String>::new()),
        WorkerAction::Report => panic!("a listing is expanded, not reported"),
    }
    assert_eq!(best.score, 0);
    assert_eq!(best.path, String::new());
}

#[test]
fn test_proximity_to_leaf_scores_at_least_as_high() {
    // The same pattern matching nearer the end of the path never scores
    // lower than the same match nearer the root.
    let cache: LinkedHashMap<String, i64> = LinkedHashMap::new();
    let rev_pattern = reverse_string("project");
    let near_leaf = String::from("/home/me/project");
    let near_root = String::from("/project/me/home");
    let leaf_score = score_child(&near_leaf, rev_pattern.as_str(), &cache);
    let root_score = score_child(&near_root, rev_pattern.as_str(), &cache);
    assert!(leaf_score >= root_score);
}

#[test]
fn test_cache_bonus_added_to_score() {
    let mut cache: LinkedHashMap<String, i64> = LinkedHashMap::new();
    cache.insert(String::from("/tmp/fj/projects/c"), 5);
    let empty: LinkedHashMap<String, i64> = LinkedHashMap::new();
    let rev_pattern = reverse_string("proj");
    let path = String::from("/tmp/fj/projects/c");
    let with_bonus = score_child(&path, rev_pattern.as_str(), &cache);
    let without_bonus = score_child(&path, rev_pattern.as_str(), &empty);
    assert_eq!(with_bonus, without_bonus + 5);
}

#[test]
fn test_escape_spaces() {
    assert_eq!(escape_spaces("a b c"), String::from("a\\ b\\ c"));
    assert_eq!(escape_spaces("nospace"), String::from("nospace"));
    assert_eq!(escape_spaces(" "), String::from("\\ "));
    assert_eq!(escape_spaces(""), String::new());
}

#[test]
fn test_reverse_string() {
    assert_eq!(reverse_string("abc"), String::from("cba"));
    assert_eq!(reverse_string(""), String::new());
    assert_eq!(reverse_string("ab/c"), String::from("c/ba"));
}

#[test]
fn test_aggregate_ties_resolve_to_first() {
    let results = vec![
        WorkerResult { score: 20, path: String::from("first") },
        WorkerResult { score: 20, path: String::from("second") },
        WorkerResult { score: 7, path: String::from("third") },
    ];
    assert_eq!(aggregate(&results), String::from("first"));
}

#[test]
fn test_aggregate_below_threshold_is_dot() {
    let results = vec![
        WorkerResult { score: 9, path: String::from("almost") },
        WorkerResult { score: 3, path: String::from("far") },
    ];
    assert_eq!(aggregate(&results), String::from("."));
    assert_eq!(aggregate(&Vec::new()), String::from("."));
}
