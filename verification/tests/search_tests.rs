use oneinstall::search::{PackageResult, SearchAggregator, merge_results};

#[test]
fn test_exact_match_scores_highest() {
    let query = "python";
    let mut exact = PackageResult::new("python".to_string(), "apt".to_string());
    let mut partial = PackageResult::new("python3".to_string(), "apt".to_string());

    SearchAggregator::calculate_score(query, &mut exact);
    SearchAggregator::calculate_score(query, &mut partial);

    assert!(exact.score > partial.score);
}

#[test]
fn test_backend_priority() {
    let query = "git";
    let mut apt_result = PackageResult::new("git".to_string(), "apt".to_string());
    let mut npm_result = PackageResult::new("git".to_string(), "npm".to_string());

    SearchAggregator::calculate_score(query, &mut apt_result);
    SearchAggregator::calculate_score(query, &mut npm_result);

    assert!(apt_result.score > npm_result.score);
}

#[test]
fn test_ranking() {
    let mut results = vec![
        PackageResult::new("python-pip".to_string(), "apt".to_string()),
        PackageResult::new("python".to_string(), "apt".to_string()),
        PackageResult::new("python3".to_string(), "apt".to_string()),
    ];

    SearchAggregator::rank_results("python", &mut results);

    assert_eq!(results[0].name, "python"); // Exact match first
}

#[test]
fn test_ranking_full_order() {
    let mut results = vec![
        PackageResult::new("python".to_string(), "apt".to_string()),
        PackageResult::new("python3".to_string(), "apt".to_string()),
        PackageResult::new("python3-pip".to_string(), "apt".to_string()),
    ];

    SearchAggregator::rank_results("python", &mut results);

    let names: Vec<&str> = results.iter().map(|r| r.name.as_str()).collect();
    assert_eq!(names, vec!["python", "python3", "python3-pip"]);
}

#[test]
fn test_priority_delta_at_least_fifteen() {
    let query = "git";
    let mut apt_result = PackageResult::new("git".to_string(), "apt".to_string());
    let mut npm_result = PackageResult::new("git".to_string(), "npm".to_string());

    SearchAggregator::calculate_score(query, &mut apt_result);
    SearchAggregator::calculate_score(query, &mut npm_result);

    assert!(apt_result.score >= npm_result.score + 15);
}

#[test]
fn test_score_exact_value() {
    // exact match (100) + apt priority (30) + version (5) + description (2)
    let mut r = PackageResult::new("ripgrep".to_string(), "apt".to_string())
        .with_version("14.0".to_string())
        .with_description("fast grep".to_string());
    SearchAggregator::calculate_score("RipGrep", &mut r);
    assert_eq!(r.score, 137);
}

#[test]
fn test_score_unmatched_record_survives() {
    let mut r = PackageResult::new("zsh".to_string(), "pacman".to_string());
    SearchAggregator::calculate_score("python", &mut r);
    assert_eq!(r.score, 0);
}

#[test]
fn test_sort_is_stable_on_ties() {
    let mut results = vec![
        PackageResult::new("first".to_string(), "x".to_string()).with_score(7),
        PackageResult::new("second".to_string(), "x".to_string()).with_score(7),
        PackageResult::new("third".to_string(), "x".to_string()).with_score(9),
    ];
    SearchAggregator::deduplicate(&mut results);
    let names: Vec<&str> = results.iter().map(|r| r.name.as_str()).collect();
    assert_eq!(names, vec!["third", "first", "second"]);
}

#[test]
fn test_deduplicate_keeps_highest() {
    let mut results = vec![
        PackageResult::new("python".to_string(), "npm".to_string()).with_score(80),
        PackageResult::new("ruby".to_string(), "apt".to_string()).with_score(10),
        PackageResult::new("python".to_string(), "apt".to_string()).with_score(90),
    ];
    SearchAggregator::deduplicate(&mut results);
    assert_eq!(results.len(), 2);
    assert_eq!(results[0].name, "python");
    assert_eq!(results[0].source, "apt");
    assert_eq!(results[0].score, 90);
    assert_eq!(results[1].name, "ruby");
}

#[test]
fn test_merge_tolerates_backend_failure() {
    let outcomes: Vec<Result<Vec<PackageResult>, String>> = vec![
        Ok(vec![
            PackageResult::new("a".to_string(), "apt".to_string()),
            PackageResult::new("b".to_string(), "apt".to_string()),
        ]),
        Err("apt-cache exploded".to_string()),
        Ok(vec![PackageResult::new("c".to_string(), "npm".to_string())]),
    ];
    let merged = merge_results(outcomes);
    assert_eq!(merged.len(), 3);
    let names: Vec<&str> = merged.iter().map(|r| r.name.as_str()).collect();
    assert_eq!(names, vec!["a", "b", "c"]);
}

#[test]
fn test_merge_all_failed_is_empty() {
    let outcomes: Vec<Result<Vec<PackageResult>, String>> =
        vec![Err("one".to_string()), Err("two".to_string())];
    assert!(merge_results(outcomes).is_empty());
}

#[test]
fn test_builders() {
    let r = PackageResult::new("jq".to_string(), "brew".to_string())
        .with_version("1.7".to_string())
        .with_description("json tool".to_string())
        .with_score(3);
    assert_eq!(r.name, "jq");
    assert_eq!(r.source, "brew");
    assert_eq!(r.version.as_deref(), Some("1.7"));
    assert_eq!(r.description.as_deref(), Some("json tool"));
    assert_eq!(r.score, 3);
}
