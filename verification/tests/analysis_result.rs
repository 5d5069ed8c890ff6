use mago_analysis::analysis_result::AnalysisResult;

fn with_issues(file: &str, issues: Vec<u32>) -> AnalysisResult<u32> {
    let mut r: AnalysisResult<u32> = AnalysisResult::new();
    r.emitted_issues.insert(file.to_string(), issues);
    r
}

#[test]
fn new_result_is_empty() {
    let r: AnalysisResult<u32> = AnalysisResult::new();
    assert_eq!(r.emitted_issues.len(), 0);
    assert_eq!(r.emitted_definition_issues.len(), 0);
    assert_eq!(r.issue_counts.len(), 0);
    assert_eq!(r.functions_to_migrate.len(), 0);
    assert!(!r.has_invalid_hack_files);
    assert_eq!(r.changed_during_analysis_files.len(), 0);
    assert_eq!(r.get_all_issues().len(), 0);
}

#[test]
fn extend_appends_issues_of_each_file() {
    let mut a = with_issues("a.php", vec![1, 2]);
    a.emitted_issues.insert("c.php".to_string(), vec![7]);
    let mut b = with_issues("a.php", vec![3]);
    b.emitted_issues.insert("b.php".to_string(), vec![4, 5]);
    a.extend(b);
    assert_eq!(a.emitted_issues.get("a.php"), Some(&vec![1, 2, 3]));
    assert_eq!(a.emitted_issues.get("b.php"), Some(&vec![4, 5]));
    assert_eq!(a.emitted_issues.get("c.php"), Some(&vec![7]));
    assert_eq!(a.emitted_issues.len(), 3);
}

#[test]
fn extend_adds_counts_and_merges_flags() {
    let mut a: AnalysisResult<u32> = AnalysisResult::new();
    a.issue_counts.insert("unused-variable".to_string(), 2);
    a.issue_counts.insert("possibly-null".to_string(), 1);
    a.functions_to_migrate.insert("foo".to_string(), true);
    a.functions_to_migrate.insert("bar".to_string(), true);
    a.changed_during_analysis_files.insert("x.php".to_string(), ());
    let mut b: AnalysisResult<u32> = AnalysisResult::new();
    b.issue_counts.insert("unused-variable".to_string(), 3);
    b.issue_counts.insert("invalid-return".to_string(), 4);
    b.functions_to_migrate.insert("foo".to_string(), false);
    b.changed_during_analysis_files.insert("y.php".to_string(), ());
    b.has_invalid_hack_files = true;
    b.emitted_definition_issues.insert("d.php".to_string(), vec![9]);
    a.extend(b);
    assert_eq!(a.issue_counts.get("unused-variable"), Some(&5));
    assert_eq!(a.issue_counts.get("possibly-null"), Some(&1));
    assert_eq!(a.issue_counts.get("invalid-return"), Some(&4));
    assert_eq!(a.functions_to_migrate.get("foo"), Some(&false));
    assert_eq!(a.functions_to_migrate.get("bar"), Some(&true));
    assert!(a.changed_during_analysis_files.contains_key("x.php"));
    assert!(a.changed_during_analysis_files.contains_key("y.php"));
    assert!(a.has_invalid_hack_files);
    // definition issues of the other result are not taken over
    assert_eq!(a.emitted_definition_issues.len(), 0);
}

#[test]
fn extend_with_empty_result_changes_nothing() {
    let mut a = with_issues("a.php", vec![1]);
    a.issue_counts.insert("k".to_string(), 1);
    a.extend(AnalysisResult::new());
    assert_eq!(a.emitted_issues.get("a.php"), Some(&vec![1]));
    assert_eq!(a.issue_counts.get("k"), Some(&1));
    assert!(!a.has_invalid_hack_files);
}

#[test]
fn all_issues_join_file_and_definition_issues() {
    let mut r = with_issues("a.php", vec![1, 2]);
    r.emitted_issues.insert("empty.php".to_string(), vec![]);
    r.emitted_definition_issues.insert("a.php".to_string(), vec![3]);
    r.emitted_definition_issues.insert("b.php".to_string(), vec![4]);
    r.emitted_definition_issues.insert("none.php".to_string(), vec![]);
    let all = r.get_all_issues();
    assert_eq!(all.get("a.php"), Some(&vec![&1, &2, &3]));
    assert_eq!(all.get("b.php"), Some(&vec![&4]));
    assert_eq!(all.get("empty.php"), None);
    assert_eq!(all.get("none.php"), None);
    assert_eq!(all.len(), 2);
}
