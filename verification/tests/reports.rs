use rdn::file_ops::{disk_info, operation_report};

#[test]
fn report_without_errors_counts_files() {
    assert_eq!(operation_report("Copied", 3, &Vec::new()), "Copied 3 file(s)");
    assert_eq!(operation_report("Deleted", 0, &Vec::new()), "Deleted 0 file(s)");
}

#[test]
fn report_with_errors_joins_them() {
    let errs = vec!["a: denied".to_string()];
    assert_eq!(operation_report("Moved", 2, &errs), "a: denied");
    let errs = vec!["a: denied".to_string(), "b: missing".to_string(), "c: busy".to_string()];
    assert_eq!(operation_report("Moved", 3, &errs), "a: denied; b: missing; c: busy");
}

#[test]
fn disk_space_is_unknown() {
    assert_eq!(disk_info("/"), None);
}

#[test]
fn joining_and_file_lists() {
    let v = vec!["/a/x".to_string(), "/a/y".to_string()];
    assert_eq!(rdn::file_ops::file_list_text(&v), "/a/x\n/a/y");
    assert_eq!(rdn::file_ops::join_texts(&Vec::new(), ", "), "");
    assert_eq!(rdn::file_ops::join_texts(&v, ", "), "/a/x, /a/y");
}

#[test]
fn overwrite_conflicts() {
    let names = vec!["a".to_string(), "b".to_string(), "c".to_string()];
    assert_eq!(rdn::file_ops::first_conflict(&names, &vec![false, true, true]), Some("b".to_string()));
    assert_eq!(rdn::file_ops::first_conflict(&names, &vec![false, false, false]), None);
    let sys = vec!["no-such-entry-here".to_string(), "tmp".to_string()];
    assert_eq!(rdn::file_ops::first_overwrite_conflict_name(&sys, "/"), Some("tmp".to_string()));
    assert_eq!(rdn::file_ops::first_overwrite_conflict_name(&sys[..1].to_vec(), "/"), None);
}

#[test]
fn present_runs() {
    assert_eq!(rdn::splitfile::present_run(&vec![true, true, false, true]), 2);
    assert_eq!(rdn::splitfile::present_run(&vec![false, true]), 0);
    assert_eq!(rdn::splitfile::present_run(&vec![true, true]), 2);
    assert_eq!(rdn::splitfile::present_run(&Vec::new()), 0);
}
