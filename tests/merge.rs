use docx_template::merge::{merge_plan, VMerge};

fn rows(vals: &[&str]) -> Vec<Vec<String>> {
    vals.iter().map(|v| vec![v.to_string()]).collect()
}

#[test]
fn run_of_equal_values_collapses() {
    let plan = merge_plan(&rows(&["A", "A", "A", "B"]));
    assert_eq!(
        plan,
        vec![
            vec![Some(VMerge::Restart)],
            vec![Some(VMerge::Continue)],
            vec![Some(VMerge::Continue)],
            vec![None],
        ]
    );
}

#[test]
fn empty_values_never_start_a_merge() {
    let plan = merge_plan(&rows(&["", "", "X"]));
    assert_eq!(plan, vec![vec![None], vec![None], vec![None]]);
}

#[test]
fn isolated_values_get_no_marker() {
    let plan = merge_plan(&rows(&["A", "B", "A"]));
    assert_eq!(plan, vec![vec![None], vec![None], vec![None]]);
}

#[test]
fn columns_merge_independently() {
    let r = vec![
        vec!["x".to_string(), "1".to_string()],
        vec!["x".to_string(), "2".to_string()],
        vec!["y".to_string(), "2".to_string()],
    ];
    let plan = merge_plan(&r);
    assert_eq!(
        plan,
        vec![
            vec![Some(VMerge::Restart), None],
            vec![Some(VMerge::Continue), Some(VMerge::Restart)],
            vec![None, Some(VMerge::Continue)],
        ]
    );
}
