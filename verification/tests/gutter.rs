use rote::gutter::{gutter_column, gutter_requests};

#[test]
fn gutter_asks_once_per_line_one_based() {
    assert_eq!(
        gutter_requests(3, 1),
        vec![(1, false, false), (2, false, true), (3, false, false)]
    );
    assert_eq!(gutter_requests(0, 0), vec![]);
    assert_eq!(gutter_requests(2, 5), vec![(1, false, false), (2, false, false)]);
}

#[test]
fn gutter_answers_become_rows() {
    let answers = vec![Some(" 1".to_string()), None, Some("~3".to_string())];
    assert_eq!(gutter_column(&answers), " 1\n\n~3");
    assert_eq!(gutter_column(&vec![Some("x".to_string())]), "x");
    assert_eq!(gutter_column(&vec![]), "");
    assert_eq!(gutter_column(&vec![None, None]), "\n");
}
