use errorvec::{ErrorVec, ResultIterator};

fn mixed() -> Vec<Result<i32, &'static str>> {
    vec![Ok(1), Err("x"), Ok(2), Err("y")]
}

#[test]
fn two_failures_render_as_two_blocks() {
    let input: Vec<Result<(), String>> = vec![
        Err("No such file or directory (os error 2)".to_string()),
        Err("something borked".to_string()),
    ];
    let ev = input.into_iter().into_errorvec_result().unwrap_err();
    assert_eq!(
        ev.to_string(),
        "[error 1 of 2] No such file or directory (os error 2)\n\n[error 2 of 2] something borked\n",
    );
}

#[test]
fn all_successes_give_the_values_in_order() {
    let input: Vec<Result<i32, String>> = vec![Ok(1), Ok(2), Ok(3)];
    let oks = input.into_iter().into_errorvec_result().unwrap();
    assert_eq!(oks, vec![1, 2, 3]);
}

#[test]
fn failures_among_successes_give_only_the_errors() {
    let ev = mixed().into_iter().into_errorvec_result().unwrap_err();
    assert_eq!(ev.as_slice(), &["x", "y"]);
    assert_eq!(ev.to_string(), "[error 1 of 2] x\n\n[error 2 of 2] y\n");
}

#[test]
fn empty_input_gives_an_empty_success() {
    let input: Vec<Result<i32, String>> = Vec::new();
    let oks = input.into_iter().into_errorvec_result().unwrap();
    assert_eq!(oks, Vec::<i32>::new());
}

#[test]
fn one_failure_at_the_end_fails_the_whole() {
    let input: Vec<Result<u8, u8>> = vec![Ok(1), Ok(2), Err(3)];
    let ev = input.into_iter().into_errorvec_result().unwrap_err();
    assert_eq!(ev.as_slice(), &[3]);
}

#[test]
fn errors_keep_their_order_and_their_duplicates() {
    let input: Vec<Result<u8, u8>> = vec![Err(9), Ok(0), Err(1), Err(9), Ok(5), Err(4)];
    let ev = input.into_iter().into_errorvec_result().unwrap_err();
    assert_eq!(ev.as_slice(), &[9, 1, 9, 4]);
}

#[test]
fn works_on_a_lazy_chain() {
    let gathered = ["4", "x", "15", "", "16"]
        .iter()
        .map(|text| text.parse::<u32>().map_err(|_| format!("not a number: {:?}", text)))
        .into_errorvec_result();
    let ev = gathered.unwrap_err();
    assert_eq!(
        ev.as_slice(),
        &["not a number: \"x\"".to_string(), "not a number: \"\"".to_string()],
    );

    let gathered = ["4", "15", "16"].iter().map(|text| text.parse::<u32>()).into_errorvec_result();
    assert_eq!(gathered.unwrap(), vec![4, 15, 16]);
}

#[test]
fn every_item_is_walked_once() {
    let mut walked = 0;
    let gathered = (0..10)
        .map(|i| {
            walked += 1;
            if i % 3 == 0 {
                Err(i)
            } else {
                Ok(i)
            }
        })
        .into_errorvec_result();
    assert_eq!(gathered.unwrap_err().as_slice(), &[0, 3, 6, 9]);
    assert_eq!(walked, 10);
}

#[test]
fn partition_gives_both_lists() {
    let (oks, errs) = mixed().into_iter().partition_results();
    assert_eq!(oks, vec![1, 2]);
    assert_eq!(errs, vec!["x", "y"]);

    let input: Vec<Result<i32, String>> = vec![Ok(1), Ok(2), Ok(3)];
    let (oks, errs) = input.into_iter().partition_results();
    assert_eq!(oks, vec![1, 2, 3]);
    assert!(errs.is_empty());

    let input: Vec<Result<i32, String>> = Vec::new();
    let (oks, errs) = input.into_iter().partition_results();
    assert!(oks.is_empty());
    assert!(errs.is_empty());
}

#[test]
fn every_item_is_counted_once() {
    let inputs: Vec<Vec<Result<u8, u8>>> = vec![
        vec![],
        vec![Ok(1)],
        vec![Err(1)],
        vec![Err(1), Err(2), Ok(3), Err(4)],
        vec![Ok(1), Ok(2), Err(3), Ok(4), Ok(5)],
    ];
    for input in inputs {
        let total = input.len();
        let (oks, errs) = input.into_iter().partition_results();
        assert_eq!(oks.len() + errs.len(), total);
    }
}

#[test]
fn a_loop_around_take_error_gathers_the_same() {
    let inputs: Vec<Vec<Result<i32, &'static str>>> = vec![
        vec![],
        mixed(),
        vec![Ok(1), Ok(2), Ok(3)],
        vec![Err("a"), Err("b")],
        vec![Err("a"), Ok(7), Ok(8), Err("a"), Ok(7)],
    ];
    for input in inputs {
        let mut kept = Vec::new();
        let mut ev = ErrorVec::default();
        for outcome in input.clone() {
            if let Some(value) = ev.take_error(outcome) {
                kept.push(value);
            }
        }
        let (oks, errs) = input.clone().into_iter().partition_results();
        assert_eq!(kept, oks);
        assert_eq!(ev.as_slice(), errs.as_slice());

        match (ev.into_result_with(kept), input.into_iter().into_errorvec_result()) {
            (Ok(by_hand), Ok(at_once)) => assert_eq!(by_hand, at_once),
            (Err(by_hand), Err(at_once)) => assert_eq!(by_hand.as_slice(), at_once.as_slice()),
            _ => panic!("one way failed and the other did not"),
        }
    }
}
