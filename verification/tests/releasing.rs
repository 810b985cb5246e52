use types_of_ants::releasing::{apply_reply, interpret_reply, offer_order, prompt, undecided_in_order, History, Reply, UserChoice};

fn ids(v: &[&str]) -> Vec<String> {
    v.iter().map(|s| s.to_string()).collect()
}

#[test]
fn replies_are_read_by_prefix_in_order() {
    assert!(matches!(interpret_reply(".n"), Reply::Decline));
    assert!(matches!(interpret_reply(".no thanks"), Reply::Decline));
    assert!(matches!(interpret_reply(".y"), Reply::Accept));
    assert!(matches!(interpret_reply(".s"), Reply::Skip));
    assert!(matches!(interpret_reply(".d"), Reply::Done));
    assert!(matches!(interpret_reply(".b"), Reply::Back));
    match interpret_reply("ants are great") {
        Reply::Replace(c) => assert_eq!(c, "ants are great"),
        other => panic!("unexpected {other:?}"),
    }
    match interpret_reply(".") {
        Reply::Replace(c) => assert_eq!(c, "."),
        other => panic!("unexpected {other:?}"),
    }
}

#[test]
fn history_counts_each_kind_of_decision() {
    let mut h = History::empty();
    h.push(UserChoice::Release { ant_id: "a".to_string(), overwrite_content: None });
    h.push(UserChoice::Decline("b".to_string()));
    h.push(UserChoice::Skip("c".to_string()));
    h.push(UserChoice::Release { ant_id: "d".to_string(), overwrite_content: Some("new".to_string()) });
    assert_eq!(h.num_released(), 2);
    assert_eq!(h.num_declined(), 1);
    assert_eq!(h.num_skipped(), 1);
    assert!(h.is_present("c"));
    assert!(!h.is_present("e"));
}

#[test]
fn push_then_pop_gives_the_decision_back() {
    let mut h = History::new(vec![UserChoice::Skip("x".to_string())]);
    h.push(UserChoice::Decline("y".to_string()));
    match h.pop() {
        Some(UserChoice::Decline(a)) => assert_eq!(a, "y"),
        other => panic!("unexpected {other:?}"),
    }
    assert_eq!(h.num_declined(), 0);
    assert_eq!(h.num_skipped(), 1);
    assert!(h.pop().is_some());
    assert!(h.pop().is_none());
    assert_eq!(h.dump().len(), 0);
}

#[test]
fn applying_replies_updates_history() {
    let mut h = History::empty();
    assert!(apply_reply(&mut h, "a", Reply::Accept));
    assert!(apply_reply(&mut h, "b", Reply::Replace("better".to_string())));
    assert!(apply_reply(&mut h, "c", Reply::Decline));
    assert!(apply_reply(&mut h, "c", Reply::Back));
    assert!(!apply_reply(&mut h, "d", Reply::Done));
    let d = h.dump();
    assert_eq!(d.len(), 2);
    match &d[1] {
        UserChoice::Release { ant_id, overwrite_content } => {
            assert_eq!(ant_id, "b");
            assert_eq!(overwrite_content.as_deref(), Some("better"));
        },
        other => panic!("unexpected {other:?}"),
    }
}

#[test]
fn prompt_text_matches() {
    assert_eq!(
        prompt(3, 10, 1, 2, 0, "ant-man", "an ant"),
        "\n[i:3, total:10, yes:1, no:2, skipped:0] [ant-man]\n    [an ant]\n(content/.b[ack]/.y[es]/.n[o]/.s[kip]/.d[one]): "
    );
}

#[test]
fn offer_order_leaves_out_decided_ants() {
    let ants = ids(&["a", "b", "c", "d"]);
    let mut h = History::empty();
    h.push(UserChoice::Skip("b".to_string()));
    h.push(UserChoice::Decline("d".to_string()));
    let mut order = offer_order(&ants, &h);
    order.sort();
    assert_eq!(order, vec![0, 2]);
    let all = offer_order(&ants, &History::empty());
    let mut sorted = all.clone();
    sorted.sort();
    assert_eq!(sorted, vec![0, 1, 2, 3]);
}

#[test]
fn undecided_ants_keep_the_given_order() {
    let ants = ids(&["a", "b", "c", "d"]);
    let mut h = History::empty();
    h.push(UserChoice::Skip("b".to_string()));
    h.push(UserChoice::Decline("d".to_string()));
    assert_eq!(undecided_in_order(&ants, &h, &vec![3, 2, 1, 0]), vec![2, 0]);
    assert_eq!(undecided_in_order(&ants, &History::empty(), &vec![1, 3, 0, 2]), vec![1, 3, 0, 2]);
}
