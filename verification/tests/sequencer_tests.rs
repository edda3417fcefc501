use nodeindex::subscription::{build_queries, Query, QueueSub, SubStep};

const ENEMY_MOB: &str = "SELECT mob.* FROM enemy_state mob JOIN mobile_entity_state loc ON mob.entity_id = loc.entity_id;";
const ENEMY_LOC: &str = "SELECT loc.* FROM mobile_entity_state loc JOIN enemy_state mob ON loc.entity_id = mob.entity_id;";

#[test]
fn enemy_query_strings() {
    let q = Query::ENEMY.query();
    assert_eq!(q.len(), 2);
    assert_eq!(q[0], ENEMY_MOB);
    assert_eq!(q[1], ENEMY_LOC);
}

#[test]
fn resource_query_strings() {
    let q = Query::RESOURCE(102).query();
    assert_eq!(q.len(), 2);
    assert_eq!(
        q[0],
        "SELECT res.* FROM resource_state res JOIN location_state loc ON res.entity_id = loc.entity_id WHERE res.resource_id = 102;"
    );
    assert_eq!(
        q[1],
        "SELECT loc.* FROM location_state loc JOIN resource_state res ON loc.entity_id = res.entity_id WHERE res.resource_id = 102;"
    );
}

#[test]
fn resource_query_negative_id() {
    let q = Query::RESOURCE(-7).query();
    assert!(q[0].ends_with("res.resource_id = -7;"));
}

#[test]
fn registry_order_is_configuration_order() {
    let qs = build_queries(&vec![102, 473828668], true);
    assert_eq!(
        qs,
        vec![Query::ENEMY, Query::RESOURCE(102), Query::RESOURCE(473828668)]
    );
    let qs = build_queries(&vec![102], false);
    assert_eq!(qs, vec![Query::RESOURCE(102)]);
}

#[test]
fn next_walks_groups_and_batches_in_order() {
    let mut sub = QueueSub::new();
    sub.push_group(String::from("tier 10"));
    sub.push_query(vec![String::from("q1")]);
    sub.push_query(vec![String::from("q2a"), String::from("q2b")]);

    match sub.next() {
        SubStep::GROUP(g) => assert_eq!(g, "tier 10"),
        _ => panic!("expected a group step"),
    }
    match sub.next() {
        SubStep::SUBSCRIBE(v) => assert_eq!(v, vec![String::from("q1")]),
        _ => panic!("expected a batch step"),
    }
    match sub.next() {
        SubStep::SUBSCRIBE(v) => assert_eq!(v, vec![String::from("q2a"), String::from("q2b")]),
        _ => panic!("expected a batch step"),
    }
    assert!(matches!(sub.next(), SubStep::SUCCESS));
}

#[test]
fn run_reports_success_once_when_all_batches_apply() {
    let sub = QueueSub::with(vec![Query::ENEMY, Query::RESOURCE(1), Query::RESOURCE(2)]);
    let report = sub.run(&vec![true, true, true]);
    assert!(report.success_fired);
    assert_eq!(report.error_at, None);
    assert_eq!(report.issued.len(), 3);
    assert_eq!(report.issued[0][0], ENEMY_MOB);
    assert!(report.issued[1][0].ends_with("res.resource_id = 1;"));
    assert!(report.issued[2][0].ends_with("res.resource_id = 2;"));
}

#[test]
fn run_stops_at_first_failed_batch() {
    // Batch 1 of 4 fails: the error names batch 1, success never fires,
    // and batches 2 and 3 are never issued.
    let sub = QueueSub::with(vec![
        Query::RESOURCE(10),
        Query::RESOURCE(11),
        Query::RESOURCE(12),
        Query::RESOURCE(13),
    ]);
    let report = sub.run(&vec![true, false, true, true]);
    assert!(!report.success_fired);
    assert_eq!(report.error_at, Some(1));
    assert_eq!(report.issued.len(), 2);
    assert!(report.issued[0][0].ends_with("res.resource_id = 10;"));
    assert!(report.issued[1][0].ends_with("res.resource_id = 11;"));
}

#[test]
fn run_passes_group_labels_over() {
    let mut sub = QueueSub::new();
    sub.push_group(String::from("resources"));
    sub.push_query(vec![String::from("a")]);
    sub.push_group(String::from("enemies"));
    sub.push_query(vec![String::from("b")]);
    let report = sub.run(&vec![true, true]);
    assert!(report.success_fired);
    assert_eq!(report.issued.len(), 2);
}

#[test]
fn run_failure_on_first_batch_issues_only_it() {
    let sub = QueueSub::with(vec![Query::RESOURCE(1), Query::RESOURCE(2)]);
    let report = sub.run(&vec![false, true]);
    assert!(!report.success_fired);
    assert_eq!(report.error_at, Some(0));
    assert_eq!(report.issued.len(), 1);
}

#[test]
fn empty_queue_succeeds_immediately() {
    let sub = QueueSub::new();
    let report = sub.run(&vec![]);
    assert!(report.success_fired);
    assert_eq!(report.error_at, None);
    assert_eq!(report.issued.len(), 0);
}
