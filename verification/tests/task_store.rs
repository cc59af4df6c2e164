use task_manager::TaskManager;

#[test]
fn new_store_is_empty() {
    let m = TaskManager::new();
    assert_eq!(m.list_tasks().len(), 0);
}

#[test]
fn add_returns_the_new_record() {
    let mut m = TaskManager::new();
    let t = m.add_task("Write report".to_string(), "high".to_string());
    assert_eq!(t.id, 1);
    assert_eq!(t.title, "Write report");
    assert_eq!(t.priority, "high");
    assert!(!t.done);
}

#[test]
fn add_appends_exactly_one_matching_record() {
    let mut m = TaskManager::new();
    m.add_task("first".to_string(), "low".to_string());
    let t = m.add_task("second".to_string(), "medium".to_string());
    let all = m.list_tasks();
    assert_eq!(all.len(), 2);
    assert_eq!(all[1].id, t.id);
    assert_eq!(all[1].title, "second");
    assert_eq!(all[1].priority, "medium");
    assert!(!all[1].done);
    let matching = all.iter().filter(|x| x.id == t.id).count();
    assert_eq!(matching, 1);
}

#[test]
fn ids_strictly_increase_across_adds() {
    let mut m = TaskManager::new();
    let mut last: i32 = 0;
    for k in 0..5 {
        let t = m.add_task(format!("task {}", k), "low".to_string());
        assert!(t.id > last);
        last = t.id;
    }
}

#[test]
fn complete_sets_done_and_leaves_the_rest() {
    let mut m = TaskManager::new();
    m.add_task("a".to_string(), "low".to_string());
    m.add_task("b".to_string(), "high".to_string());
    m.complete_task(1);
    let all = m.list_tasks();
    assert!(all[0].done);
    assert_eq!(all[0].id, 1);
    assert_eq!(all[0].title, "a");
    assert_eq!(all[0].priority, "low");
    assert!(!all[1].done);
    assert_eq!(all[1].id, 2);
    assert_eq!(all[1].title, "b");
    assert_eq!(all[1].priority, "high");
}

#[test]
fn complete_is_idempotent() {
    let mut m = TaskManager::new();
    m.add_task("a".to_string(), "low".to_string());
    m.complete_task(1);
    m.complete_task(1);
    let all = m.list_tasks();
    assert_eq!(all.len(), 1);
    assert!(all[0].done);
    assert_eq!(all[0].title, "a");
}

#[test]
fn complete_of_missing_id_is_a_no_op() {
    let mut m = TaskManager::new();
    m.add_task("a".to_string(), "low".to_string());
    m.complete_task(42);
    let all = m.list_tasks();
    assert_eq!(all.len(), 1);
    assert!(!all[0].done);
}

#[test]
fn remove_drops_exactly_the_matching_record() {
    let mut m = TaskManager::new();
    m.add_task("a".to_string(), "low".to_string());
    m.add_task("b".to_string(), "high".to_string());
    m.add_task("c".to_string(), "low".to_string());
    m.remove_task(2);
    let all = m.list_tasks();
    assert_eq!(all.len(), 2);
    assert_eq!(all[0].id, 1);
    assert_eq!(all[0].title, "a");
    assert_eq!(all[1].id, 3);
    assert_eq!(all[1].title, "c");
}

#[test]
fn remove_twice_is_a_no_op() {
    let mut m = TaskManager::new();
    m.add_task("a".to_string(), "low".to_string());
    m.add_task("b".to_string(), "high".to_string());
    m.remove_task(1);
    m.remove_task(1);
    let all = m.list_tasks();
    assert_eq!(all.len(), 1);
    assert_eq!(all[0].id, 2);
}

#[test]
fn removed_id_never_reappears() {
    let mut m = TaskManager::new();
    m.add_task("a".to_string(), "low".to_string());
    m.add_task("b".to_string(), "high".to_string());
    m.remove_task(1);
    m.add_task("c".to_string(), "low".to_string());
    m.add_task("d".to_string(), "high".to_string());
    for t in m.list_tasks() {
        assert_ne!(t.id, 1);
    }
    assert_eq!(m.list_tasks().len(), 3);
}

#[test]
fn filter_returns_matching_subset_in_order() {
    let mut m = TaskManager::new();
    m.add_task("a".to_string(), "low".to_string());
    m.add_task("b".to_string(), "high".to_string());
    m.add_task("c".to_string(), "low".to_string());
    let low = m.filter_by_priority("low");
    assert_eq!(low.len(), 2);
    assert_eq!(low[0].id, 1);
    assert_eq!(low[0].title, "a");
    assert_eq!(low[1].id, 3);
    assert_eq!(low[1].title, "c");
    let high = m.filter_by_priority("high");
    assert_eq!(high.len(), 1);
    assert_eq!(high[0].id, 2);
    let none = m.filter_by_priority("urgent");
    assert_eq!(none.len(), 0);
}

#[test]
fn filter_on_empty_store_is_empty() {
    let m = TaskManager::new();
    assert_eq!(m.filter_by_priority("low").len(), 0);
}

#[test]
fn scenario_report_and_desk() {
    let mut m = TaskManager::new();
    let t1 = m.add_task("Write report".to_string(), "high".to_string());
    assert_eq!(t1.id, 1);
    assert_eq!(t1.title, "Write report");
    assert_eq!(t1.priority, "high");
    assert!(!t1.done);
    let t2 = m.add_task("Clean desk".to_string(), "low".to_string());
    assert_eq!(t2.id, 2);
    m.complete_task(1);
    {
        let all = m.list_tasks();
        assert_eq!(all.len(), 2);
        assert_eq!(all[0].id, 1);
        assert!(all[0].done);
        assert_eq!(all[1].id, 2);
        assert!(!all[1].done);
    }
    m.remove_task(2);
    {
        let all = m.list_tasks();
        assert_eq!(all.len(), 1);
        assert_eq!(all[0].id, 1);
        assert_eq!(all[0].title, "Write report");
        assert!(all[0].done);
    }
    assert_eq!(m.filter_by_priority("low").len(), 0);
}

#[test]
fn cloned_task_matches_the_original() {
    let mut m = TaskManager::new();
    let t = m.add_task("a".to_string(), "low".to_string());
    let c = t.clone();
    assert_eq!(c.id, t.id);
    assert_eq!(c.title, t.title);
    assert_eq!(c.priority, t.priority);
    assert_eq!(c.done, t.done);
}
