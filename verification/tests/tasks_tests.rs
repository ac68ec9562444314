use audiocloud::ids::AppTaskId;
use audiocloud::security::TaskSecurity;
use audiocloud::tasks::{become_online, ActorLink, ConfiguredTask, TaskOpts, TaskReservation, TasksSupervisor};

fn configured(id: &str, domain: &str, from: i64, to: i64) -> ConfiguredTask {
    ConfiguredTask {
        id: AppTaskId::new("app".to_string(), id.to_string()),
        domain_id: domain.to_string(),
        reservations: TaskReservation { from, to },
        security: TaskSecurity { security: vec![] },
    }
}

fn ids(v: &[AppTaskId]) -> Vec<String> {
    v.iter().map(|t| t.task_id.clone()).collect()
}

#[test]
fn default_task_options() {
    let opts = TaskOpts::default();
    assert_eq!(opts.task_grace_seconds, 3600);
    assert_eq!(opts.max_packet_age_ms, 250);
    assert_eq!(opts.max_packet_audio_frames, 4);
}

#[test]
fn reservation_bounds() {
    let r = TaskReservation { from: 10, to: 20 };
    assert!(!r.contains(9));
    assert!(r.contains(10));
    assert!(r.contains(19));
    assert!(!r.contains(20));
}

#[test]
fn supervisor_keeps_tasks_its_filter_passes() {
    let sup = TasksSupervisor::new(
        TaskOpts::default(),
        "d2".to_string(),
        vec![configured("a", "d1", 0, 10), configured("b", "d2", 0, 10), configured("c", "d1", 5, 15)],
        vec!["e1".to_string()],
    );
    assert_eq!(sup.tasks.len(), 2);
    assert_eq!(sup.tasks[0].id.task_id, "a");
    assert_eq!(sup.tasks[1].id.task_id, "c");
    assert_eq!(sup.tasks[0].domain_id, "d1");
    assert!(sup.tasks.iter().all(|t| t.actor.is_none()));
    assert!(!sup.online);
    assert_eq!(sup.allocate_engine(), Some("e1".to_string()));
}

#[test]
fn offline_supervisor_does_nothing() {
    let mut sup = TasksSupervisor::new(TaskOpts::default(), "home".to_string(), vec![configured("a", "d", 0, 10)], vec!["e".to_string()]);
    let report = sup.update(5);
    assert!(report.activated.is_empty() && report.deleted.is_empty() && report.deactivated.is_empty());
    assert!(sup.tasks[0].actor.is_none());
}

#[test]
fn online_supervisor_starts_due_tasks() {
    let mut sup = TasksSupervisor::new(
        TaskOpts::default(),
        "home".to_string(),
        vec![configured("due", "d", 0, 10_000), configured("later", "d", 20_000, 30_000)],
        vec!["e1".to_string(), "e2".to_string()],
    );
    become_online(&mut sup);
    assert!(sup.online);
    let report = sup.update(5_000);
    assert_eq!(ids(&report.activated), vec!["due"]);
    assert_eq!(sup.tasks[0].actor.as_ref().map(|a| a.engine_id.clone()), Some("e1".to_string()));
    assert!(sup.tasks[1].actor.is_none());
    let again = sup.update(6_000);
    assert!(again.activated.is_empty());
}

#[test]
fn dead_actors_are_dropped_and_restarted() {
    let mut sup = TasksSupervisor::new(TaskOpts::default(), "home".to_string(), vec![configured("a", "d", 0, 10_000)], vec!["e".to_string()]);
    sup.become_online();
    sup.tasks[0].actor = Some(ActorLink { engine_id: "e".to_string(), connected: false });
    let report = sup.update(1_000);
    assert_eq!(ids(&report.deactivated), vec!["a"]);
    assert_eq!(ids(&report.activated), vec!["a"]);
    assert!(sup.tasks[0].actor.as_ref().unwrap().connected);
}

#[test]
fn old_tasks_are_forgotten_after_grace() {
    let opts = TaskOpts { task_grace_seconds: 10, max_packet_age_ms: 250, max_packet_audio_frames: 4 };
    let mut sup = TasksSupervisor::new(opts, "home".to_string(), vec![configured("old", "d", 0, 1_000), configured("new", "d", 0, 50_000)], vec![]);
    sup.become_online();
    let kept = sup.drop_old_tasks(11_000);
    assert!(kept.is_empty());
    let dropped = sup.drop_old_tasks(11_001);
    assert_eq!(ids(&dropped), vec!["old"]);
    assert_eq!(sup.tasks.len(), 1);
    assert_eq!(sup.tasks[0].id.task_id, "new");
    let report = sup.update(12_000);
    assert!(report.activated.is_empty());
}
