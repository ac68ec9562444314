use audiocloud::ids::AppTaskId;
use audiocloud::security::{check_security, DomainError, DomainSecurity, KeyPermissions, TaskPermissions, TaskSecurity};
use audiocloud::task_map::TaskMap;
use audiocloud::web_sockets::{get_next_socket_id, init, LoginError, WebSocketActor, WebSocketId};

fn task(app: &str, id: &str) -> AppTaskId {
    AppTaskId::new(app.to_string(), id.to_string())
}

fn audio_only() -> TaskPermissions {
    TaskPermissions { structure: false, media: false, parameters: false, transport: false, audio: true }
}

fn security_with(key: &str, permissions: TaskPermissions) -> TaskSecurity {
    TaskSecurity { security: vec![KeyPermissions { secure_key: key.to_string(), permissions }] }
}

#[test]
fn socket_ids_count_up_and_wrap() {
    let mut next: u64 = 7;
    assert_eq!(get_next_socket_id(&mut next), WebSocketId(7));
    assert_eq!(get_next_socket_id(&mut next), WebSocketId(8));
    let mut last = u64::MAX;
    assert_eq!(get_next_socket_id(&mut last), WebSocketId(u64::MAX));
    assert_eq!(last, 0);
}

#[test]
fn permissions_grant_subsets() {
    let full = TaskPermissions::full();
    let empty = TaskPermissions::empty();
    assert!(full.can(audio_only()));
    assert!(full.can(full));
    assert!(!empty.can(audio_only()));
    assert!(audio_only().can(empty));
    assert!(audio_only().can_audio());
    assert!(!empty.can_audio());
}

#[test]
fn security_lookup_by_key() {
    let sec = TaskSecurity {
        security: vec![
            KeyPermissions { secure_key: "a".to_string(), permissions: audio_only() },
            KeyPermissions { secure_key: "b".to_string(), permissions: TaskPermissions::full() },
        ],
    };
    assert_eq!(sec.get(&"b".to_string()), Some(TaskPermissions::full()));
    assert_eq!(sec.get(&"a".to_string()), Some(audio_only()));
    assert_eq!(sec.get(&"c".to_string()), None);
}

#[test]
fn check_security_outcomes() {
    let id = task("app", "t1");
    let sec = security_with("key", audio_only());
    assert!(check_security(&id, &sec, &DomainSecurity::Cloud, TaskPermissions::full()).is_ok());
    assert!(check_security(&id, &sec, &DomainSecurity::SecureKey("key".to_string()), audio_only()).is_ok());
    match check_security(&id, &sec, &DomainSecurity::SecureKey("other".to_string()), audio_only()) {
        Err(DomainError::AuthenticationFailed) => {},
        other => panic!("unexpected {:?}", other),
    }
    match check_security(&id, &sec, &DomainSecurity::SecureKey("key".to_string()), TaskPermissions::full()) {
        Err(DomainError::TaskAuthtorizationFailed { task_id, required }) => {
            assert_eq!(task_id.app_id, "app");
            assert_eq!(task_id.task_id, "t1");
            assert_eq!(required, TaskPermissions::full());
        },
        other => panic!("unexpected {:?}", other),
    }
}

#[test]
fn task_map_reads_back_writes() {
    let mut map: TaskMap<u32> = TaskMap::new();
    assert_eq!(map.get(&task("a", "1")), None);
    map.insert(task("a", "1"), 10);
    map.insert(task("a", "2"), 20);
    map.insert(task("a", "1"), 11);
    assert_eq!(map.get(&task("a", "1")), Some(&11));
    assert_eq!(map.get(&task("a", "2")), Some(&20));
    assert_eq!(map.remove(&task("a", "1")), Some(11));
    assert_eq!(map.get(&task("a", "1")), None);
    assert_eq!(map.remove(&task("a", "1")), None);
    assert_eq!(map.get(&task("a", "2")), Some(&20));
}

#[test]
fn login_needs_known_key() {
    let mut sup = init();
    sup.register(WebSocketId(1));
    assert_eq!(sup.login(WebSocketId(1), task("a", "t"), "k".to_string()), Err(LoginError::SecurityNotFound));
    let members = sup.notify_task_security(task("a", "t"), security_with("k", audio_only()));
    assert_eq!(members, vec![WebSocketId(1)]);
    assert_eq!(sup.login(WebSocketId(1), task("a", "t"), "k".to_string()), Ok(audio_only()));
    assert_eq!(sup.login(WebSocketId(1), task("a", "t"), "wrong".to_string()), Err(LoginError::SecurityNotFound));
}

#[test]
fn login_and_logout_membership() {
    let mut sup = init();
    sup.register(WebSocketId(1));
    sup.register(WebSocketId(2));
    sup.notify_task_security(task("a", "t"), security_with("k", audio_only()));
    let _ = sup.login(WebSocketId(1), task("a", "t"), "k".to_string());
    let _ = sup.login(WebSocketId(2), task("a", "t"), "k".to_string());
    let _ = sup.login(WebSocketId(1), task("a", "t"), "k".to_string());
    assert_eq!(sup.task_sockets(&task("a", "t")), vec![WebSocketId(1), WebSocketId(2)]);
    assert_eq!(sup.streaming_packet_recipients(&task("a", "t")), vec![WebSocketId(1), WebSocketId(2)]);
    assert_eq!(sup.streaming_packet_recipients(&task("a", "other")), vec![]);
    sup.logout(WebSocketId(1), &task("a", "t"));
    assert_eq!(sup.task_sockets(&task("a", "t")), vec![WebSocketId(2)]);
}

#[test]
fn disconnected_sockets_lose_their_logins() {
    let mut sup = init();
    sup.register(WebSocketId(1));
    sup.register(WebSocketId(2));
    let _ = sup.login(WebSocketId(1), task("a", "t"), "k".to_string());
    let _ = sup.login(WebSocketId(2), task("a", "t"), "k".to_string());
    sup.web_sockets[0].connected = false;
    sup.update();
    assert_eq!(sup.web_sockets.len(), 1);
    assert_eq!(sup.web_sockets[0].id, WebSocketId(2));
    assert_eq!(sup.membership.len(), 1);
    assert_eq!(sup.task_sockets(&task("a", "t")), vec![WebSocketId(2)]);
}

#[test]
fn deleted_task_unregisters_its_sockets() {
    let mut sup = init();
    sup.register(WebSocketId(1));
    sup.register(WebSocketId(2));
    let _ = sup.login(WebSocketId(1), task("a", "t"), "k".to_string());
    let _ = sup.login(WebSocketId(2), task("a", "u"), "k".to_string());
    sup.task_deleted(&task("a", "t"));
    assert_eq!(sup.web_sockets.len(), 1);
    assert_eq!(sup.web_sockets[0].id, WebSocketId(2));
    assert_eq!(sup.task_sockets(&task("a", "u")), vec![WebSocketId(2)]);
    assert_eq!(sup.task_sockets(&task("a", "t")), vec![]);
}

#[test]
fn actor_stops_without_security() {
    let actor = WebSocketActor { id: WebSocketId(3), security: TaskMap::new(), secure_key: TaskMap::new(), security_updated_at: 0 };
    assert!(!actor.should_stop(1000));
    assert!(actor.should_stop(10_000_000));
}

#[test]
fn logout_undoes_login() {
    let mut sup = init();
    sup.register(WebSocketId(5));
    let _ = sup.login(WebSocketId(5), task("a", "t"), "k".to_string());
    assert_eq!(sup.membership.len(), 1);
    sup.logout(WebSocketId(5), &task("a", "t"));
    assert!(sup.membership.is_empty());
    sup.logout(WebSocketId(5), &task("a", "t"));
    assert!(sup.membership.is_empty());
}

#[test]
fn actor_keeps_permissions_of_its_key() {
    let mut actor = WebSocketActor { id: WebSocketId(3), security: TaskMap::new(), secure_key: TaskMap::new(), security_updated_at: 0 };
    actor.secure_key.insert(task("a", "t"), "k".to_string());
    actor.on_task_security(task("a", "t"), &security_with("k", audio_only()));
    assert_eq!(actor.security.get(&task("a", "t")), Some(&audio_only()));
    actor.on_task_security(task("a", "t"), &security_with("other", audio_only()));
    assert_eq!(actor.security.get(&task("a", "t")), None);
    actor.on_task_security(task("a", "u"), &security_with("k", audio_only()));
    assert_eq!(actor.security.get(&task("a", "u")), None);
}
