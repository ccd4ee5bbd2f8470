use vessel::cgroup::CgroupManager;
use vessel::cgroup::Dir;
use vessel::cgroup::LocateError;

fn d(name: &str, children: Vec<Dir>) -> Dir {
    Dir { name: name.as_bytes().to_vec(), children }
}

fn components(path: &[Vec<u8>]) -> Vec<String> {
    path.iter().map(|c| String::from_utf8(c.clone()).unwrap()).collect()
}

const FULL_ID: &str = "4a5b6c7d8e9f0a1b2c3d4e5f6a7b8c9d0e1f2a3b4c5d6e7f8a9b0c1d2e3f4a5b";

#[test]
fn direct_full_id_scope_name() {
    let scope = format!("docker-{}.scope", FULL_ID);
    // a decoy that would also match the substring search sits deeper down
    let decoy = d("nested", vec![d(&format!("x{}y", FULL_ID), vec![])]);
    let sys = d("system.slice", vec![decoy, d(&scope, vec![])]);
    let manager = CgroupManager::new();
    let r = manager
        .find_container_cgroup(FULL_ID.as_bytes(), Some(&sys), None)
        .unwrap();
    assert_eq!(
        components(&r),
        vec!["/sys/fs/cgroup".to_string(), "system.slice".to_string(), scope]
    );
}

#[test]
fn short_id_scope_name() {
    let short = &FULL_ID[..12];
    let scope = format!("docker-{}.scope", short);
    let sys = d("system.slice", vec![d(&scope, vec![])]);
    let manager = CgroupManager::new();
    let r = manager
        .find_container_cgroup(FULL_ID.as_bytes(), Some(&sys), None)
        .unwrap();
    assert_eq!(
        components(&r),
        vec!["/sys/fs/cgroup".to_string(), "system.slice".to_string(), scope]
    );
}

#[test]
fn short_id_found_by_recursive_search() {
    let short = &FULL_ID[..12];
    let inner = format!("libpod-{}.extra", short);
    let sys = d(
        "system.slice",
        vec![d("other.scope", vec![]), d("group", vec![d(&inner, vec![])])],
    );
    let manager = CgroupManager::new();
    let r = manager
        .find_container_cgroup(FULL_ID.as_bytes(), Some(&sys), None)
        .unwrap();
    assert_eq!(
        components(&r),
        vec![
            "/sys/fs/cgroup".to_string(),
            "system.slice".to_string(),
            "group".to_string(),
            inner
        ]
    );
}

#[test]
fn user_slice_searched_after_system_slice() {
    let scope = format!("docker-{}.scope", FULL_ID);
    let sys = d("system.slice", vec![d("unrelated.service", vec![])]);
    let user = d("user.slice", vec![d("user-1000.slice", vec![d(&scope, vec![])])]);
    let manager = CgroupManager::new();
    let r = manager
        .find_container_cgroup(FULL_ID.as_bytes(), Some(&sys), Some(&user))
        .unwrap();
    assert_eq!(
        components(&r),
        vec![
            "/sys/fs/cgroup".to_string(),
            "user.slice".to_string(),
            "user-1000.slice".to_string(),
            scope
        ]
    );
}

#[test]
fn unknown_id_is_not_found() {
    let sys = d("system.slice", vec![d("a.service", vec![d("b", vec![])])]);
    let user = d("user.slice", vec![]);
    let manager = CgroupManager::new();
    let r = manager.find_container_cgroup(b"deadbeefdeadbeef", Some(&sys), Some(&user));
    match r {
        Err(LocateError::NotFound(echoed)) => assert_eq!(echoed, b"deadbeefdeadbeef".to_vec()),
        Ok(_) => panic!("expected NotFound"),
    }
}

#[test]
fn missing_subtrees_are_not_found() {
    let manager = CgroupManager::new();
    let r = manager.find_container_cgroup(FULL_ID.as_bytes(), None, None);
    match r {
        Err(LocateError::NotFound(echoed)) => assert_eq!(echoed, FULL_ID.as_bytes().to_vec()),
        Ok(_) => panic!("expected NotFound"),
    }
}

#[test]
fn identifier_shorter_than_twelve_bytes_is_clamped() {
    let scope = "docker-ab12.scope";
    let sys = d("system.slice", vec![d(scope, vec![])]);
    let manager = CgroupManager::new();
    let r = manager.find_container_cgroup(b"ab12", Some(&sys), None).unwrap();
    assert_eq!(
        components(&r),
        vec![
            "/sys/fs/cgroup".to_string(),
            "system.slice".to_string(),
            scope.to_string()
        ]
    );
}
