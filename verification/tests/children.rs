use wingsvd::children::{
    app_process, is_allowed_binary, is_app_owned, is_native_library_path, launch_for, Children,
    ExecOutcome, PathFacts, SpawnFacts, SpawnStep,
};
use wingsvd::rootd::{ChildHandle, ChildKind, SpawnChildCommand};

fn resolves_to(path: &[u8]) -> PathFacts {
    PathFacts { is_file: true, exists: true, resolved: Some(path.to_vec()) }
}

fn good_facts() -> SpawnFacts {
    SpawnFacts {
        binary: resolves_to(b"/data/app/~~x==/wings.v-1==/lib/arm64/libvkturn.so"),
        classpath: resolves_to(b"/data/app/~~x==/wings.v/base.apk"),
        lib_dir: resolves_to(b"/data/app/~~x==/wings.v/lib/arm64"),
        has_app_process64: true,
    }
}

fn request_for(known_kind: ChildKind) -> SpawnChildCommand {
    SpawnChildCommand {
        kind: match known_kind {
            ChildKind::Unset => -5,
            ChildKind::Byedpi => 1,
            ChildKind::Xray => 2,
            ChildKind::Vkturn => 3,
        },
        known_kind,
        binary_path: "/data/app/lib".to_string(),
        args: vec!["--port".to_string(), "1 2".to_string()],
        working_dir: String::new(),
        classpath: "/data/app/base.apk".to_string(),
        lib_dir: "/data/app/libs".to_string(),
    }
}

#[test]
fn binaries_are_native_libraries() {
    let inside = resolves_to(b"/data/app/~~x==/wings.v-1==/lib/arm64/libx.so");
    assert!(is_allowed_binary("/a/b", &inside));
    assert!(!is_allowed_binary("a/b", &inside));
    assert!(!is_allowed_binary("", &inside));
    assert!(!is_allowed_binary("/a", &resolves_to(b"/data/local/wings.v/lib/x")));
    assert!(!is_allowed_binary("/a", &resolves_to(b"/data/app/wings.v-1==/base.apk")));
    assert!(!is_allowed_binary("/a", &resolves_to(b"x/data/app/wings.v/lib/x")));
    let no_file = PathFacts { is_file: false, exists: true, resolved: inside.resolved };
    assert!(!is_allowed_binary("/a", &no_file));
    let unresolved = PathFacts { is_file: true, exists: true, resolved: None };
    assert!(!is_allowed_binary("/a", &unresolved));
}

#[test]
fn installed_paths_are_app_owned() {
    assert!(is_app_owned("/a", &resolves_to(b"/data/app/x/base.apk")));
    assert!(is_app_owned("/a", &resolves_to(b"/data/app/\xff")));
    assert!(!is_app_owned("a", &resolves_to(b"/data/app/x/base.apk")));
    assert!(!is_app_owned("/a", &resolves_to(b"/data/appx")));
    let missing = PathFacts { is_file: false, exists: false, resolved: None };
    assert!(!is_app_owned("/a", &missing));
    let unresolved = PathFacts { is_file: false, exists: true, resolved: None };
    assert!(!is_app_owned("/a", &unresolved));
}

#[test]
fn binaries_of_other_packages_are_refused() {
    for path in [
        "/data/app/~~x==/com.other-1==/lib/arm64/libother.so",
        "/data/app/~~x==/wings.v2-1==/lib/arm64/libother.so",
        "/data/app/~~x==/xwings.v-1==/lib/arm64/libother.so",
        "/data/app/~~x==/com.other-1==/lib/wings.v/lib/libother.so",
    ] {
        assert!(!is_allowed_binary("/a", &resolves_to(path.as_bytes())));
    }
}

#[test]
fn library_directory_is_a_whole_component() {
    assert!(is_native_library_path("/data/app/wings.v/lib/x"));
    assert!(is_native_library_path("/data/app/wings.v-1/lib/x"));
    assert!(is_native_library_path("/data/app/wings.v-1/lib/arm64/lib/x"));
    assert!(!is_native_library_path("/data/app/wings.v/libs/x"));
    assert!(!is_native_library_path("/data/app/wings.v/lib"));
    assert!(!is_native_library_path("/data/app/wings.v/x/lib/x"));
    assert!(!is_native_library_path("/data/app/lib/x"));
}

#[test]
fn starter_depends_on_the_device() {
    assert_eq!(app_process(true), "/system/bin/app_process64");
    assert_eq!(app_process(false), "/system/bin/app_process");
}

#[test]
fn byedpi_is_a_class() {
    let launch = launch_for(&request_for(ChildKind::Byedpi), &good_facts()).unwrap();
    assert_eq!(launch.program, "/system/bin/app_process64");
    assert_eq!(
        launch.args,
        vec![
            "/system/bin",
            "wings.v.root.RootCommandMain",
            "byedpi",
            "--lib-dir",
            "/data/app/libs",
            "--",
            "--port",
            "1 2",
        ]
    );
    assert_eq!(launch.classpath, Some("/data/app/base.apk".to_string()));
    assert_eq!(launch.working_dir, None);
}

#[test]
fn xray_is_a_class_without_a_separator() {
    let mut facts = good_facts();
    facts.has_app_process64 = false;
    let mut request = request_for(ChildKind::Xray);
    request.working_dir = "/data/w".to_string();
    let launch = launch_for(&request, &facts).unwrap();
    assert_eq!(launch.program, "/system/bin/app_process");
    assert_eq!(launch.args[2], "xray-tproxy");
    assert_eq!(launch.args[5..].to_vec(), vec!["--port", "1 2"]);
    assert_eq!(launch.working_dir, Some("/data/w".to_string()));
}

#[test]
fn vkturn_is_an_executable() {
    let launch = launch_for(&request_for(ChildKind::Vkturn), &good_facts()).unwrap();
    assert_eq!(launch.program, "/data/app/lib");
    assert_eq!(launch.args, vec!["--port", "1 2"]);
    assert_eq!(launch.classpath, None);
}

#[test]
fn requests_are_refused_for_a_reason() {
    let mut facts = good_facts();
    facts.binary = resolves_to(b"/system/bin/sh");
    assert_eq!(
        launch_for(&request_for(ChildKind::Vkturn), &facts),
        Err("refusing to exec /data/app/lib: not an app native library".to_string())
    );
    let mut facts = good_facts();
    facts.classpath = resolves_to(b"/sdcard/x.apk");
    facts.lib_dir = resolves_to(b"/sdcard/");
    assert_eq!(
        launch_for(&request_for(ChildKind::Byedpi), &facts),
        Err("refusing classpath /data/app/base.apk: not an installed apk".to_string())
    );
    let mut facts = good_facts();
    facts.lib_dir = resolves_to(b"/sdcard/");
    assert_eq!(
        launch_for(&request_for(ChildKind::Xray), &facts),
        Err("refusing lib dir /data/app/libs: not an app library dir".to_string())
    );
    assert_eq!(
        launch_for(&request_for(ChildKind::Unset), &good_facts()),
        Err("child kind not set".to_string())
    );
}

fn start(children: &mut Children, kind: ChildKind, pid: u32) -> ChildHandle {
    let outcome = ExecOutcome::Started(pid);
    match children.spawn(&request_for(kind), &good_facts(), &outcome) {
        SpawnStep::Running(handle) => handle,
        _ => panic!("the child does not run"),
    }
}

#[test]
fn child_is_started_in_two_steps() {
    let mut children = Children::new();
    let request = request_for(ChildKind::Vkturn);
    match children.spawn(&request, &good_facts(), &ExecOutcome::NotYet) {
        SpawnStep::Exec(launch) => assert_eq!(launch.program, "/data/app/lib"),
        _ => panic!("nothing to start"),
    }
    assert!(children.ids().is_empty());
    assert_eq!(
        start(&mut children, ChildKind::Vkturn, 4321),
        ChildHandle { kind: 3, child_id: 1, pid: 4321, running: true }
    );
    assert_eq!(children.ids(), vec![1]);
}

#[test]
fn child_that_does_not_start_is_no_child() {
    let mut children = Children::new();
    let mut request = request_for(ChildKind::Xray);
    request.kind = -2147483648;
    let failed = ExecOutcome::Failed("No such file".to_string());
    assert_eq!(
        children.spawn(&request, &good_facts(), &failed),
        SpawnStep::Refused("spawn kind -2147483648: No such file".to_string())
    );
    assert!(children.ids().is_empty());
}

#[test]
fn numbers_are_not_given_out_again() {
    let mut children = Children::new();
    assert!(children.has_number_left());
    assert_eq!(start(&mut children, ChildKind::Vkturn, 10).child_id, 1);
    assert_eq!(start(&mut children, ChildKind::Xray, 11).child_id, 2);
    assert!(children.kill(2));
    assert!(!children.kill(2));
    assert!(!children.kill(9));
    assert_eq!(children.ids(), vec![1]);
    assert_eq!(start(&mut children, ChildKind::Xray, 12).child_id, 3);
}

#[test]
fn large_process_numbers_wrap() {
    let mut children = Children::new();
    assert_eq!(start(&mut children, ChildKind::Vkturn, u32::MAX).pid, -1);
    assert_eq!(start(&mut children, ChildKind::Vkturn, 0x8000_0000).pid, i32::MIN);
}

#[test]
fn all_children_are_killed() {
    let mut children = Children::new();
    start(&mut children, ChildKind::Vkturn, 10);
    start(&mut children, ChildKind::Xray, 11);
    let mut ids = children.kill_all();
    ids.sort();
    assert_eq!(ids, vec![1, 2]);
    assert!(children.kill_all().is_empty());
}

#[test]
fn snapshot_forgets_who_exited() {
    let mut children = Children::new();
    start(&mut children, ChildKind::Vkturn, 10);
    start(&mut children, ChildKind::Xray, 11);
    let mut handles = children.snapshot(&[2, 7]);
    handles.sort_by_key(|handle| handle.child_id);
    assert_eq!(
        handles,
        vec![
            ChildHandle { kind: 3, child_id: 1, pid: 10, running: false },
            ChildHandle { kind: 2, child_id: 2, pid: 11, running: true },
        ]
    );
    assert_eq!(children.ids(), vec![2]);
    assert_eq!(
        children.snapshot(&[2]),
        vec![ChildHandle { kind: 2, child_id: 2, pid: 11, running: true }]
    );
}
