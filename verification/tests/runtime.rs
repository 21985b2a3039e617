use myco::loader::{source_line, MycoModuleLoader};
use myco::attrs::{AttrToken, Attributes};
use myco::capabilities::{fetch_target, join_within, resolve_target, Access, Capability, CapabilityRegistry, Target};
use myco::deps::location::Location;
use myco::errors::MycoError;
use myco::event_loop::{sleep_ms, LoopState, OpTable, TimerQueue};
use myco::integrity::{calculate_integrity, integrity_matches};
use myco::logger::{enabled, level_from_str, log_line, selected_level, to_stderr, LogLevel, Severity};
use myco::modules::{import_path, index_candidates, module_url, resolve_specifier, source_map_data_url, FileType};
use myco::myco_local::MycoLocalToml;
use myco::myco_toml::{DependencyVersion, MycoToml, PackageDefinition};
use myco::name_table::NameTable;
use myco::pack::bump_version;
use myco::package_name::PackageName;
use myco::package_version::PackageVersion;
use myco::path::strip_unc_prefix;
use myco::runner::{debug_options, script_target, DebugOptions};
use myco::stack_trace::{format_frames, format_stack_trace_with_source_maps, lines, parse_location, StackFrame};
use myco::text_map::TextMap;
use myco::workspace::{
    aggregate_external_deps, calculate_relative_path, external_deps, local_package_name, member_local_manifest,
    member_name, plan_script, Workspace, WorkspaceMember,
};
use myco::myco_toml::{WorkspaceDefinition, WorkspaceManifest};

type Registry = CapabilityRegistry<(), ()>;

#[test]
fn tokens_are_honoured_until_revoked() {
    let mut reg: Registry = CapabilityRegistry::new();
    let t = reg.register(Capability::ReadFile("/tmp/a".to_string()));
    assert_eq!(t.len(), 30);
    assert!(t.chars().all(|c| c.is_ascii_alphanumeric()));
    assert!(matches!(reg.get(&t), Some(Capability::ReadFile(p)) if p == "/tmp/a"));
    let u = reg.register(Capability::FetchUrl("https://x".to_string()));
    assert!(matches!(reg.unregister(t.clone()), Some(Capability::ReadFile(_))));
    assert!(reg.get(&t).is_none());
    assert!(reg.unregister(t).is_none());
    assert!(reg.get(&u).is_some());
}

#[test]
fn filesystem_targets_follow_token_kind() {
    let mut reg: Registry = CapabilityRegistry::new();
    let file = reg.register(Capability::ReadFile("/data/f.txt".to_string()));
    let dir = reg.register(Capability::WriteDir("/data".to_string()));
    assert!(matches!(resolve_target(&reg, &file, None, Access::Read), Ok(Target::File(f)) if f == "/data/f.txt"));
    assert!(matches!(resolve_target(&reg, &dir, Some("x/y".to_string()), Access::Write),
        Ok(Target::InDir { dir, path }) if dir == "/data" && path == "x/y"));
    match resolve_target(&reg, &file, Some("x".to_string()), Access::Read) {
        Err(MycoError::Internal { message }) => assert_eq!(message, "Invalid token for read access"),
        _ => panic!(),
    }
    match resolve_target(&reg, &dir, None, Access::Exec) {
        Err(MycoError::Internal { message }) => assert_eq!(message, "Invalid token for exec access"),
        _ => panic!(),
    }
    match resolve_target(&reg, "nope", None, Access::Write) {
        Err(MycoError::Internal { message }) => assert_eq!(message, "Invalid token for write access"),
        _ => panic!(),
    }
}

#[test]
fn paths_join_under_the_granted_directory() {
    assert_eq!(join_within("/data", "/"), "/data");
    assert_eq!(join_within("/data", "///a/b"), "/data/a/b");
    assert_eq!(join_within("/data/", "a"), "/data/a");
    assert_eq!(join_within("/data", ""), "/data/");
    assert!(join_within("/data", "/../../etc").starts_with("/data"));
}

#[test]
fn fetch_targets_and_each_refusal() {
    let mut reg: Registry = CapabilityRegistry::new();
    let url = reg.register(Capability::FetchUrl("https://api.example.com/v1/status".to_string()));
    let prefix = reg.register(Capability::FetchPrefix("https://api.example.com/v1/".to_string()));
    let file = reg.register(Capability::ReadFile("/x".to_string()));
    assert_eq!(fetch_target(&reg, &url, None).unwrap(), "https://api.example.com/v1/status");
    assert!(matches!(fetch_target(&reg, &url, Some("a".into())), Err(MycoError::PathNotAllowedForSpecificUrlTokens)));
    assert_eq!(fetch_target(&reg, &prefix, Some("users/1".into())).unwrap(), "https://api.example.com/v1/users/1");
    assert!(matches!(fetch_target(&reg, &prefix, Some("../admin".into())), Err(MycoError::PathTraversal)));
    assert!(matches!(fetch_target(&reg, &prefix, Some("http://evil".into())), Err(MycoError::FullUrlInPath)));
    assert!(matches!(fetch_target(&reg, &prefix, None), Err(MycoError::PathRequiredForPrefix)));
    assert!(matches!(fetch_target(&reg, &file, None), Err(MycoError::InvalidTokenForUrlAccess)));
}

#[test]
fn file_types_by_extension() {
    assert_eq!(FileType::from_path("/a/b.ts"), FileType::TypeScript);
    assert_eq!(FileType::from_path("/a/b.TSX"), FileType::TypeScript);
    assert_eq!(FileType::from_path("x.mjs"), FileType::JavaScript);
    assert_eq!(FileType::from_path("x.Json"), FileType::Json);
    assert_eq!(FileType::from_path("x.txt"), FileType::Unknown);
    assert_eq!(FileType::from_path("Makefile"), FileType::Unknown);
    assert!(FileType::TypeScript.should_transpile());
    assert!(!FileType::JavaScript.should_transpile());
}

#[test]
fn local_aliases_pick_exact_then_longest_prefix() {
    let mut local = MycoLocalToml::default();
    local.add_resolve("@local/lib".to_string(), "../lib".to_string());
    local.add_resolve("@local/lib/sub".to_string(), "../sub".to_string());
    local.add_resolve("@local/l".to_string(), "../l".to_string());
    assert_eq!(resolve_specifier(Some(&local), "@local/lib"), "../lib");
    assert_eq!(resolve_specifier(Some(&local), "@local/lib/x.ts"), "../lib/x.ts");
    assert_eq!(resolve_specifier(Some(&local), "@local/lib/sub/y.ts"), "../sub/y.ts");
    assert_eq!(resolve_specifier(Some(&local), "@local/library"), "@local/library");
    assert_eq!(resolve_specifier(None, "./a.ts"), "./a.ts");
}

#[test]
fn import_paths_and_urls() {
    assert_eq!(import_path("file:///abs/x.ts", "/base"), "/abs/x.ts");
    assert_eq!(import_path("/abs/x.ts", "/base"), "/abs/x.ts");
    assert_eq!(import_path("./x.ts", "/base"), "/base/x.ts");
    assert_eq!(import_path("../x.ts", "/base"), "/base/../x.ts");
    assert_eq!(module_url("/base/x.ts"), "file:///base/x.ts");
    assert_eq!(index_candidates("/d"), vec!["/d/index.ts", "/d/index.tsx", "/d/index.js", "/d/index.jsx"]);
    assert_eq!(source_map_data_url("{}"), "data:application/json;charset=utf-8;base64,e30=");
}

#[test]
fn stack_lines_and_locations() {
    let ls: Vec<String> = lines(&"a\r\nb\n\nc\n".chars().collect::<Vec<_>>())
        .into_iter()
        .map(|l| l.into_iter().collect())
        .collect();
    assert_eq!(ls, vec!["a", "b", "", "c"]);
    let (f, l, c) = parse_location(&"file:///x/y.js:12:5".chars().collect::<Vec<_>>()).unwrap();
    assert_eq!((f.into_iter().collect::<String>(), l, c), ("file:///x/y.js".to_string(), 12, 5));
    assert!(parse_location(&"y.js:12".chars().collect::<Vec<_>>()).is_none());
    assert!(parse_location(&"y.js:a:5".chars().collect::<Vec<_>>()).is_none());
}

#[test]
fn stack_traces_without_maps_are_kept() {
    let maps: TextMap<String> = TextMap::new();
    let stack = "Error: boom\n    at f (file:///a.js:1:2)\n    at file:///a.js:3:4";
    assert_eq!(format_stack_trace_with_source_maps(&maps, stack), stack);
    let frames = vec![
        StackFrame { function_name: Some("f".into()), script_name: Some("file:///a.js".into()), line: 1, column: 2 },
        StackFrame { function_name: None, script_name: None, line: 3, column: 4 },
    ];
    assert_eq!(format_frames(&maps, &frames), "    at f (file:///a.js:1:2)\n    at <anonymous> (<unknown>:3:4)");
}

#[test]
fn stack_traces_follow_source_maps() {
    let mut maps: TextMap<String> = TextMap::new();
    // One mapping: generated line 0, column 0 -> source "orig.ts", line 0, column 0.
    let map = r#"{"version":3,"sources":["orig.ts"],"names":[],"mappings":"AAAA"}"#;
    maps.insert("file:///gen.js".to_string(), map.to_string());
    let stack = "Error: boom\n    at f (file:///gen.js:1:1)";
    assert_eq!(format_stack_trace_with_source_maps(&maps, stack), "Error: boom\n    at f (orig.ts:1:1)");
}

#[test]
fn timers_ids_clear_and_ready() {
    let mut q: TimerQueue<&str> = TimerQueue::new();
    let a = q.add("a", 100);
    let b = q.add("b", 50);
    let c = q.add("c", 300);
    assert_eq!((a, b, c), (1, 2, 3));
    q.clear(b);
    assert_eq!(q.timers.len(), 2);
    assert_eq!(q.next_delay(60), Some(40));
    let ready = q.take_ready(100);
    assert_eq!(ready.len(), 1);
    assert_eq!(ready[0].callback, "a");
    assert_eq!(q.timers.len(), 1);
    assert_eq!(sleep_ms(q.next_delay(100)), 10);
    assert_eq!(sleep_ms(Some(3)), 3);
    assert_eq!(sleep_ms(None), 1);
}

#[test]
fn idle_loop_stops_after_warmup() {
    let mut s = LoopState::new();
    let mut stopped_at = None;
    for round in 1..=100u64 {
        if s.finish_round(false, false, false) {
            stopped_at = Some(round);
            break;
        }
    }
    assert_eq!(stopped_at, Some(59));
    let mut s = LoopState::new();
    for _ in 0..100 {
        assert!(!s.finish_round(false, true, false));
    }
}

#[test]
fn op_ids_and_pending() {
    let mut ops: OpTable<&str> = OpTable::new();
    let id = ops.get_next_op_id();
    assert_eq!(id, 1);
    assert_eq!(ops.get_next_op_id(), 2);
    ops.register_pending_op(id, "resolver");
    assert!(ops.has_pending());
    assert_eq!(ops.complete_pending_op(id), Some("resolver"));
    assert_eq!(ops.complete_pending_op(id), None);
    assert!(!ops.has_pending());
}

#[test]
fn log_levels_and_lines() {
    assert_eq!(level_from_str("WARN"), Some(LogLevel::Warn));
    assert_eq!(level_from_str("loud"), None);
    assert_eq!(selected_level(Some("bogus")), LogLevel::Info);
    assert_eq!(selected_level(None), LogLevel::Error);
    assert!(enabled(LogLevel::Info, Severity::Warn, "myco::deps"));
    assert!(!enabled(LogLevel::Info, Severity::Debug, "myco::deps"));
    assert!(!enabled(LogLevel::Trace, Severity::Error, "tokio"));
    assert_eq!(log_line(Severity::Info, "myco", "hi"), "[INFO] myco: hi");
    assert!(to_stderr(Severity::Warn) && !to_stderr(Severity::Info));
}

#[test]
fn op_attributes() {
    let toks = vec![AttrToken::Ident("v8".into()), AttrToken::Comma, AttrToken::Ident("wasm".into())];
    assert_eq!(Attributes::parse(&toks).unwrap(), Attributes { is_v8: true, deferred: false, is_wasm: true });
    let toks = vec![AttrToken::Ident("deferred".into()), AttrToken::Other, AttrToken::Ident("bad".into())];
    assert_eq!(Attributes::parse(&toks).unwrap(), Attributes { is_v8: false, deferred: true, is_wasm: false });
    let toks = vec![AttrToken::Ident("bad".into())];
    assert_eq!(Attributes::parse(&toks).unwrap_err(), "invalid attribute, expected one of: v8, deferred, wasm");
}

#[test]
fn unc_prefix_is_kept_off_windows() {
    assert_eq!(strip_unc_prefix("/a/b".to_string(), false), "/a/b");
}

#[test]
fn integrity_of_empty_input() {
    assert_eq!(
        calculate_integrity(b""),
        "sha512-z4PhNX7vuL3xVChQ1m2AB9Yg5AULVxXcg/SpIdNs6c5H0NE8XYXysP+DGNKHfuwvY7kxvUdBeoGlODJ6+SfaPg=="
    );
    assert!(integrity_matches(b"", &calculate_integrity(b"")));
    assert!(!integrity_matches(b"x", &calculate_integrity(b"")));
}

fn manifest(name: Option<&str>, deps: Vec<(&str, DependencyVersion)>, scripts: Vec<(&str, &str)>) -> MycoToml {
    let mut table = NameTable::new();
    for (n, v) in deps {
        table.insert(PackageName::from_str(n).unwrap(), v);
    }
    let mut run = TextMap::new();
    for (k, v) in scripts {
        run.insert(k.to_string(), v.to_string());
    }
    MycoToml {
        package: name.map(|n| PackageDefinition {
            name: n.to_string(),
            version: PackageVersion::from_str("1.2.3").unwrap(),
            description: None,
            author: None,
            license: None,
            pre_pack: None,
            packaged_files: None,
        }),
        run: Some(run),
        registries: None,
        deps: Some(table),
        tsconfig: None,
    }
}

fn v(s: &str) -> DependencyVersion {
    DependencyVersion::Version(PackageVersion::from_str(s).unwrap())
}

fn workspace() -> Workspace {
    Workspace {
        root: "/ws".to_string(),
        manifest: WorkspaceManifest {
            workspace: WorkspaceDefinition { members: vec!["app".to_string(), "lib-std".to_string()] },
            run: None,
            registries: None,
            deps: None,
            tsconfig: None,
        },
        members: vec![
            WorkspaceMember {
                name: "app".to_string(),
                path: "/ws/app".to_string(),
                manifest: manifest(
                    Some("app"),
                    vec![("@local/lib-std", DependencyVersion::Workspace { workspace: true }), ("@ext/a", v("1.0.0"))],
                    vec![("build", "build.ts")],
                ),
            },
            WorkspaceMember {
                name: "lib-std".to_string(),
                path: "/ws/lib-std".to_string(),
                manifest: manifest(Some("lib-std"), vec![("@ext/a", v("2.0.0")), ("@ext/b", v("0.1.0"))], vec![]),
            },
        ],
    }
}

#[test]
fn workspace_lookup_and_names() {
    let ws = workspace();
    assert_eq!(ws.member_names(), vec!["app", "lib-std"]);
    assert!(ws.get_member("lib-std").is_some());
    assert!(ws.get_member("nope").is_none());
    assert_eq!(ws.find_member_by_name("app").unwrap().path, "/ws/app");
    assert_eq!(local_package_name("@local/lib-std"), "lib-std");
    assert_eq!(local_package_name("@ext/a"), "@ext/a");
    assert_eq!(member_name("dir", &manifest(None, vec![], vec![])), "dir");
}

#[test]
fn workspace_dependencies_map_to_relative_paths() {
    let ws = workspace();
    let local = member_local_manifest(&ws, &ws.members[0]).unwrap().unwrap();
    assert_eq!(local.get_resolve_path("@local/lib-std").unwrap(), "../lib-std");
    assert!(member_local_manifest(&ws, &ws.members[1]).unwrap().is_none());
    let mut broken = workspace();
    broken.members[1].manifest.package.as_mut().unwrap().name = "other".to_string();
    match member_local_manifest(&broken, &broken.members[0]) {
        Err(MycoError::DependencyResolution { message }) => assert_eq!(
            message,
            "Workspace dependency '@local/lib-std' (resolved to 'lib-std') not found in workspace members"
        ),
        _ => panic!(),
    }
    assert_eq!(calculate_relative_path("/ws/app", "/ws/lib-std").unwrap(), "../lib-std");
}

#[test]
fn central_dependencies_later_member_wins() {
    let ws = workspace();
    let agg = aggregate_external_deps(&ws.members);
    assert_eq!(agg.len(), 2);
    let a = agg.get(&PackageName::from_str("@ext/a").unwrap()).unwrap();
    assert_eq!(a.to_string(), "2.0.0");
    let filtered = external_deps(&ws.members[0].manifest.deps).unwrap();
    assert_eq!(filtered.len(), 1);
    let only_ws = manifest(None, vec![("@local/x", DependencyVersion::Workspace { workspace: true })], vec![]);
    assert!(external_deps(&only_ws.deps).is_none());
}

#[test]
fn script_plans() {
    let ws = workspace();
    let plan = plan_script(&ws, "build", &vec![]).unwrap();
    assert_eq!(plan.members, vec![0]);
    let plan = plan_script(&ws, "build", &vec!["lib-std".to_string(), "app".to_string()]).unwrap();
    assert_eq!(plan.members, vec![0]);
    assert_eq!(plan.missing_script, vec!["lib-std".to_string()]);
    let plan = plan_script(&ws, "build", &vec!["app".to_string(), "lib-std".to_string(), "app".to_string()]).unwrap();
    assert_eq!(plan.members, vec![0, 0]);
    assert_eq!(plan.missing_script, vec!["lib-std".to_string()]);
    match plan_script(&ws, "build", &vec!["ghost".to_string()]) {
        Err(MycoError::Internal { message }) => assert_eq!(message, "Package 'ghost' not found in workspace"),
        _ => panic!(),
    }
}

#[test]
fn run_targets_and_debug_options() {
    let m = manifest(Some("p"), vec![], vec![("default", "src/main.ts")]);
    assert_eq!(script_target(&m, "default"), "src/main.ts");
    assert_eq!(script_target(&m, "other.ts"), "other.ts");
    assert_eq!(debug_options(false, false, false, 9229), None);
    assert_eq!(
        debug_options(false, true, false, 9000),
        Some(DebugOptions { port: 9000, break_on_start: true, wait_for_connection: true })
    );
    assert_eq!(
        debug_options(true, false, false, 9229),
        Some(DebugOptions { port: 9229, break_on_start: false, wait_for_connection: false })
    );
}

#[test]
fn version_bumps() {
    let mut m = manifest(Some("p"), vec![], vec![]);
    let (name, v) = bump_version(&mut m, false, true, true);
    assert_eq!((name.as_str(), v.to_string().as_str()), ("p", "1.3.0"));
    assert_eq!(m.package.as_ref().unwrap().version.to_string(), "1.3.0");
    let (_, v) = bump_version(&mut m, true, false, false);
    assert_eq!(v.to_string(), "2.0.0");
    let mut none = MycoToml { package: None, run: None, registries: None, deps: None, tsconfig: None };
    let (name, v) = bump_version(&mut none, false, false, true);
    assert_eq!((name.as_str(), v.to_string().as_str()), ("<unnamed project>", "0.0.1"));
    let (_, v) = bump_version(&mut m, false, false, false);
    assert_eq!(v.to_string(), "2.0.0");
}

#[test]
fn dependency_text_and_registries() {
    assert_eq!(v("1.0.0").to_string(), "1.0.0");
    assert_eq!(DependencyVersion::Workspace { workspace: true }.to_string(), "workspace");
    let mut regs = TextMap::new();
    regs.insert("b".to_string(), Location::Url("https://b".to_string()));
    regs.insert("a".to_string(), Location::Path { path: "/a".to_string() });
    let mut m = manifest(None, vec![("@x/y", v("1.0.0")), ("@local/z", DependencyVersion::Workspace { workspace: true })], vec![]);
    m.registries = Some(regs);
    let locs: Vec<String> = m.registry_locations().iter().map(|l| l.to_string()).collect();
    assert_eq!(locs, vec!["/a", "https://b"]);
    let deps = m.clone_deps();
    assert_eq!(deps.len(), 1);
    assert_eq!(deps[0].0.to_string(), "@x/y");
}

#[test]
fn source_lines_for_stack_frames() {
    assert_eq!(MycoModuleLoader::source_file("myco:runtime"), None);
    assert_eq!(MycoModuleLoader::source_file("file:///app/main.ts").as_deref(), Some("/app/main.ts"));
    let source = "first\r\nsecond\nthird";
    assert_eq!(source_line(source, 0).as_deref(), Some("first"));
    assert_eq!(source_line(source, 2).as_deref(), Some("third"));
    assert_eq!(source_line(source, 3), None);
    assert_eq!(source_line("a\n", 1), None);
}
