use predicate_authorityd::actions::{
    check_write_target, cli_evidence_hash, content_hash, delete_evidence_hash, env_read_evidence_hash,
    fs_list_result, http_method, plan_execution, sort_texts, ExecutionStep, HttpMethod,
};
use predicate_authorityd::models::{DirectoryEntry, ExecutePayload, ExecuteRequest, ExecuteResult};

fn request(action: &str, payload: Option<ExecutePayload>) -> ExecuteRequest {
    ExecuteRequest {
        mandate_id: "m_1".to_string(),
        action: action.to_string(),
        resource: "/tmp/x".to_string(),
        payload,
    }
}

#[test]
fn plans_follow_the_action() {
    assert!(matches!(plan_execution(&request("fs.read", None)), Ok(ExecutionStep::FsRead { path }) if path == "/tmp/x"));
    assert_eq!(plan_execution(&request("fs.write", None)).unwrap_err(), "fs.write requires payload");
    assert_eq!(
        plan_execution(&request("fs.write", Some(ExecutePayload::FileDelete { recursive: true }))).unwrap_err(),
        "Invalid payload for fs.write"
    );
    assert!(matches!(
        plan_execution(&request("fs.delete", None)),
        Ok(ExecutionStep::FsDelete { recursive: false, .. })
    ));
    assert!(matches!(
        plan_execution(&request("fs.write", Some(ExecutePayload::FileWrite { content: "c".to_string(), create: true, append: false }))),
        Ok(ExecutionStep::FsWrite { create: true, append: false, .. })
    ));
    assert_eq!(plan_execution(&request("cli.exec", None)).unwrap_err(), "cli.exec requires payload");
    assert_eq!(plan_execution(&request("env.read", None)).unwrap_err(), "env.read requires payload");
    assert_eq!(plan_execution(&request("db.drop", None)).unwrap_err(), "Unsupported action: db.drop");
    let keys = ExecutePayload::EnvRead { keys: vec!["HOME".to_string()] };
    assert!(matches!(plan_execution(&request("env.read", Some(keys))), Ok(ExecutionStep::EnvRead { keys }) if keys == vec!["HOME".to_string()]));
}

#[test]
fn http_methods() {
    assert_eq!(http_method(&None), Ok(HttpMethod::Get));
    let p = |m: &str| Some(ExecutePayload::HttpFetch { method: m.to_string(), headers: None, body: None });
    assert_eq!(http_method(&p("post")), Ok(HttpMethod::Post));
    assert_eq!(http_method(&p("Patch")), Ok(HttpMethod::Patch));
    assert_eq!(http_method(&p("fetch")), Err("Unsupported HTTP method: fetch".to_string()));
}

#[test]
fn evidence_hashes() {
    assert_eq!(content_hash("hello"), "sha256:2cf24dba5fb0a30e26e83b2ac5b9e29e1b161e5c1fa7425e73043362938b9824");
    assert_eq!(cli_evidence_hash("echo", 0, "hi\n", ""), "sha256:4440b891d9fb1591002d54bdd19cdb4d72555629235f2295d774af9d165ca3e5");
    assert_eq!(delete_evidence_hash("/tmp/x", 3), "sha256:26c2cae64bd542ff535b6b351f461e1f9cd1476648be5e678fd34af95c1f6361");
    assert_eq!(env_read_evidence_hash(&vec!["PATH".to_string(), "HOME".to_string()]), "sha256:7097ea4a4a75596ca0f077c0b486bdc7d221102b3f19e5898329205ceecec7a7");
    assert_eq!(check_write_target(false, false).unwrap_err(), "File does not exist and create=false");
    assert!(check_write_target(true, false).is_ok());
    assert!(check_write_target(false, true).is_ok());
}

#[test]
fn listings_are_sorted_by_name() {
    let e = |n: &str, t: &str, s: u64| DirectoryEntry { name: n.to_string(), entry_type: t.to_string(), size: s, modified: None };
    let (result, hash) = fs_list_result(vec![e("b", "dir", 0), e("a.txt", "file", 5)]);
    match result {
        ExecuteResult::FileList { entries, total_entries } => {
            assert_eq!(total_entries, 2);
            assert_eq!(entries[0].name, "a.txt");
            assert_eq!(entries[1].name, "b");
        }
        other => panic!("unexpected: {:?}", other),
    }
    assert_eq!(hash, "sha256:778c9a3de35a1bbcd2b4377d77e33f07a9a6e177c1ec986a3f408d383ea289d7");
    let s = |v: &[&str]| v.iter().map(|x| x.to_string()).collect::<Vec<String>>();
    assert_eq!(sort_texts(&s(&["b", "B", "a", "b"])), s(&["B", "a", "b", "b"]));
}

#[test]
fn env_evidence_ignores_key_order() {
    let a = env_read_evidence_hash(&vec!["PATH".to_string(), "HOME".to_string(), "USER".to_string()]);
    let b = env_read_evidence_hash(&vec!["USER".to_string(), "PATH".to_string(), "HOME".to_string()]);
    assert_eq!(a, b);
}
