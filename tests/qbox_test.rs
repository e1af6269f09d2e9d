use qbox::config::{Config, Mapping};
use qbox::error::QboxError;
use qbox::init::init;
use qbox::plan::Action;
use qbox::qbox::{check_keywords, delete, get_boxes_path, make, make_qbox_path, Qbox};

const DATA_DIR: &str = "/tmp/data/qbox";
const HOME: &str = "/home/user";

fn home() -> Option<String> {
    Some(HOME.to_string())
}

fn make_config() -> Config {
    Config {
        make_dir: true,
        files: vec![Mapping {
            source: "/$HOME/rust_projects/vanilla/qbox/tests/source".to_string(),
            target: "/$HOME/rust_projects/vanilla/qbox/tests/target".to_string(),
        }],
        excludes: vec!["/$HOME/rust_projects/vanilla/qbox/tests/source/ex".to_string()],
    }
}

fn open_qbox() -> Qbox {
    let qbox = Qbox::new("Q", DATA_DIR, true, true);
    assert!(qbox.is_ok(), "expected Ok, but got {:?}", qbox);
    let mut u_qbox = qbox.unwrap();
    let config = make_config();
    let present = config.required_paths(&home());
    let opened_qbox = u_qbox.open(Some(config), &home(), &present);
    assert!(opened_qbox.is_ok(), "expected Ok, but got {:?}", opened_qbox);
    u_qbox
}

fn copy(from: &str, to: &str, replace_parent: bool) -> Action {
    Action::Copy { from: from.to_string(), to: to.to_string(), replace_parent }
}

#[test]
fn init_test() {
    let result = init(DATA_DIR, false);
    assert_eq!(result, Some(Action::MakeDir("/tmp/data/qbox/boxes".to_string())));
    assert_eq!(init(DATA_DIR, true), None);
}

#[test]
fn get_boxes_path_test() {
    let path = get_boxes_path(DATA_DIR);
    assert_eq!(path, "/tmp/data/qbox/boxes");
}

#[test]
fn make_qbox_path_test() {
    let result = make_qbox_path("tee", DATA_DIR, true);
    assert!(result.is_ok(), "expected Ok, but got {:?}", result);

    let path = result.unwrap();
    assert_eq!(path, "/tmp/data/qbox/boxes/qbox_tee");
}

#[test]
fn make_test() {
    let result = make("Q", DATA_DIR, true, false);
    assert!(result.is_ok(), "expected Ok, but got {:?}", result);
    assert_eq!(result.unwrap(), Action::MakeDir("/tmp/data/qbox/boxes/qbox_Q".to_string()));
}

#[test]
fn delete_test() {
    let result = delete("Q", DATA_DIR, true, true, true);
    assert!(result.is_ok(), "expected Ok, but got {:?}", result);
    assert_eq!(
        result.unwrap(),
        Action::RemoveDir { path: "/tmp/data/qbox/boxes/qbox_Q".to_string(), recursive: true }
    );
}

#[test]
fn config_validate_test() {
    let mut config = make_config();
    let present = config.required_paths(&home());
    let result = config.validate(&home(), &present);
    assert!(result.is_ok(), "expected Ok, but got {:?}", result)
}

#[test]
fn open_qbox_test() {
    open_qbox();
}

#[test]
fn qbox_new_remove_version_test() {
    let qbox = open_qbox();
    let result = qbox.new_version("v1", false);
    assert!(result.is_ok(), "expected Ok, but got {:?}", result);
    assert_eq!(
        result.unwrap(),
        Action::MakeDir("/tmp/data/qbox/boxes/qbox_Q/v1".to_string()),
        "version directory not created"
    );

    let remove_result = qbox.remove_version("v1", true, true);
    assert!(remove_result.is_ok(), "expected Ok, but got {:?}", remove_result);
    assert_eq!(
        remove_result.unwrap(),
        Action::RemoveDir { path: "/tmp/data/qbox/boxes/qbox_Q/v1".to_string(), recursive: true },
        "version directory not removed"
    );
}

const SOURCE: &str = "/home/user/rust_projects/vanilla/qbox/tests/source";
const TARGET: &str = "/home/user/rust_projects/vanilla/qbox/tests/target";
const V1: &str = "/tmp/data/qbox/boxes/qbox_Q/v1";

fn source_listing() -> Vec<Vec<String>> {
    vec![vec![format!("{}/f1.txt", SOURCE), format!("{}/f2.txt", SOURCE)]]
}

fn record_version() -> (Qbox, Vec<Action>) {
    let qbox = open_qbox();
    let result_record = qbox.record("v1", true, true, &source_listing());
    assert!(result_record.is_ok(), "expected Ok, but got {:?}", result_record);
    let plan = result_record.unwrap();

    let expected_files = ["f1.txt", "f2.txt"];
    assert_eq!(plan[0], Action::ClearDir(V1.to_string()));
    for action in &plan[1..] {
        match action {
            Action::Copy { to, .. } => {
                let file_name = to.rsplit('/').next().unwrap();
                assert!(expected_files.contains(&file_name), "source file {} not created", file_name);
            }
            other => panic!("unexpected action {:?}", other),
        }
    }
    (qbox, plan)
}

#[test]
fn qbox_record_test() {
    let (_, plan) = record_version();
    assert_eq!(
        plan,
        vec![
            Action::ClearDir(V1.to_string()),
            copy(
                &format!("{}/f1.txt", SOURCE),
                &format!("{}{}/f1.txt", V1, SOURCE),
                false
            ),
            copy(
                &format!("{}/f2.txt", SOURCE),
                &format!("{}{}/f2.txt", V1, SOURCE),
                false
            ),
        ]
    );
}

#[test]
fn qbox_make_backup_test() {
    let qbox = open_qbox();
    let backup = "/tmp/data/qbox/boxes/qbox_Q/backup";
    let listings = vec![vec![format!("{}/tee/file.txt", TARGET)]];
    let plan = qbox.make_backup(false, &listings);
    assert_eq!(plan[0], Action::MakeDir(backup.to_string()), "backup dir not found");
    assert_eq!(plan[1], Action::ClearDir(backup.to_string()));
    assert!(plan.len() > 2, "files not created");

    let mut found = false;
    for action in &plan[2..] {
        if let Action::Copy { to, .. } = action {
            if to.ends_with("/file.txt") && to.starts_with(backup) {
                found = true;
                break;
            }
        }
    }
    assert!(found, "failed to create backup, files not found");
}

#[test]
fn qbox_apply_test() {
    let (qbox, record_plan) = record_version();
    let stored: Vec<String> = record_plan
        .iter()
        .filter_map(|a| match a {
            Action::Copy { to, .. } => Some(to.clone()),
            _ => None,
        })
        .collect();
    let result_apply = qbox.apply("v1", false, true, &stored);
    assert!(result_apply.is_ok(), "expected Ok, but got {:?}", result_apply);

    let expected_file = ["f1.txt", "f2.txt"];
    let files = result_apply.unwrap();
    assert!(files.len() == 2, "files not created");
    for file in files {
        match file {
            Action::Copy { to, .. } => {
                let file_name = to.rsplit('/').next().unwrap().to_string();
                assert!(expected_file.contains(&file_name.as_str()), "failed to apply, files not found");
                assert!(to.starts_with(TARGET));
            }
            other => panic!("unexpected action {:?}", other),
        }
    }
}

#[test]
fn reserved_name_is_refused() {
    let qbox = open_qbox();
    assert_eq!(
        qbox.new_version("backup", false),
        Err(QboxError::ReservedKeyword("backup".to_string()))
    );
    assert_eq!(
        qbox.remove_version("backup", false, true),
        Err(QboxError::ReservedKeyword("backup".to_string()))
    );
    assert_eq!(check_keywords("backup"), Err(QboxError::ReservedKeyword("backup".to_string())));
    assert_eq!(check_keywords("v1"), Ok(()));
}
