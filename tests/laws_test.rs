use qbox::config::{path_exists, Config, Mapping};
use qbox::error::{FDError, QboxError};
use qbox::path::{layout_path, original_path};
use qbox::plan::Action;
use qbox::qbox::Qbox;
use qbox::snapshot::{apply_plan, restore_plan, snapshot_plan};

const DATA_DIR: &str = "/data";
const QBOX_DIR: &str = "/data/boxes/qbox_Q";

fn copy(from: &str, to: &str, replace_parent: bool) -> Action {
    Action::Copy { from: from.to_string(), to: to.to_string(), replace_parent }
}

fn config(files: &[(&str, &str)], excludes: &[&str], make_dir: bool) -> Config {
    Config {
        make_dir,
        files: files
            .iter()
            .map(|(s, t)| Mapping { source: s.to_string(), target: t.to_string() })
            .collect(),
        excludes: excludes.iter().map(|e| e.to_string()).collect(),
    }
}

fn opened(cfg: Config) -> Qbox {
    let mut q = Qbox::new("Q", DATA_DIR, true, true).unwrap();
    let present = cfg.required_paths(&None);
    q.open(Some(cfg), &None, &present).unwrap();
    q
}

fn strings(v: &[&str]) -> Vec<String> {
    v.iter().map(|s| s.to_string()).collect()
}

fn destinations(plan: &[Action]) -> Vec<String> {
    plan.iter()
        .filter_map(|a| match a {
            Action::Copy { to, .. } => Some(to.clone()),
            _ => None,
        })
        .collect()
}

#[test]
fn layout_round_trips() {
    let stored = layout_path("/a/b/c", "/v");
    assert_eq!(stored, "/v/a/b/c");
    assert_eq!(original_path(&stored, "/v"), Some("/a/b/c".to_string()));
    assert_eq!(layout_path("//x", "/v/"), "/v/x");
    assert_eq!(original_path("/w/a", "/v"), None);
}

#[test]
fn record_then_apply_round_trip() {
    let q = opened(config(&[("/S", "/T")], &[], false));
    let listing = vec![strings(&["/S/a.txt", "/S/d/b.txt"])];
    let record = q.record("v1", true, true, &listing).unwrap();
    let v1 = "/data/boxes/qbox_Q/v1";
    assert_eq!(
        record,
        vec![
            Action::ClearDir(v1.to_string()),
            copy("/S/a.txt", "/data/boxes/qbox_Q/v1/S/a.txt", false),
            copy("/S/d/b.txt", "/data/boxes/qbox_Q/v1/S/d/b.txt", false),
        ]
    );
    let stored = destinations(&record);
    let apply = q.apply("v1", true, true, &stored).unwrap();
    assert_eq!(
        apply,
        vec![
            copy("/data/boxes/qbox_Q/v1/S/a.txt", "/T/a.txt", true),
            copy("/data/boxes/qbox_Q/v1/S/d/b.txt", "/T/d/b.txt", true),
        ]
    );
}

#[test]
fn mirrored_target_applies_in_place() {
    let q = opened(config(&[("/S", "*")], &[], false));
    assert_eq!(q.targets(), vec!["/S".to_string()]);
    let stored = strings(&["/data/boxes/qbox_Q/v1/S/a.txt", "/data/boxes/qbox_Q/v1/X/b.txt"]);
    let apply = q.apply("v1", false, true, &stored).unwrap();
    assert_eq!(apply, vec![copy("/data/boxes/qbox_Q/v1/S/a.txt", "/S/a.txt", false)]);
}

#[test]
fn excluded_files_are_not_recorded() {
    let q = opened(config(&[("/S", "/T")], &["/S/ex"], false));
    let listing = vec![strings(&["/S/a.txt", "/S/ex", "/S/ex/x.txt", "/S/exx.txt"])];
    let record = q.record("v1", false, true, &listing).unwrap();
    assert_eq!(
        destinations(&record),
        strings(&["/data/boxes/qbox_Q/v1/S/a.txt", "/data/boxes/qbox_Q/v1/S/exx.txt"])
    );
}

#[test]
fn exclude_equal_to_source_prunes_nothing() {
    let plan = snapshot_plan(
        &strings(&["/S"]),
        &vec![strings(&["/S/a"])],
        &strings(&["/S", "/"]),
        "/v",
    );
    assert_eq!(plan, vec![copy("/S/a", "/v/S/a", false)]);
}

#[test]
fn forced_record_twice_is_the_same() {
    let q = opened(config(&[("/S", "/T")], &[], false));
    let listing = vec![strings(&["/S/a.txt"])];
    let first = q.record("v1", true, true, &listing).unwrap();
    let second = q.record("v1", true, true, &listing).unwrap();
    assert_eq!(first, second);
    assert_eq!(first[0], Action::ClearDir("/data/boxes/qbox_Q/v1".to_string()));
    let layered = q.record("v1", false, true, &listing).unwrap();
    assert_eq!(layered, first[1..].to_vec());
}

#[test]
fn missing_version_is_reported() {
    let q = opened(config(&[("/S", "/T")], &[], false));
    assert_eq!(
        q.record("v9", false, false, &vec![vec![]]),
        Err(QboxError::VersionNotFound("/data/boxes/qbox_Q/v9".to_string()))
    );
    assert_eq!(
        q.apply("v9", false, false, &vec![]),
        Err(QboxError::VersionNotFound("/data/boxes/qbox_Q/v9".to_string()))
    );
    assert_eq!(
        q.remove_version("v9", false, false),
        Err(QboxError::VersionNotFound("/data/boxes/qbox_Q/v9".to_string()))
    );
    assert_eq!(
        q.new_version("v9", true),
        Err(QboxError::VersionExists("/data/boxes/qbox_Q/v9".to_string()))
    );
}

#[test]
fn applying_backup_restores() {
    let q = opened(config(&[("/S", "/T")], &[], false));
    let stored = strings(&["/data/boxes/qbox_Q/backup/T/a.txt", "/elsewhere/b.txt"]);
    let via_apply = q.apply("backup", true, true, &stored).unwrap();
    let direct = q.apply_backup(true, &stored).unwrap();
    assert_eq!(via_apply, direct);
    assert_eq!(direct, vec![copy("/data/boxes/qbox_Q/backup/T/a.txt", "/T/a.txt", false)]);
    assert_eq!(
        q.apply("backup", false, false, &stored),
        Err(QboxError::BackupNotFound("/data/boxes/qbox_Q/backup".to_string()))
    );
}

#[test]
fn backup_then_restore_returns_files() {
    let q = opened(config(&[("/S", "/T")], &["/T/skip"], false));
    let listing = vec![strings(&["/T/a.txt", "/T/skip/c.txt", "/T/d/b.txt"])];
    let backup = q.make_backup(true, &listing);
    let dir = "/data/boxes/qbox_Q/backup";
    assert_eq!(
        backup,
        vec![
            Action::ClearDir(dir.to_string()),
            copy("/T/a.txt", "/data/boxes/qbox_Q/backup/T/a.txt", false),
            copy("/T/d/b.txt", "/data/boxes/qbox_Q/backup/T/d/b.txt", false),
        ]
    );
    let restore = q.apply_backup(true, &destinations(&backup)).unwrap();
    assert_eq!(
        restore,
        vec![
            copy("/data/boxes/qbox_Q/backup/T/a.txt", "/T/a.txt", false),
            copy("/data/boxes/qbox_Q/backup/T/d/b.txt", "/T/d/b.txt", false),
        ]
    );
    let fresh = q.make_backup(false, &vec![vec![]]);
    assert_eq!(fresh, vec![Action::MakeDir(dir.to_string()), Action::ClearDir(dir.to_string())]);
}

#[test]
fn home_variable_is_substituted() {
    let home = Some("/home/u".to_string());
    assert_eq!(Config::format_path("$HOME/cfg", &home), Ok("/home/u/cfg".to_string()));
    assert_eq!(Config::format_path("/$HOME/cfg", &home), Ok("/home/u/cfg".to_string()));
    assert_eq!(Config::format_path("/x/$HOME//cfg", &home), Ok("/home/u/cfg".to_string()));
    assert_eq!(
        Config::format_path("$HOME/a", &Some("rel".to_string())),
        Ok("rel/a".to_string())
    );
    assert_eq!(Config::format_path("/plain/path", &home), Ok("/plain/path".to_string()));
    assert_eq!(Config::format_path("/no$slash", &home), Ok("/no$slash".to_string()));
    assert_eq!(Config::variable_data("HOME", &home), Ok("/home/u".to_string()));
}

#[test]
fn unknown_variable_is_refused() {
    let home = Some("/home/u".to_string());
    assert_eq!(
        Config::format_path("$UNKNOWN/x", &home),
        Err(QboxError::ConfigUndefinedVariable("UNKNOWN".to_string()))
    );
    assert_eq!(
        Config::variable_data("USER", &home),
        Err(QboxError::ConfigUndefinedVariable("USER".to_string()))
    );
    let mut cfg = config(&[("$UNKNOWN/x", "*")], &[], false);
    assert!(cfg.required_paths(&home).is_empty());
    assert_eq!(
        cfg.validate(&home, &vec![]),
        Err(QboxError::ConfigUndefinedVariable("UNKNOWN".to_string()))
    );
}

#[test]
fn unset_home_is_reported() {
    assert_eq!(
        Config::format_path("$HOME/cfg", &None),
        Err(QboxError::Variable("HOME".to_string()))
    );
    assert_eq!(Config::variable_data("HOME", &None), Err(QboxError::Variable("HOME".to_string())));
}

#[test]
fn invalid_path_styles_are_refused() {
    let mut relative = config(&[("rel/path", "/abs/path")], &[], false);
    assert!(relative.required_paths(&None).is_empty());
    assert_eq!(
        relative.validate(&None, &vec![]),
        Err(QboxError::InvalidPathStyle("rel/path".to_string(), "/abs/path".to_string()))
    );
    let mut trailing = config(&[("/abs/src", "/abs/path/")], &[], false);
    assert_eq!(
        trailing.validate(&None, &vec![]),
        Err(QboxError::InvalidPathStyle("/abs/src".to_string(), "/abs/path/".to_string()))
    );
    assert!(Config::validate_path_style("*", "rel/path").is_ok());
    assert!(Config::validate_path_style("/t", "/s/").is_err());
}

#[test]
fn missing_paths_are_reported_in_order() {
    let mut cfg = config(&[("/S", "/T"), ("/U", "/W")], &["/S/x"], false);
    let required = cfg.required_paths(&None);
    assert_eq!(required, strings(&["/S", "/T", "/U", "/W", "/S/x"]));
    let present = strings(&["/S", "/U", "/W", "/S/x"]);
    assert_eq!(cfg.validate(&None, &present), Err(QboxError::PathNotFound("/T".to_string())));
    assert_eq!(cfg, config(&[("/S", "/T"), ("/U", "/W")], &["/S/x"], false));
    let mut lenient = config(&[("/S", "/T")], &[], true);
    assert_eq!(lenient.required_paths(&None), strings(&["/S"]));
    assert_eq!(lenient.validate(&None, &strings(&["/S"])), Ok(()));
}

#[test]
fn style_error_comes_after_earlier_missing_path() {
    let mut cfg = config(&[("/S", "/T"), ("rel", "/W")], &[], false);
    assert_eq!(cfg.validate(&None, &strings(&["/T"])), Err(QboxError::PathNotFound("/S".to_string())));
    assert_eq!(
        cfg.validate(&None, &strings(&["/S", "/T"])),
        Err(QboxError::InvalidPathStyle("rel".to_string(), "/W".to_string()))
    );
}

#[test]
fn validation_resolves_the_configuration() {
    let home = Some("/h".to_string());
    let mut cfg = config(&[("$HOME/src", "*"), ("/a", "/$HOME/t")], &["$HOME/src/x"], false);
    let present = cfg.required_paths(&home);
    assert_eq!(present, strings(&["/h/src", "/a", "/h/t", "/h/src/x"]));
    assert_eq!(cfg.validate(&home, &present), Ok(()));
    assert_eq!(cfg, config(&[("/h/src", "/h/src"), ("/a", "/h/t")], &["/h/src/x"], false));
    assert_eq!(cfg.excludes_to_str(), strings(&["/h/src/x"]));
}

#[test]
fn path_exists_checks_presence() {
    let present = strings(&["/a", "/b"]);
    assert_eq!(path_exists("/b", &present), Ok(()));
    assert_eq!(path_exists("/c", &present), Err(FDError::NotFound("/c".to_string())));
}

#[test]
fn opening_needs_a_configuration() {
    let mut q = Qbox::new("Q", DATA_DIR, true, true).unwrap();
    assert_eq!(q.path(), QBOX_DIR);
    assert_eq!(q.config_path(), "/data/boxes/qbox_Q/qbox.yaml");
    assert_eq!(
        q.open(None, &None, &vec![]),
        Err(QboxError::MissingConfig("/data/boxes/qbox_Q/qbox.yaml".to_string()))
    );
    let bad = config(&[("/S", "/T")], &[], false);
    assert_eq!(
        q.open(Some(bad), &None, &vec![]),
        Err(QboxError::PathNotFound("/S".to_string()))
    );
    assert_eq!(*q.config(), Config::new());
}

#[test]
fn container_errors() {
    assert_eq!(
        Qbox::new("Q", DATA_DIR, true, false).unwrap_err(),
        QboxError::MissingQbox(QBOX_DIR.to_string())
    );
    assert_eq!(
        Qbox::new("Q", DATA_DIR, false, false).unwrap_err(),
        QboxError::MissingBoxes("/data/boxes".to_string())
    );
    assert_eq!(
        qbox::qbox::make("Q", DATA_DIR, true, true),
        Err(QboxError::QboxExists(QBOX_DIR.to_string()))
    );
    assert_eq!(
        qbox::qbox::delete("Q", DATA_DIR, false, true, false),
        Err(QboxError::MissingQbox(QBOX_DIR.to_string()))
    );
    assert_eq!(
        qbox::qbox::make_qbox_path("Q", "/data/", false),
        Err(QboxError::MissingBoxes("/data/boxes".to_string()))
    );
}

#[test]
fn plans_from_lists() {
    let apply = apply_plan(
        &strings(&["/S", "/S/d"]),
        &strings(&["/T", "/U"]),
        &strings(&["/v/S/d/x", "/v/Sx/y"]),
        "/v",
        false,
    );
    assert_eq!(
        apply,
        vec![
            copy("/v/S/d/x", "/T/d/x", false),
            copy("/v/Sx/y", "/T/x/y", false),
            copy("/v/S/d/x", "/U/x", false),
        ]
    );
    assert_eq!(restore_plan(&strings(&["/v/a", "/w/b"]), "/v"), vec![copy("/v/a", "/a", false)]);
}

#[test]
fn relative_exclude_matches_entry_names() {
    let plan = snapshot_plan(
        &strings(&["/S"]),
        &vec![strings(&["/S/a/ex/f", "/S/b/exx/g", "/S/ex", "/S/c/xex"])],
        &strings(&["ex"]),
        "/v",
    );
    assert_eq!(
        plan,
        vec![copy("/S/b/exx/g", "/v/S/b/exx/g", false), copy("/S/c/xex", "/v/S/c/xex", false)]
    );
}
