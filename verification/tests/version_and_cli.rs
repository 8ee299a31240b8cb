use yard_core::cli::{bold, color_create, color_delete, color_modify, disable_color, enable_colorblind_mode, find_in_parent_folders, parent_folders, Cli, ColorMode, Commands};
use yard_core::version::AirflowMajorVersion;

#[test]
fn class_name_v2_returns_dataset() {
    assert_eq!(AirflowMajorVersion::V2.class_name(), "Dataset");
}

#[test]
fn class_name_v3_returns_asset() {
    assert_eq!(AirflowMajorVersion::V3.class_name(), "Asset");
}

#[test]
fn class_import_v2_returns_dataset_import() {
    assert_eq!(AirflowMajorVersion::V2.class_import(), "from airflow.datasets import Dataset");
}

#[test]
fn class_import_v3_returns_asset_import() {
    assert_eq!(AirflowMajorVersion::V3.class_import(), "from airflow.sdk import Asset");
}

#[test]
fn bash_op_import_v2_returns_core_path() {
    assert_eq!(AirflowMajorVersion::V2.bash_op_import(), "from airflow.operators.bash import BashOperator");
}

#[test]
fn bash_op_import_v3_returns_providers_standard_path() {
    assert_eq!(
        AirflowMajorVersion::V3.bash_op_import(),
        "from airflow.providers.standard.operators.bash import BashOperator"
    );
}

#[test]
fn empty_op_import_v2_returns_core_path() {
    assert_eq!(AirflowMajorVersion::V2.empty_op_import(), "from airflow.operators.empty import EmptyOperator");
}

#[test]
fn empty_op_import_v3_returns_providers_standard_path() {
    assert_eq!(
        AirflowMajorVersion::V3.empty_op_import(),
        "from airflow.providers.standard.operators.empty import EmptyOperator"
    );
}

#[test]
fn version_banner_v2_contains_airflow_2_9() {
    let banner = AirflowMajorVersion::V2.version_banner();
    assert!(banner.contains("apache-airflow >= 2.9"), "V2 banner must reference airflow >= 2.9: {banner}");
}

#[test]
fn version_banner_v3_contains_airflow_3_0() {
    let banner = AirflowMajorVersion::V3.version_banner();
    assert!(banner.contains("apache-airflow >= 3.0"));
    assert!(banner.contains("apache-airflow-providers-standard"));
    assert!(banner.contains("apache-airflow-providers-amazon >= 9.0.0"));
}

fn comps(s: &str) -> Vec<String> {
    let mut out = vec!["/".to_string()];
    for c in s.split('/').filter(|c| !c.is_empty()) {
        out.push(c.to_string());
    }
    out
}

#[test]
fn finds_file_in_current_dir() {
    let root = comps("/tmp/proj");
    let found = find_in_parent_folders(&root, "yard.yaml", &vec![root.clone()]);
    assert_eq!(found, Some(comps("/tmp/proj/yard.yaml")));
}

#[test]
fn finds_file_in_parent_dir() {
    let root = comps("/tmp/proj");
    let child = comps("/tmp/proj/envs/dev");
    let found = find_in_parent_folders(&child, "yard.yaml", &vec![root.clone()]);
    assert_eq!(found, Some(comps("/tmp/proj/yard.yaml")));
}

#[test]
fn returns_none_when_not_found() {
    let root = comps("/tmp/proj");
    assert_eq!(find_in_parent_folders(&root, "nonexistent.yaml", &vec![comps("/elsewhere")]), None);
}

#[test]
fn nearest_directory_wins() {
    let start = comps("/a/b/c");
    let found = find_in_parent_folders(&start, "f", &vec![comps("/a"), comps("/a/b")]);
    assert_eq!(found, Some(comps("/a/b/f")));
    let rel = vec!["x".to_string(), "y".to_string()];
    assert_eq!(find_in_parent_folders(&rel, "f", &vec![vec![]]), Some(vec!["f".to_string()]));
}

#[test]
fn parent_folders_walk_to_the_root() {
    let ds = parent_folders(&comps("/a/b"));
    assert_eq!(ds, vec![comps("/a/b"), comps("/a"), comps("/")]);
    let rel = parent_folders(&vec!["x".to_string()]);
    assert_eq!(rel, vec![vec!["x".to_string()], vec![]]);
}

#[test]
fn colors_follow_the_mode() {
    assert_eq!(color_create("x", ColorMode::Normal, true), "\x1b[32mx\x1b[0m");
    assert_eq!(color_create("x", ColorMode::Colorblind, true), "\x1b[36mx\x1b[0m");
    assert_eq!(color_modify("x", ColorMode::Normal, true), "\x1b[33mx\x1b[0m");
    assert_eq!(color_modify("x", ColorMode::Colorblind, true), "\x1b[34mx\x1b[0m");
    assert_eq!(color_delete("x", ColorMode::Normal, true), "\x1b[31mx\x1b[0m");
    assert_eq!(color_delete("x", ColorMode::Colorblind, true), "\x1b[35mx\x1b[0m");
    assert_eq!(bold("x", ColorMode::Colorblind, true), "\x1b[1mx\x1b[0m");
    assert_eq!(bold("x", ColorMode::Plain, true), "x");
    assert_eq!(color_delete("x", ColorMode::Normal, false), "x");
}

#[test]
fn mode_switches() {
    let mut m = ColorMode::Normal;
    disable_color(&mut m);
    assert!(m == ColorMode::Plain);
    enable_colorblind_mode(&mut m);
    assert!(m == ColorMode::Colorblind);
    let cli = Cli { no_color: false, colorblind: true, command: Commands::Init { directory: None } };
    assert!(cli.color_mode(false) == ColorMode::Colorblind);
    assert!(cli.color_mode(true) == ColorMode::Plain);
}
