use starship_daemon::cache::gitdir_target;
use starship_daemon::modules::{
    expand_all_core, explicit_vars, implicit_children_of, module_names, resolve_format,
    ChildModule,
};
use starship_daemon::timings::replace_str;

fn strings(v: &[&str]) -> Vec<String> {
    v.iter().map(|s| s.to_string()).collect()
}

fn child(name: &str, disabled: bool, is_table: bool) -> ChildModule {
    ChildModule { name: name.to_string(), disabled, is_table }
}

#[test]
fn replace_is_leftmost_and_non_overlapping() {
    assert_eq!(replace_str("aaa", "aa", "b"), "ba");
    assert_eq!(replace_str("$all$all", "$all", "X"), "XX");
    assert_eq!(replace_str("none", "$all", "X"), "none");
    assert_eq!(replace_str("", "x", "y"), "");
}

#[test]
fn resolve_format_expands_all() {
    let order = strings(&["username", "directory", "git_branch", "character"]);
    let disabled = vec![false, false, true, false];
    let explicit = strings(&["character"]);
    assert_eq!(
        resolve_format("$all$character", &order, &disabled, &explicit),
        "${username}${directory}$character"
    );
    assert_eq!(
        resolve_format("[${all}]", &order, &disabled, &Vec::new()),
        "[${username}${directory}${character}]"
    );
    assert_eq!(resolve_format("$directory", &order, &disabled, &explicit), "$directory");
}

#[test]
fn explicit_vars_unions_both_formats() {
    let v = explicit_vars("$directory$character", "$time");
    for x in ["directory", "character", "time"] {
        assert!(v.contains(&x.to_string()), "{x}");
    }
    assert_eq!(v.len(), 3);
}

#[test]
fn implicit_children_skip_named_disabled_and_scalar_env() {
    let explicit = strings(&["custom.explicit_ref"]);
    let custom = vec![
        child("slow", false, true),
        child("hidden", true, true),
        child("explicit_ref", false, true),
    ];
    assert_eq!(implicit_children_of("custom", &custom, &explicit), strings(&["custom.slow"]));
    let env = vec![child("PLAIN", false, false), child("TABLEVAR", false, true)];
    assert_eq!(implicit_children_of("env_var", &env, &explicit), strings(&["env_var.TABLEVAR"]));
}

#[test]
fn module_names_expands_custom_and_env_var_children() {
    let names = module_names(
        "${custom}${directory}${env_var}$all",
        "$directory$time",
        &strings(&["custom.slow"]),
        &strings(&["env_var.TABLEVAR"]),
    );
    assert!(names.contains(&"custom.slow".to_string()));
    assert!(!names.contains(&"custom".to_string()));
    assert!(names.contains(&"env_var".to_string()));
    assert!(names.contains(&"env_var.TABLEVAR".to_string()));
    assert!(names.contains(&"directory".to_string()));
    assert!(names.contains(&"time".to_string()));
    assert!(!names.contains(&"all".to_string()));
    assert_eq!(names.iter().filter(|n| *n == "directory").count(), 1);
}

#[test]
fn gitdir_file_points_at_the_git_directory() {
    assert_eq!(gitdir_target("gitdir: ../.git/worktrees/w\n"), Some("../.git/worktrees/w".to_string()));
    assert_eq!(gitdir_target("gitdir:   C:\\r\\.git  \r\n"), Some("C:\\r\\.git".to_string()));
    assert_eq!(gitdir_target("ref: x"), None);
    assert_eq!(gitdir_target(""), None);
}

#[test]
fn expand_all_core_uses_bare_variables() {
    let order = strings(&["username", "directory", "character"]);
    assert_eq!(
        expand_all_core("$all\n$character", &order, &[false, false, true].to_vec()),
        "$username$directory\n$character"
    );
    assert_eq!(expand_all_core("${all}", &order, &vec![true; 3]), "");
}
