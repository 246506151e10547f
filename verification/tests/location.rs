use vex::location::{check_inside_project, inside_project, relative_components};

fn parts(values: &[&str]) -> Vec<String> {
    values.iter().map(|value| value.to_string()).collect()
}

#[test]
fn sibling_package_is_reached_through_the_parent() {
    assert_eq!(
        relative_components(&parts(&["/", "tmp", "first", "app"]), &parts(&["/", "tmp", "first", "dep"])),
        Some(parts(&["..", "dep"]))
    );
}

#[test]
fn package_inside_the_project_is_a_plain_subpath() {
    assert_eq!(
        relative_components(&parts(&["/", "work", "app"]), &parts(&["/", "work", "app", ".vex", "deps", "math"])),
        Some(parts(&[".vex", "deps", "math"]))
    );
    assert_eq!(relative_components(&parts(&["/", "work"]), &parts(&["/", "work"])), Some(parts(&[])));
}

#[test]
fn moving_the_tree_keeps_the_relative_path() {
    let first = relative_components(&parts(&["/", "a", "app"]), &parts(&["/", "a", "lib", "dep"]));
    let second = relative_components(&parts(&["/", "b", "c", "app"]), &parts(&["/", "b", "c", "lib", "dep"]));
    assert_eq!(first, Some(parts(&["..", "lib", "dep"])));
    assert_eq!(first, second);
}

#[test]
fn paths_without_a_common_root_have_no_relative_form() {
    assert_eq!(relative_components(&parts(&["C:", "\\", "app"]), &parts(&["D:", "\\", "dep"])), None);
    assert_eq!(relative_components(&parts(&[]), &parts(&["/", "dep"])), None);
}

#[test]
fn managed_directory_must_stay_inside_the_project() {
    let root = parts(&["/", "work", "app"]);
    assert!(inside_project(&root, &parts(&["/", "work", "app", ".vex", "deps"])));
    assert!(!inside_project(&root, &parts(&["/", "work", "elsewhere"])));
    assert!(!inside_project(&root, &parts(&["D:", "deps"])));
    assert_eq!(check_inside_project(&root, &parts(&["/", "work", "app", ".vex", "deps"]), ".vex/deps", "x"), Ok(()));
    assert_eq!(
        check_inside_project(&root, &parts(&["/", "tmp", "deps"]), ".vex/deps", "/tmp/deps"),
        Err("managed dependency directory `.vex/deps` resolves outside the project to `/tmp/deps`".to_string())
    );
}
