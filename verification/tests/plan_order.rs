use modloader::plan::install_order;

fn names(xs: &[&str]) -> Vec<String> {
    xs.iter().map(|s| s.to_string()).collect()
}

#[test]
fn loader_is_installed_first() {
    let order = install_order(
        &names(&["ModA", "BepInExPack", "ModB"]),
        &vec![true, true, true],
    );
    assert_eq!(order, Some(vec![1, 0, 2]));
}

#[test]
fn without_a_selected_loader_nothing_is_installed() {
    assert_eq!(install_order(&names(&["ModA", "ModB"]), &vec![true, true]), None);
    assert_eq!(
        install_order(&names(&["ModA", "BepInExPack"]), &vec![true, false]),
        None
    );
    assert_eq!(install_order(&names(&[]), &vec![]), None);
}

#[test]
fn deselected_mods_are_skipped() {
    let order = install_order(
        &names(&["BepInExPack", "ModA", "ModB"]),
        &vec![true, false, true],
    );
    assert_eq!(order, Some(vec![0, 2]));
}

#[test]
fn duplicate_loader_entries_are_installed_once() {
    let order = install_order(
        &names(&["BepInExPack", "ModA", "BepInExPack"]),
        &vec![true, true, true],
    );
    assert_eq!(order, Some(vec![0, 1]));
}
