use modloader::bepmod::BepinexMod;
use modloader::modindex::{package_api_url, usable_hints};

fn hint(namespace: &str, name: &str) -> BepinexMod {
    BepinexMod {
        namespace: namespace.to_string(),
        name: name.to_string(),
        from: None,
        to: None,
    }
}

fn to_string(v: &Vec<char>) -> String {
    v.iter().collect()
}

#[test]
fn blank_hints_are_skipped_without_aborting() {
    let hints = vec![
        hint("denikson", "BepInExPack_Valheim"),
        hint("", "NoNamespace"),
        hint("   ", "OnlySpaces"),
        hint("Someone", "  "),
        hint("ValheimPlus", "ValheimPlus"),
    ];
    assert_eq!(usable_hints(&hints), vec![0, 4]);
}

#[test]
fn all_usable_hints_keep_their_order() {
    let hints = vec![hint("a", "x"), hint("b", "y")];
    assert_eq!(usable_hints(&hints), vec![0, 1]);
}

#[test]
fn package_api_url_is_built_from_trimmed_parts() {
    let url = package_api_url(
        &" denikson ".chars().collect(),
        &"BepInExPack_Valheim".chars().collect(),
    );
    assert_eq!(
        to_string(&url),
        "https://thunderstore.io/api/experimental/package/denikson/BepInExPack_Valheim/"
    );
}
