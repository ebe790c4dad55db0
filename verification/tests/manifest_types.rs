use modloader::settings::{Bepinex, BepinexMod, Settings};

#[test]
fn bepinex_mod_new_keeps_its_parts() {
    let m = BepinexMod::new(
        String::from("http://x/a.zip"),
        vec![vec![String::from("*"), String::from("plugins")]],
    );
    assert_eq!(m.url, "http://x/a.zip");
    assert_eq!(m.mapping, vec![vec![String::from("*"), String::from("plugins")]]);
}

#[test]
fn bepinex_new_keeps_its_parts() {
    let b = Bepinex::new(
        String::from("http://x/loader.zip"),
        vec![String::from("BepInExPack_Valheim"), String::from("")],
    );
    assert_eq!(b.url, "http://x/loader.zip");
    assert_eq!(b.mapping, vec![String::from("BepInExPack_Valheim"), String::from("")]);
}

#[test]
fn settings_new_keeps_its_parts() {
    let s = Settings::new(
        Bepinex::new(String::from("http://x/loader.zip"), vec![]),
        vec![BepinexMod::new(String::from("http://x/a.zip"), vec![])],
    );
    assert_eq!(s.bepinex.url, "http://x/loader.zip");
    assert_eq!(s.mods.len(), 1);
    assert_eq!(s.mods[0].url, "http://x/a.zip");
}
