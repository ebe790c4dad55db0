use modloader::fsmodel::FsModel;
use modloader::settings;
use modloader::uninstall::{is_loader_artifact_path, loader_dir_names, loader_file_names};

fn cs(s: &str) -> Vec<char> {
    s.chars().collect()
}

fn make_zip(files: &[(&str, &[u8])]) -> Vec<u8> {
    let mut zw = zip::ZipWriter::new(std::io::Cursor::new(Vec::new()));
    for (name, data) in files {
        zw.start_file(*name, zip::write::SimpleFileOptions::default()).unwrap();
        std::io::Write::write_all(&mut zw, data).unwrap();
    }
    zw.finish().unwrap().into_inner()
}

#[test]
fn artifact_classification_matches_the_allowlist() {
    assert!(is_loader_artifact_path(&cs("winhttp.dll")));
    assert!(is_loader_artifact_path(&cs("changelog.txt")));
    assert!(is_loader_artifact_path(&cs(".doorstop_version")));
    assert!(is_loader_artifact_path(&cs("doorstop_config.ini")));
    assert!(is_loader_artifact_path(&cs("start_game_bepinex.sh")));
    assert!(is_loader_artifact_path(&cs("start_server_bepinex.sh")));
    assert!(is_loader_artifact_path(&cs("BepInEx/plugins/mod.dll")));
    assert!(is_loader_artifact_path(&cs("doorstop_libs/libdoorstop.so")));
    assert!(!is_loader_artifact_path(&cs("valheim.exe")));
    assert!(!is_loader_artifact_path(&cs("BepInExtra/mod.dll")));
    assert!(!is_loader_artifact_path(&cs("winhttp.dll.bak")));
    assert!(!is_loader_artifact_path(&cs("saves/changelog.txt.old")));
}

#[test]
fn allowlist_names_are_fixed() {
    let files: Vec<String> = loader_file_names().iter().map(|v| v.iter().collect()).collect();
    assert_eq!(
        files,
        vec![
            "changelog.txt".to_string(),
            "doorstop_config.ini".to_string(),
            ".doorstop_version".to_string(),
            "start_game_bepinex.sh".to_string(),
            "start_server_bepinex.sh".to_string(),
            "winhttp.dll".to_string(),
        ]
    );
    let dirs: Vec<String> = loader_dir_names().iter().map(|v| v.iter().collect()).collect();
    assert_eq!(dirs, vec!["BepInEx".to_string(), "doorstop_libs".to_string()]);
}

#[test]
fn uninstall_removes_exactly_the_allowlist() {
    let mut fs = FsModel::new();
    fs.write(cs("winhttp.dll"), b"loader".to_vec());
    fs.write(cs("BepInEx/plugins/mod.dll"), b"mod".to_vec());
    fs.write(cs("doorstop_libs/libdoorstop.so"), b"so".to_vec());
    fs.write(cs("changelog.txt"), b"log".to_vec());
    fs.write(cs("CustomAssets/texture.png"), b"png".to_vec());
    fs.write(cs("valheim.exe"), b"game".to_vec());
    fs.uninstall();
    assert_eq!(fs.files.len(), 2);
    assert_eq!(fs.read(&cs("CustomAssets/texture.png")).unwrap().as_slice(), b"png".as_slice());
    assert_eq!(fs.read(&cs("valheim.exe")).unwrap().as_slice(), b"game".as_slice());
    assert!(!fs.contains_path(&cs("winhttp.dll")));
    assert!(!fs.contains_path(&cs("BepInEx/plugins/mod.dll")));
}

#[test]
fn uninstall_twice_is_a_no_op() {
    // Every deletion is existence-guarded: a second uninstall finds no
    // artifact and changes nothing, without error.
    let mut fs = FsModel::new();
    fs.write(cs("winhttp.dll"), b"loader".to_vec());
    fs.write(cs("mods_backup/keep.txt"), b"keep".to_vec());
    fs.uninstall();
    let after_first: Vec<(String, Vec<u8>)> = fs
        .files
        .iter()
        .map(|f| (f.path.iter().collect(), f.data.clone()))
        .collect();
    fs.uninstall();
    let after_second: Vec<(String, Vec<u8>)> = fs
        .files
        .iter()
        .map(|f| (f.path.iter().collect(), f.data.clone()))
        .collect();
    assert_eq!(after_first, after_second);
    assert_eq!(after_first, vec![("mods_backup/keep.txt".to_string(), b"keep".to_vec())]);
}

#[test]
fn uninstall_on_empty_tree_is_quiet() {
    let mut fs = FsModel::new();
    fs.uninstall();
    assert_eq!(fs.files.len(), 0);
}

#[test]
fn install_then_uninstall_keeps_files_outside_the_allowlist() {
    // Round trip: the loader archive's files are removed again; a mod
    // installed outside the allowlist stays, bytes untouched.
    let loader_zip = make_zip(&[
        ("winhttp.dll", b"loader".as_slice()),
        ("doorstop_config.ini", b"[General]".as_slice()),
        ("BepInEx/core/BepInEx.dll", b"core".as_slice()),
    ]);
    let loader_entry = settings::BepinexMod::new(
        String::from("http://x/loader.zip"),
        vec![vec![String::from("*"), String::from("")]],
    );
    let mod_zip = make_zip(&[("maps/map.dat", b"terrain".as_slice())]);
    let mod_entry = settings::BepinexMod::new(
        String::from("http://x/mod.zip"),
        vec![vec![String::from("*"), String::from("CustomMaps")]],
    );
    let mut fs = FsModel::new();
    fs.write(cs("valheim.exe"), b"game".to_vec());
    fs.install_manifest_entry(&loader_zip, &loader_entry).unwrap();
    fs.install_manifest_entry(&mod_zip, &mod_entry).unwrap();
    assert!(fs.contains_path(&cs("winhttp.dll")));
    assert!(fs.contains_path(&cs("BepInEx/core/BepInEx.dll")));
    fs.uninstall();
    assert!(!fs.contains_path(&cs("winhttp.dll")));
    assert!(!fs.contains_path(&cs("doorstop_config.ini")));
    assert!(!fs.contains_path(&cs("BepInEx/core/BepInEx.dll")));
    assert_eq!(fs.read(&cs("CustomMaps/maps/map.dat")).unwrap().as_slice(), b"terrain".as_slice());
    assert_eq!(fs.read(&cs("valheim.exe")).unwrap().as_slice(), b"game".as_slice());
    assert_eq!(fs.files.len(), 2);
}
