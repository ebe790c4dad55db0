use modloader::archive::InstallError;
use modloader::bepmod;
use modloader::fsmodel::FsModel;
use modloader::settings;

fn cs(s: &str) -> Vec<char> {
    s.chars().collect()
}

fn make_zip(dirs: &[&str], files: &[(&str, &[u8])]) -> Vec<u8> {
    let mut zw = zip::ZipWriter::new(std::io::Cursor::new(Vec::new()));
    for d in dirs {
        zw.add_directory(*d, zip::write::SimpleFileOptions::default()).unwrap();
    }
    for (name, data) in files {
        zw.start_file(*name, zip::write::SimpleFileOptions::default()).unwrap();
        std::io::Write::write_all(&mut zw, data).unwrap();
    }
    zw.finish().unwrap().into_inner()
}

#[test]
fn wildcard_mapping_places_whole_archive_under_destination() {
    // Mapping ("*", "plugins"): every file of the archive, nested ones
    // included, lands under `plugins` with identical bytes.
    let bytes = make_zip(&["sub"], &[("a.txt", b"alpha".as_slice()), ("sub/b.txt", b"beta".as_slice())]);
    let entry = settings::BepinexMod::new(
        String::from("http://x/a.zip"),
        vec![vec![String::from("*"), String::from("plugins")]],
    );
    let mut fs = FsModel::new();
    fs.install_manifest_entry(&bytes, &entry).unwrap();
    assert_eq!(fs.read(&cs("plugins/a.txt")).unwrap().as_slice(), b"alpha".as_slice());
    assert_eq!(fs.read(&cs("plugins/sub/b.txt")).unwrap().as_slice(), b"beta".as_slice());
    assert_eq!(fs.files.len(), 2);
}

#[test]
fn named_source_directory_strips_prefix_and_drops_the_rest() {
    // Source directory "BepInExPack_Valheim" mapped to destination "":
    // files under the prefix are copied with it stripped; files outside
    // it are not copied at all.
    let bytes = make_zip(
        &["BepInExPack_Valheim"],
        &[
            ("BepInExPack_Valheim/winhttp.dll", b"loader".as_slice()),
            ("BepInExPack_Valheim/doorstop_config.ini", b"[General]".as_slice()),
            ("README.md", b"outside".as_slice()),
        ],
    );
    let entry = bepmod::BepinexMod {
        namespace: String::from("denikson"),
        name: String::from("BepInExPack_Valheim"),
        from: Some(String::from("BepInExPack_Valheim")),
        to: None,
    };
    let mut fs = FsModel::new();
    fs.install_mod_entry(&bytes, &entry).unwrap();
    assert_eq!(fs.read(&cs("winhttp.dll")).unwrap().as_slice(), b"loader".as_slice());
    assert_eq!(fs.read(&cs("doorstop_config.ini")).unwrap().as_slice(), b"[General]".as_slice());
    assert!(!fs.contains_path(&cs("README.md")));
    assert!(!fs.contains_path(&cs("BepInExPack_Valheim/winhttp.dll")));
    assert_eq!(fs.files.len(), 2);
}

#[test]
fn legacy_mapping_source_naming_a_single_file_copies_it_under_its_filename() {
    // On the legacy manifest path, a mapping whose source is a single
    // file inside the archive copies just that file into the
    // destination, keeping its filename.
    let bytes = make_zip(
        &["docs"],
        &[("docs/readme.txt", b"hello".as_slice()), ("docs/other.txt", b"no".as_slice())],
    );
    let entry = settings::BepinexMod::new(
        String::from("http://x/a.zip"),
        vec![vec![String::from("docs/readme.txt"), String::from("BepInEx/config")]],
    );
    let mut fs = FsModel::new();
    fs.install_manifest_entry(&bytes, &entry).unwrap();
    assert_eq!(fs.read(&cs("BepInEx/config/readme.txt")).unwrap().as_slice(), b"hello".as_slice());
    assert_eq!(fs.files.len(), 1);
}

#[test]
fn hint_source_matches_by_prefix_only() {
    // On the per-mod path, selection is plain prefix equality against
    // "<from>/": a file entry named exactly the source directory, or
    // named with the source as a mere name prefix, matches nothing and
    // is not copied anywhere.
    let bytes = make_zip(
        &[],
        &[
            ("BepInExPack_Valheim", b"imposter".as_slice()),
            ("BepInExPack_Valheimx/late.dll", b"imposter2".as_slice()),
            ("BepInExPack_Valheim/winhttp.dll", b"loader".as_slice()),
        ],
    );
    let entry = bepmod::BepinexMod {
        namespace: String::from("denikson"),
        name: String::from("BepInExPack_Valheim"),
        from: Some(String::from("BepInExPack_Valheim")),
        to: None,
    };
    let mut fs = FsModel::new();
    fs.install_mod_entry(&bytes, &entry).unwrap();
    assert_eq!(fs.read(&cs("winhttp.dll")).unwrap().as_slice(), b"loader".as_slice());
    assert_eq!(fs.files.len(), 1);
    assert!(!fs.contains_path(&cs("BepInExPack_Valheim")));
    assert!(!fs.contains_path(&cs("late.dll")));
    assert!(!fs.contains_path(&cs("x/late.dll")));
}

#[test]
fn end_to_end_manifest_entry_places_plugin() {
    // Manifest [{"url":"http://x/a.zip","mapping":[["*","BepInEx/plugins"]]}]
    // with an archive holding plugin.dll: after the install the plugin
    // sits at BepInEx/plugins/plugin.dll and nothing else was written.
    let bytes = make_zip(&[], &[("plugin.dll", b"MZ-code".as_slice())]);
    let entry = settings::BepinexMod::new(
        String::from("http://x/a.zip"),
        vec![vec![String::from("*"), String::from("BepInEx/plugins")]],
    );
    let mut fs = FsModel::new();
    fs.install_manifest_entry(&bytes, &entry).unwrap();
    assert_eq!(fs.read(&cs("BepInEx/plugins/plugin.dll")).unwrap().as_slice(), b"MZ-code".as_slice());
    assert_eq!(fs.files.len(), 1);
}

#[test]
fn malformed_archive_fails_and_changes_nothing() {
    let bytes = b"this is not a zip archive".to_vec();
    let entry = settings::BepinexMod::new(
        String::from("http://x/a.zip"),
        vec![vec![String::from("*"), String::from("plugins")]],
    );
    let mut fs = FsModel::new();
    let r = fs.install_manifest_entry(&bytes, &entry);
    assert_eq!(r, Err(InstallError::BadArchive));
    assert_eq!(fs.files.len(), 0);
}

#[test]
fn directory_entries_are_not_placed_as_files() {
    let bytes = make_zip(&["plugins-dir"], &[("a.txt", b"x".as_slice())]);
    let entry = settings::BepinexMod::new(
        String::from("http://x/a.zip"),
        vec![vec![String::from("*"), String::from("dest")]],
    );
    let mut fs = FsModel::new();
    fs.install_manifest_entry(&bytes, &entry).unwrap();
    assert_eq!(fs.files.len(), 1);
    assert!(fs.contains_path(&cs("dest/a.txt")));
}

#[test]
fn directory_entries_are_mapped_like_files() {
    let bytes = make_zip(
        &["BepInExPack_Valheim/BepInEx", "elsewhere"],
        &[("BepInExPack_Valheim/a.txt", b"x".as_slice())],
    );
    let entries = modloader::archive::decode_archive(&bytes).unwrap();
    let from = Some("BepInExPack_Valheim".chars().collect::<Vec<char>>());
    let dest: Vec<char> = Vec::new();
    let dirs = modloader::archive::place_dirs(&entries, &from, &dest);
    let dirs: Vec<String> = dirs.iter().map(|d| d.iter().collect()).collect();
    assert_eq!(dirs, vec!["BepInEx/".to_string()]);
}

#[test]
fn pair_without_two_elements_is_skipped() {
    let bytes = make_zip(&[], &[("a.txt", b"x".as_slice())]);
    let entry = settings::BepinexMod::new(
        String::from("http://x/a.zip"),
        vec![vec![String::from("only-one")]],
    );
    let mut fs = FsModel::new();
    fs.install_manifest_entry(&bytes, &entry).unwrap();
    assert_eq!(fs.files.len(), 0);
}

#[test]
fn later_mapping_overwrites_earlier_write_to_same_path() {
    let bytes = make_zip(&[], &[("a.txt", b"first".as_slice())]);
    let entry = settings::BepinexMod::new(
        String::from("http://x/a.zip"),
        vec![
            vec![String::from("*"), String::from("dest")],
            vec![String::from("*"), String::from("dest")],
        ],
    );
    let mut fs = FsModel::new();
    fs.install_manifest_entry(&bytes, &entry).unwrap();
    assert_eq!(fs.files.len(), 1);
    assert_eq!(fs.read(&cs("dest/a.txt")).unwrap().as_slice(), b"first".as_slice());
}
