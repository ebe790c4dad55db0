use modloader::locate::{
    assemble_libraries, find_game_in_libraries, first_present, first_steamapps_dir, game_dir_path,
    linux_candidates, macos_candidates, steamapps_probe, windows_drive_candidates,
    windows_fixed_candidates,
};
use modloader::text::split_last_segment;

fn cs(s: &str) -> Vec<char> {
    s.chars().collect()
}

fn to_string(v: &Vec<char>) -> String {
    v.iter().collect()
}

#[test]
fn windows_fixed_candidates_are_the_two_program_files_paths() {
    let c = windows_fixed_candidates();
    assert_eq!(c.len(), 2);
    assert_eq!(to_string(&c[0]), "C:\\Program Files (x86)\\Steam");
    assert_eq!(to_string(&c[1]), "C:\\Program Files\\Steam");
}

#[test]
fn windows_drive_candidates_cover_every_drive_letter() {
    let c = windows_drive_candidates();
    assert_eq!(c.len(), 48);
    assert_eq!(to_string(&c[0]), "C:\\Steam");
    assert_eq!(to_string(&c[1]), "C:\\Program Files (x86)\\Steam");
    assert_eq!(to_string(&c[46]), "Z:\\Steam");
    assert_eq!(to_string(&c[47]), "Z:\\Program Files (x86)\\Steam");
}

#[test]
fn windows_probe_order_is_fixed_then_registry_then_drives() {
    let registry = vec![cs("E:\\SteamFromRegistry")];
    let order = modloader::locate::windows_probe_order(&registry);
    assert_eq!(order.len(), 2 + 1 + 48);
    assert_eq!(to_string(&order[0]), "C:\\Program Files (x86)\\Steam");
    assert_eq!(to_string(&order[1]), "C:\\Program Files\\Steam");
    assert_eq!(to_string(&order[2]), "E:\\SteamFromRegistry");
    assert_eq!(to_string(&order[3]), "C:\\Steam");
    assert_eq!(to_string(&order[50]), "Z:\\Program Files (x86)\\Steam");
}

#[test]
fn macos_candidate_sits_under_home() {
    let c = macos_candidates(&cs("/Users/someone"));
    assert_eq!(c.len(), 1);
    assert_eq!(to_string(&c[0]), "/Users/someone/Library/Application Support/Steam");
}

#[test]
fn linux_candidates_include_sandboxed_install() {
    let c = linux_candidates(&cs("/home/someone"));
    assert_eq!(c.len(), 3);
    assert_eq!(to_string(&c[0]), "/home/someone/.steam/steam");
    assert_eq!(to_string(&c[1]), "/home/someone/.local/share/Steam");
    assert_eq!(
        to_string(&c[2]),
        "/home/someone/.var/app/com.valvesoftware.Steam/.local/share/Steam"
    );
}

#[test]
fn steamapps_probe_joins_the_marker_directory() {
    assert_eq!(to_string(&steamapps_probe(&cs("C:\\Steam"))), "C:\\Steam/steamapps");
}

#[test]
fn first_present_picks_first_hit() {
    assert_eq!(first_present(&vec![false, true, true]), Some(1));
    assert_eq!(first_present(&vec![true, false]), Some(0));
    assert_eq!(first_present(&vec![false, false]), None);
    assert_eq!(first_present(&vec![]), None);
}

#[test]
fn assemble_libraries_keeps_primary_first_and_usable_paths_in_order() {
    let primary = cs("C:\\Steam");
    let parsed = vec![cs("D:\\SteamLibrary"), cs("E:\\Broken"), cs("F:\\Games")];
    let usable = vec![true, false, true];
    let libs = assemble_libraries(&primary, &parsed, &usable);
    assert_eq!(libs.len(), 3);
    assert_eq!(to_string(&libs[0]), "C:\\Steam");
    assert_eq!(to_string(&libs[1]), "D:\\SteamLibrary");
    assert_eq!(to_string(&libs[2]), "F:\\Games");
}

#[test]
fn game_dir_path_builds_the_common_path() {
    assert_eq!(
        to_string(&game_dir_path(&cs("D:\\SteamLibrary"), &cs("Valheim"))),
        "D:\\SteamLibrary/steamapps/common/Valheim"
    );
}

#[test]
fn find_game_takes_first_library_with_the_game() {
    // The located directory is always `<library>/steamapps/common/<game>`
    // for the first library, in discovery order, where it is present.
    let libs = vec![cs("C:\\Steam"), cs("D:\\SteamLibrary"), cs("F:\\Games")];
    let present = vec![false, true, true];
    let hit = find_game_in_libraries(&libs, &cs("Valheim"), &present).unwrap();
    assert_eq!(to_string(&hit), "D:\\SteamLibrary/steamapps/common/Valheim");
}

#[test]
fn split_last_segment_divides_at_the_last_separator() {
    let (dir, base) = split_last_segment(&cs("D:/Games/Steam/steamapps"));
    assert_eq!(to_string(&dir), "D:/Games/Steam");
    assert_eq!(to_string(&base), "steamapps");
    let (dir, base) = split_last_segment(&cs("steamapps"));
    assert_eq!(to_string(&dir), "");
    assert_eq!(to_string(&base), "steamapps");
}

#[test]
fn walk_pick_takes_first_directory_named_steamapps() {
    let dirs = vec![
        cs("D:/Games"),
        cs("D:/Games/steamapps-old"),
        cs("D:/Games/Steam/steamapps"),
        cs("D:/Other/steamapps"),
    ];
    assert_eq!(first_steamapps_dir(&dirs), Some(2));
    assert_eq!(first_steamapps_dir(&vec![cs("D:/Games")]), None);
}

#[test]
fn find_game_reports_not_found_when_no_library_has_it() {
    let libs = vec![cs("C:\\Steam")];
    let present = vec![false];
    assert!(find_game_in_libraries(&libs, &cs("Valheim"), &present).is_none());
}
