use modloader::vdf::parse_library_paths;

fn cs(s: &str) -> Vec<char> {
    s.chars().collect()
}

fn to_string(v: &Vec<char>) -> String {
    v.iter().collect()
}

#[test]
fn parse_single_path_entry() {
    let content = cs("\"libraryfolders\"\n{\n\t\"0\"\n\t{\n\t\t\"path\"\t\t\"D:\\\\SteamLibrary\"\n\t}\n}\n");
    let paths = parse_library_paths(&content);
    assert_eq!(paths.len(), 1);
    assert_eq!(to_string(&paths[0]), "D:\\SteamLibrary");
}

#[test]
fn parse_counts_valid_entries_and_skips_malformed() {
    // Two well-formed path lines with malformed lines interspersed: the
    // scan yields exactly the two, in order, and never aborts.
    let content = cs(
        "\"libraryfolders\"\njunk line without structure\n\t\"path\"\t\"C:\\\\Program Files (x86)\\\\Steam\"\n\t\"path\" missing quotes entirely\n\t\"path\"\t\"E:\\\\Games\\\\Steam\"\n\t\"contentid\"\t\"12345\"\n",
    );
    let paths = parse_library_paths(&content);
    assert_eq!(paths.len(), 2);
    assert_eq!(to_string(&paths[0]), "C:\\Program Files (x86)\\Steam");
    assert_eq!(to_string(&paths[1]), "E:\\Games\\Steam");
}

#[test]
fn parse_collapses_doubled_backslashes() {
    let content = cs("\"path\" \"C:\\\\A\\\\B\"\n");
    let paths = parse_library_paths(&content);
    assert_eq!(paths.len(), 1);
    assert_eq!(to_string(&paths[0]), "C:\\A\\B");
}

#[test]
fn parse_line_missing_closing_quote_is_skipped() {
    let content = cs("\"path\" \"D:\\\\Unterminated\n\"path\" \"E:\\\\Ok\"\n");
    let paths = parse_library_paths(&content);
    assert_eq!(paths.len(), 1);
    assert_eq!(to_string(&paths[0]), "E:\\Ok");
}

#[test]
fn parse_empty_content_yields_nothing() {
    let content = cs("");
    let paths = parse_library_paths(&content);
    assert_eq!(paths.len(), 0);
}

#[test]
fn parse_accepts_unix_paths() {
    let content = cs("    \"path\"    \"/mnt/games/SteamLibrary\"\n");
    let paths = parse_library_paths(&content);
    assert_eq!(paths.len(), 1);
    assert_eq!(to_string(&paths[0]), "/mnt/games/SteamLibrary");
}
