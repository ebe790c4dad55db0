use modloader::registry::parse_install_paths;

fn cs(s: &str) -> Vec<char> {
    s.chars().collect()
}

fn to_string(v: &Vec<char>) -> String {
    v.iter().collect()
}

#[test]
fn registry_query_output_yields_install_path() {
    let output = cs(
        "\r\nHKEY_LOCAL_MACHINE\\SOFTWARE\\WOW6432Node\\Valve\\Steam\r\n    InstallPath    REG_SZ    C:\\Program Files (x86)\\Steam\r\n\r\n",
    );
    let candidates = parse_install_paths(&output);
    assert_eq!(candidates.len(), 1);
    assert_eq!(to_string(&candidates[0]), "C:\\Program Files (x86)\\Steam");
}

#[test]
fn registry_lines_without_both_keys_are_skipped() {
    let output = cs("    InstallPath    REG_DWORD    0x1\r\n    OtherValue    REG_SZ    C:\\Elsewhere\r\n");
    let candidates = parse_install_paths(&output);
    assert_eq!(candidates.len(), 0);
}

#[test]
fn registry_value_is_trimmed() {
    let output = cs("    InstallPath    REG_SZ       D:\\Steam   \r\n");
    let candidates = parse_install_paths(&output);
    assert_eq!(candidates.len(), 1);
    assert_eq!(to_string(&candidates[0]), "D:\\Steam");
}
