use luafmt::file_names::{has_extension, has_prefix, is_config_file_name};

#[test]
fn test_config_file_names() {
    assert!(is_config_file_name(".luafmt.lua", ".luafmt", "lua"));
    assert!(is_config_file_name(".luafmt_project.lua", ".luafmt", "lua"));
    assert!(!is_config_file_name(".luafmt", ".luafmt", "lua"));
    assert!(!is_config_file_name(".luafmt.luac", ".luafmt", "lua"));
    assert!(!is_config_file_name("luafmt.lua", ".luafmt", "lua"));
    assert!(!is_config_file_name(".lua", ".lua", "lua"));
}

#[test]
fn test_file_extensions() {
    assert!(has_extension("a.lua", "lua"));
    assert!(has_extension("a.b.lua", "lua"));
    assert!(!has_extension("a.lua.txt", "lua"));
    assert!(!has_extension(".lua", "lua"));
    assert!(!has_extension("lua", "lua"));
    assert!(has_extension("a.", ""));
    assert!(!has_extension("a", ""));
    assert!(has_prefix("abc", "ab"));
    assert!(!has_prefix("a", "ab"));
}
