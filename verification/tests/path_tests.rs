use worksentry::extensions::is_text_file;
use worksentry::path_utils::{get_extension, get_file_name, normalize_path};

#[test]
fn test_is_text_file_extensions() {
    let test_cases = vec![
        ("file.txt", true),
        ("file.md", true),
        ("file.json", true),
        ("file.rs", true),
        ("file.py", true),
        ("file.js", true),
        ("file.png", false),
        ("file.jpg", false),
        ("file.exe", false),
        ("file.zip", false),
    ];

    for (filename, expected) in test_cases {
        let result = is_text_file(filename);
        assert_eq!(result, expected, "Failed for {}", filename);
    }
}

#[test]
fn test_path_normalization() {
    assert_eq!(normalize_path("C:\\Users\\test"), "C:\\Users\\test");
    assert_eq!(normalize_path("/home/user"), "/home/user");
}

#[test]
fn test_get_file_name() {
    assert_eq!(get_file_name("/home/user/file.txt"), "file.txt");
    assert_eq!(get_file_name("C:\\Users\\test.txt"), "test.txt");
    assert_eq!(get_file_name(""), "");
}

#[test]
fn test_get_extension() {
    assert_eq!(get_extension("file.txt"), "txt");
    assert_eq!(get_extension("file.tar.gz"), "gz");
    assert_eq!(get_extension("file"), "");
}
