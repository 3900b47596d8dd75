use mavri::file_handler::handler::FileHandler;

#[test]
fn locate_file() {
    let mut uri = "/index.html".to_string();
    let (full, is_dir) = FileHandler::locate("/www", &mut uri).unwrap();
    assert_eq!(full, "/www/index.html");
    assert!(!is_dir);
    assert_eq!(uri, "/index.htm");
}

#[test]
fn locate_directory_serves_index() {
    let mut uri = "/dir/".to_string();
    let (full, is_dir) = FileHandler::locate("/www", &mut uri).unwrap();
    assert_eq!(full, "/www/dir/index.html");
    assert!(is_dir);
    assert_eq!(uri, "/dir");
}

#[test]
fn locate_empty_path() {
    let mut uri = String::new();
    let (full, is_dir) = FileHandler::locate("/www", &mut uri).unwrap();
    assert_eq!(full, "/www");
    assert!(is_dir);
    assert_eq!(uri, "");
}

#[test]
fn locate_refuses_parent_steps() {
    let mut uri = "/../etc/passwd".to_string();
    assert!(FileHandler::locate("/www", &mut uri).is_none());
    assert_eq!(uri, "/../etc/passwd");
    let mut uri = "/a/..".to_string();
    assert!(FileHandler::locate("/www", &mut uri).is_none());
    let mut uri = "/a..b".to_string();
    assert!(FileHandler::locate("/www", &mut uri).is_some());
}

#[test]
fn locate_multibyte_last_char() {
    let mut uri = "/é".to_string();
    let (full, is_dir) = FileHandler::locate("/www", &mut uri).unwrap();
    assert_eq!(full, "/www/é");
    assert!(!is_dir);
    assert_eq!(uri, "/");
}

#[test]
fn finish_lookup_found_and_missing() {
    let found = FileHandler::finish_lookup("/www/a.txt".to_string(), false, Some(5)).unwrap();
    assert_eq!(found, (5, "/www/a.txt".to_string(), "txt".to_string()));
    assert_eq!(FileHandler::finish_lookup("/www/b.txt".to_string(), false, None), Err(false));
    assert_eq!(FileHandler::finish_lookup("/www/index.html".to_string(), true, None), Err(true));
}

#[test]
fn try_finish_lookup_without_extension() {
    assert_eq!(FileHandler::try_finish_lookup("/www/README".to_string(), false, Some(3)), None);
    assert_eq!(
        FileHandler::try_finish_lookup("/www/README".to_string(), false, None),
        Some(Err(false))
    );
    assert_eq!(
        FileHandler::try_finish_lookup("/www/x.tar.gz".to_string(), false, Some(3)),
        Some(Ok((3, "/www/x.tar.gz".to_string(), "gz".to_string())))
    );
}

#[test]
fn extensions() {
    assert!(FileHandler::has_extension("/www/a.png"));
    assert!(!FileHandler::has_extension("/www/.hidden"));
    assert!(!FileHandler::has_extension("/www/dir"));
}
