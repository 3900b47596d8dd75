use mavri::config_reader::reader::{ConfigError, ConfigReader};

fn lines(v: &[&str]) -> Vec<String> {
    v.iter().map(|s| s.to_string()).collect()
}

#[test]
fn default_config() {
    let config = ConfigReader::default();
    assert_eq!(config.get_path_to_static(), ".");
    assert_eq!(config.get_port(), 80);
    assert!(config.get_cpu_count() >= 1);
}

#[test]
fn read_lines_sets_keys() {
    let ls = lines(&["listen 8080", "document_root /var/www", "cpu_limit 4", "thread_limit 10"]);
    assert!(ConfigReader::lines_are_well_formed(&ls));
    let config = ConfigReader::read_lines(&ls).unwrap();
    assert_eq!(config.get_port(), 8080);
    assert_eq!(config.get_path_to_static(), "/var/www");
    assert_eq!(config.get_cpu_count(), 4);
}

#[test]
fn empty_file_gives_defaults() {
    let config = ConfigReader::read_lines(&Vec::new()).unwrap();
    assert_eq!(config.get_port(), 80);
    assert_eq!(config.get_path_to_static(), ".");
}

#[test]
fn unknown_key_is_rejected() {
    let ls = lines(&["listen 8080", "user nobody"]);
    assert!(ConfigReader::lines_are_well_formed(&ls));
    assert_eq!(ConfigReader::read_lines(&ls).err(), Some(ConfigError::InvalidData));
}

#[test]
fn later_line_wins() {
    let ls = lines(&["listen 1", "listen 2"]);
    assert_eq!(ConfigReader::read_lines(&ls).unwrap().get_port(), 2);
}

#[test]
fn values_stop_at_second_space_and_line_feeds() {
    let ls = lines(&["listen 81 extra", "document_root /srv\n\n"]);
    let config = ConfigReader::read_lines(&ls).unwrap();
    assert_eq!(config.get_port(), 81);
    assert_eq!(config.get_path_to_static(), "/srv");
}

#[test]
fn plus_sign_is_accepted() {
    let ls = lines(&["listen +90"]);
    assert_eq!(ConfigReader::read_lines(&ls).unwrap().get_port(), 90);
}

#[test]
fn malformed_lines() {
    assert!(!ConfigReader::lines_are_well_formed(&lines(&["listen"])));
    assert!(!ConfigReader::lines_are_well_formed(&lines(&["listen abc"])));
    assert!(!ConfigReader::lines_are_well_formed(&lines(&["listen -1"])));
    assert!(!ConfigReader::lines_are_well_formed(&lines(&["listen +"])));
    assert!(!ConfigReader::lines_are_well_formed(&lines(&["listen  80"])));
    assert!(!ConfigReader::lines_are_well_formed(&lines(&["cpu_limit 99999999999999999999999"])));
    assert!(!ConfigReader::lines_are_well_formed(&lines(&[""])));
    assert!(!ConfigReader::lines_are_well_formed(&lines(&["listen 80", "nospace"])));
}

#[test]
fn unknown_key_stops_before_malformed_line() {
    assert!(ConfigReader::lines_are_well_formed(&lines(&["user nobody", "listen abc"])));
    assert!(ConfigReader::lines_are_well_formed(&lines(&["document_root x"])));
}

#[test]
fn apply_lines_to_given_config() {
    let base = ConfigReader::read_lines(&lines(&["listen 1000"])).unwrap();
    let config = ConfigReader::apply_lines(base, &lines(&["cpu_limit 3"])).unwrap();
    assert_eq!(config.get_port(), 1000);
    assert_eq!(config.get_cpu_count(), 3);
}

#[test]
fn last_line_for_each_key_wins() {
    let ls = lines(&[
        "document_root /a",
        "cpu_limit 2",
        "document_root /b",
        "listen 8000",
        "cpu_limit 6",
    ]);
    let config = ConfigReader::read_lines(&ls).unwrap();
    assert_eq!(config.get_path_to_static(), "/b");
    assert_eq!(config.get_cpu_count(), 6);
    assert_eq!(config.get_port(), 8000);
    let config = ConfigReader::read_lines(&lines(&["cpu_limit 2"])).unwrap();
    assert_eq!(config.get_path_to_static(), ".");
    assert_eq!(config.get_port(), 80);
}

#[test]
fn unset_keys_keep_defaults() {
    let config = ConfigReader::read_lines(&lines(&["listen 9000"])).unwrap();
    assert_eq!(config.get_port(), 9000);
    assert_eq!(config.get_path_to_static(), ".");
    assert_eq!(config.get_cpu_count(), ConfigReader::default().get_cpu_count());
}
