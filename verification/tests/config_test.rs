use dust::download::Config;
use dust::download::Task;

#[test]
fn config_keeps_its_path() {
    let config = Config::new(String::from("downloads/"));
    assert_eq!(config.path(), "downloads/");
}

#[test]
fn destination_concatenates_path_and_filename() {
    let config = Config::new(String::from("downloads/"));
    let task = Task::try_from("http://example.com/archive.zip").unwrap();
    assert_eq!(task.destination(&config), "downloads/archive.zip");
}

#[test]
fn destination_inserts_no_separator() {
    let config = Config::new(String::from("downloads"));
    let task = Task::try_from("http://example.com/archive.zip").unwrap();
    assert_eq!(task.destination(&config), "downloadsarchive.zip");
}
