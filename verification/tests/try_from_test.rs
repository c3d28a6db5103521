use dust::download::Task;
use dust::download::Url;
use dust::error::Error;

const EXAMPLE_URL: &str = "http://212.183.159.230/100MB.zip";

#[test]
fn try_from_str_test() {
    let result = Task::try_from(EXAMPLE_URL);
    assert!(result.is_ok());
}

#[test]
fn try_from_url_test() {
    let result = Task::try_from(&Url::parse(EXAMPLE_URL).unwrap());
    assert!(result.is_ok());
}

#[test]
fn try_from_keeps_the_final_segment() {
    let task = Task::try_from("http://example.com/dir/file.txt").unwrap();
    assert_eq!(task.filename(), "file.txt");
    assert_eq!(task.url().as_str(), "http://example.com/dir/file.txt");
}

#[test]
fn try_from_trailing_slash_is_invalid() {
    let result = Task::try_from("http://example.com/dir/");
    assert!(matches!(result, Err(Error::InvalidURL(_))));
}

#[test]
fn try_from_no_path_segment_is_invalid() {
    let result = Task::try_from("http://example.com");
    assert!(matches!(result, Err(Error::InvalidURL(_))));
}

#[test]
fn try_from_malformed_is_a_parse_error() {
    let result = Task::try_from("not a url");
    assert!(matches!(result, Err(Error::ParseURL(_))));
}

#[test]
fn try_from_malformed_with_slash_is_a_parse_error() {
    let result = Task::try_from("no scheme/");
    assert!(matches!(result, Err(Error::ParseURL(_))));
}

#[test]
fn new_keeps_url_and_filename() {
    let url = Url::parse(EXAMPLE_URL).unwrap();
    let task = Task::new(&url, "out.bin").unwrap();
    assert_eq!(task.filename(), "out.bin");
    assert_eq!(task.url().as_str(), EXAMPLE_URL);
}

#[test]
fn new_rejects_an_empty_filename() {
    let url = Url::parse(EXAMPLE_URL).unwrap();
    let result = Task::new(&url, "");
    assert!(matches!(result, Err(Error::InvalidURL(_))));
}
