use autograd::grep::{search, Config};

#[test]
fn search_returns_one_result() {
    let query = "duct";
    let contents = "\
Rust:
safe, fast, productive.
Pick three.";

    assert_eq!(vec!["safe, fast, productive."], search(query, contents));
}

#[test]
fn search_returns_no_results() {
    let query = "monomorphization";
    let contents = "\
Rust:
safe, fast, productive.
Pick three.";

    let expected_res: Vec<&str> = vec![];
    assert_eq!(expected_res, search(query, contents));
}

#[test]
fn search_keeps_order_and_strips_line_endings() {
    let contents = "ab\r\nxab\ncd\nab\n";
    assert_eq!(vec!["ab", "xab", "ab"], search("ab", contents));
    assert_eq!(vec!["ab", "xab", "cd", "ab"], search("", contents));
}

#[test]
fn grep_config_needs_three_arguments() {
    let args = vec!["prog".to_string(), "q".to_string()];
    assert_eq!(Config::build(&args).err(), Some("not enough arguments"));
    let args = vec!["prog".to_string(), "q".to_string(), "f.txt".to_string()];
    let c = Config::build(&args).ok().unwrap();
    assert_eq!(c.query, "q");
    assert_eq!(c.file_path, "f.txt");
}
