use beam_search::file_handling::{
    retrive_dir_name_vec, retrive_file_name_vec, retrive_name_vec_with_pattern_match,
    try_retrive_name_vec_with_pattern_match,
};
use beam_search::find_files::{
    get_file_names, get_folder_names, get_names_with_pattern_match,
    try_get_names_with_pattern_match, FsEntry,
};

fn dir_entry(name: &str) -> FsEntry {
    FsEntry { name: name.to_string(), is_dir: true, is_file: false }
}

fn file_entry(name: &str) -> FsEntry {
    FsEntry { name: name.to_string(), is_dir: false, is_file: true }
}

#[test]
fn test_retrive_folder_names() {
    let expect = vec!["0001", "0002", "0003", "annotation"];
    let expect = expect.iter().map(|&a| a.to_string()).collect::<Vec<String>>();

    let entries = vec![
        dir_entry("0001"),
        dir_entry("0002"),
        dir_entry("0003"),
        dir_entry("annotation"),
        file_entry("1.txt"),
        file_entry("2.txt"),
    ];
    let names = retrive_dir_name_vec(&entries);
    assert_eq!(expect, names);
}

#[test]
fn test_retrive_file_names() {
    let entries = vec![file_entry("Cargo.toml"), dir_entry("src"), dir_entry("test-data")];
    let names = retrive_file_name_vec(&entries);
    assert_eq!(vec!["Cargo.toml".to_string()], names);
}

#[test]
fn test_retrive_names_with_pattern_match() {
    let expect = vec!["0001", "0002", "0003"];
    let expect = expect.iter().map(|&a| a.to_string()).collect::<Vec<String>>();

    let entries = vec![
        dir_entry("0001"),
        dir_entry("0002"),
        dir_entry("0003"),
        dir_entry("annotation"),
    ];
    let names = retrive_dir_name_vec(&entries);
    let regex = r"\d{4}";
    let names = retrive_name_vec_with_pattern_match(names, regex);
    assert_eq!(expect, names);
}

#[test]
fn test_get_folder_names() {
    let entries = vec![
        dir_entry("0001"),
        dir_entry("0002"),
        dir_entry("0003"),
        dir_entry("hoge"),
        file_entry("Cargo.toml"),
    ];
    let names = get_folder_names(&entries);
    assert_eq!(vec!["0001", "0002", "0003", "hoge"], names);
}

#[test]
fn test_get_file_names() {
    let entries = vec![file_entry("Cargo.toml"), dir_entry("src"), dir_entry("test-data")];
    let names = get_file_names(&entries);
    assert_eq!(vec!["Cargo.toml"], names);
}

#[test]
fn test_get_names_with_pattern_match() {
    let names = vec![
        "0001".to_string(),
        "0002".to_string(),
        "0003".to_string(),
        "hoge".to_string(),
    ];
    let regex = r"\d{4}";
    let names = get_names_with_pattern_match(names, regex);
    assert_eq!(vec!["0001", "0002", "0003"], names);
}

#[test]
fn test_pattern_match_rejects_invalid_pattern() {
    let names = vec!["0001".to_string()];
    assert_eq!(try_get_names_with_pattern_match(names.clone(), "("), None);
    assert_eq!(try_retrive_name_vec_with_pattern_match(names, "("), None);
}

#[test]
fn test_pattern_match_checked_filters() {
    let names = vec!["alpha".to_string(), "beta".to_string(), "gamma".to_string()];
    let got = try_get_names_with_pattern_match(names.clone(), "a$").unwrap();
    assert_eq!(got, vec!["alpha".to_string(), "beta".to_string(), "gamma".to_string()]);
    let got = try_get_names_with_pattern_match(names.clone(), "^b").unwrap();
    assert_eq!(got, vec!["beta".to_string()]);
    let got = try_retrive_name_vec_with_pattern_match(names, "zzz").unwrap();
    assert_eq!(got, Vec::<String>::new());
}
