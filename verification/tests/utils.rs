use task_tui::errors::Error;
use task_tui::utils::{get_filepath, search_dir};
use task_tui::Args;

#[test]
fn local_lookup_searches_the_current_directory() {
    let args = Args { global: false };
    assert_eq!(search_dir(&args, Some("/home/me"), "."), Ok("."));
    assert_eq!(search_dir(&args, None, "."), Ok("."));
}

#[test]
fn global_lookup_searches_the_home_directory() {
    let args = Args { global: true };
    assert_eq!(search_dir(&args, Some("/home/me"), "."), Ok("/home/me"));
}

#[test]
fn global_lookup_without_home_directory_fails() {
    let args = Args { global: true };
    assert_eq!(search_dir::<&str>(&args, None, "."), Err(Error::HomeDirUnavailable));
}

#[test]
fn first_existing_candidate_wins() {
    let found = get_filepath(vec![("./Taskfile.yml", true), ("./Taskfile.yaml", true)]);
    assert_eq!(found, Ok("./Taskfile.yml"));
    let found = get_filepath(vec![("./Taskfile.yml", false), ("./Taskfile.yaml", true)]);
    assert_eq!(found, Ok("./Taskfile.yaml"));
    let found = get_filepath(vec![("a", false), ("b", true), ("c", false), ("d", true)]);
    assert_eq!(found, Ok("b"));
    let found = get_filepath(vec![("a", false), ("b", false), ("c", false), ("d", true)]);
    assert_eq!(found, Ok("d"));
}

#[test]
fn no_existing_candidate_is_not_found() {
    let found = get_filepath(vec![("./Taskfile.yml", false), ("./Taskfile.yaml", false)]);
    assert_eq!(found, Err(Error::NotFound));
    assert_eq!(get_filepath(Vec::<(&str, bool)>::new()), Err(Error::NotFound));
}
