use focus::paths::{
    domains_file_for, domains_file_in, focus_dir_for, focus_dir_in, get_domains_file,
    get_focus_dir, DOMAINS_FILE_NAME, FOCUS_DIR_NAME,
};
use std::path::{Path, PathBuf};

#[test]
fn names_below_the_home_directory() {
    assert_eq!(FOCUS_DIR_NAME, ".focus");
    assert_eq!(DOMAINS_FILE_NAME, "domains.txt");
}

#[test]
fn the_directory_is_joined_to_the_home_directory() {
    for home in ["/home/alice", "/home/alice/", "/", "", "relative/home", "/home/ünï"] {
        assert_eq!(PathBuf::from(focus_dir_in(home)), Path::new(home).join(".focus"));
        assert_ne!(focus_dir_in(home), home);
    }
}

#[test]
fn the_domain_list_is_joined_to_the_directory() {
    for home in ["/home/alice", "/home/alice/", "/", "", "relative/home", "/home/ünï"] {
        assert_eq!(
            PathBuf::from(domains_file_in(home)),
            Path::new(home).join(".focus").join("domains.txt")
        );
        assert_ne!(domains_file_in(home), focus_dir_in(home));
    }
}

#[test]
fn the_domain_list_of_alice() {
    let file = PathBuf::from(domains_file_in("/home/alice"));
    let parts: Vec<String> =
        file.components().map(|part| part.as_os_str().to_string_lossy().into_owned()).collect();
    assert_eq!(&parts[parts.len() - 4..], ["home", "alice", ".focus", "domains.txt"]);
}

#[test]
fn the_user_s_paths_follow_the_home_directory() {
    let home = dirs::home_dir().and_then(|home| home.to_str().map(|home| home.to_string()));
    match home {
        Some(home) => {
            assert_eq!(get_focus_dir(), Some(focus_dir_in(&home)));
            assert_eq!(get_domains_file(), Some(domains_file_in(&home)));
            assert_eq!(get_focus_dir(), focus_dir_for(Some(home.clone())));
            assert_eq!(get_domains_file(), domains_file_for(Some(home)));
        }
        None => {
            assert_eq!(get_focus_dir(), None);
            assert_eq!(get_domains_file(), None);
        }
    }
}

#[test]
fn without_a_home_directory_there_are_no_paths() {
    assert_eq!(focus_dir_for(None), None);
    assert_eq!(domains_file_for(None), None);
}

#[test]
fn with_a_home_directory_the_paths_lie_below_it() {
    for home in ["/home/alice", "/", "", "relative/home"] {
        assert_eq!(focus_dir_for(Some(home.to_string())), Some(focus_dir_in(home)));
        assert_eq!(domains_file_for(Some(home.to_string())), Some(domains_file_in(home)));
        assert_eq!(
            domains_file_for(Some(home.to_string())).map(PathBuf::from),
            Some(Path::new(home).join(".focus").join("domains.txt"))
        );
    }
}
