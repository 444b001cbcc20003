use pj::config::{Config, ConfigError};
use pj::paths::join_path;

#[test]
fn the_default_settings() {
    let c = Config::default();
    assert_eq!(c.editor, "code");
    assert!(c.cd_on_select);
    assert!(c.git_init_on_add);
    assert!(!c.gh_create_on_add);
}

#[test]
fn settings_are_cloned_field_by_field() {
    let c = Config {
        editor: "nvim".to_string(),
        cd_on_select: false,
        git_init_on_add: true,
        gh_create_on_add: true,
    };
    assert_eq!(c.clone(), c);
}

#[test]
fn the_documents_lie_in_a_directory_below_home() {
    assert_eq!(Config::pj_dir_in("/home/u"), "/home/u/.pj");
    assert_eq!(Config::config_path_in("/home/u"), "/home/u/.pj/config.toml");
    assert_eq!(Config::projects_path_in("/home/u"), "/home/u/.pj/projects.json");
}

#[test]
fn a_home_that_ends_in_a_slash_gets_no_second_one() {
    assert_eq!(Config::pj_dir_in("/home/u/"), "/home/u/.pj");
    assert_eq!(Config::config_path_in("/"), "/.pj/config.toml");
    assert_eq!(Config::projects_path_in("/home/u/"), "/home/u/.pj/projects.json");
}

#[test]
fn join_path_puts_one_slash_between_directory_and_entry() {
    assert_eq!(join_path("/a", "b"), "/a/b");
    assert_eq!(join_path("/a/", "b"), "/a/b");
    assert_eq!(join_path("", "b"), "b");
    assert_eq!(join_path("/", ".git"), "/.git");
    assert_eq!(join_path("a", "b/c"), "a/b/c");
    assert_eq!(join_path("/a", ""), "/a/");
}

#[test]
fn join_path_agrees_with_std_on_relative_entries() {
    for base in ["/home/u", "/home/u/", "/", "", "rel", "rel/"] {
        for name in [".pj", "config.toml", ".config/fish/config.fish", ".git"] {
            let expected = std::path::Path::new(base).join(name);
            assert_eq!(join_path(base, name), expected.to_string_lossy());
        }
    }
}

#[test]
fn the_paths_of_this_user_lie_below_one_home() {
    match (Config::pj_dir(), Config::config_path(), Config::projects_path()) {
        (Ok(dir), Ok(config), Ok(projects)) => {
            assert!(dir.ends_with(".pj"));
            assert_eq!(config, join_path(&dir, "config.toml"));
            assert_eq!(projects, join_path(&dir, "projects.json"));
        }
        (Err(a), Err(b), Err(c)) => {
            assert_eq!(a, ConfigError::NoHomeDirectory);
            assert_eq!(b, ConfigError::NoHomeDirectory);
            assert_eq!(c, ConfigError::NoHomeDirectory);
        }
        _ => panic!("one home directory was found and another was not"),
    }
}

#[test]
fn a_missing_home_is_said_in_words() {
    assert_eq!(ConfigError::NoHomeDirectory.message(), "Could not find home directory");
}

#[test]
fn the_documents_follow_the_home_that_was_named() {
    let home = Some("/home/u".to_string());
    assert_eq!(Config::pj_dir_from(home.clone()), Ok("/home/u/.pj".to_string()));
    assert_eq!(Config::config_path_from(home.clone()), Ok("/home/u/.pj/config.toml".to_string()));
    assert_eq!(Config::projects_path_from(home), Ok("/home/u/.pj/projects.json".to_string()));
}

#[test]
fn without_a_home_there_is_no_place_for_the_documents() {
    assert_eq!(Config::pj_dir_from(None), Err(ConfigError::NoHomeDirectory));
    assert_eq!(Config::config_path_from(None), Err(ConfigError::NoHomeDirectory));
    assert_eq!(Config::projects_path_from(None), Err(ConfigError::NoHomeDirectory));
}
