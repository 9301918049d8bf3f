use network_time_simulator::cstr::is_valid_cstr_contents;
use network_time_simulator::{last_failure, validate_cstr_contents, Config, ConfigError, Removal};

const MINI: &str = r#"
nb_follower = 2
qname = "some_queue"
random_number = 123

[executables]
[[executables.exe]]
name = "client"
path = "examples/miniP/client"
args = ["./client", "-i", "127.0.0.1", "-p", "4443"]

[[executables.exe]]
name = "server"
path = "examples/miniP/server"
args = ["./server", "-i", "127.0.0.1", "-p", "4443"]
"#;

fn strings(v: &[&str]) -> Vec<String> {
    v.iter().map(|s| s.to_string()).collect()
}

#[test]
fn simple_config() {
    let cfg = Config::from(MINI).unwrap();
    assert_eq!(cfg.nb_follower, 2);
    assert_eq!(cfg._qname, "some_queue");
    assert_eq!(cfg.random_number, 123);
    assert_eq!(cfg.exe.len(), 2);
    assert_eq!(cfg.exe[0].name, "client");
    assert_eq!(cfg.exe[0].path, "examples/miniP/client");
    assert_eq!(cfg.exe[0].args, strings(&["./client", "-i", "127.0.0.1", "-p", "4443"]));
    assert_eq!(cfg.exe[1].name, "server");
    assert_eq!(cfg.exe[1].path, "examples/miniP/server");
    assert_eq!(cfg.exe[1].args, strings(&["./server", "-i", "127.0.0.1", "-p", "4443"]));
    assert_eq!(cfg.graph, None);
}

#[test]
fn missing_values_take_defaults() {
    let cfg = Config::from("graph = \"topo.gml\"\n").unwrap();
    assert_eq!(cfg.nb_follower, 0);
    assert_eq!(cfg._qname, "");
    assert_eq!(cfg.random_number, 0);
    assert_eq!(cfg.exe.len(), 0);
    assert_eq!(cfg.graph, Some("topo.gml".to_string()));
}

#[test]
fn incomplete_executables_are_skipped() {
    let text = r#"
[[executables.exe]]
name = "no path"

[[executables.exe]]
name = "a"
path = "b"
args = ["x", 3, "y"]

[[executables.exe]]
path = "no name"
"#;
    let cfg = Config::from(text).unwrap();
    assert_eq!(cfg.exe.len(), 1);
    assert_eq!(cfg.exe[0].name, "a");
    assert_eq!(cfg.exe[0].args, strings(&["x", "y"]));
}

#[test]
fn wrongly_typed_values_take_defaults() {
    let cfg = Config::from("nb_follower = \"three\"\nqname = 4\n").unwrap();
    assert_eq!(cfg.nb_follower, 0);
    assert_eq!(cfg._qname, "");
}

#[test]
fn config_errors() {
    assert_eq!(Config::from("nb_follower = = 2").err(), Some(ConfigError::Toml));
    let nul = "[[executables.exe]]\nname = \"a\\u0000b\"\npath = \"p\"\n";
    assert_eq!(Config::from(nul).err(), Some(ConfigError::InteriorNul));
}

#[test]
fn default_config() {
    let cfg = Config::default_config();
    assert_eq!(cfg.nb_follower, 2);
    assert_eq!(cfg._qname, "/nts_test");
    assert_eq!(cfg.random_number, 84);
    assert_eq!(cfg.exe[0].path, "./client");
    assert_eq!(cfg.exe[1].args, strings(&["./server", "-i", "127.0.0.1", "-p", "4443"]));
}

#[test]
fn cstr_contents() {
    validate_cstr_contents(b"./client");
    assert!(is_valid_cstr_contents(b"-p"));
    assert!(!is_valid_cstr_contents(b"a\0b"));
    assert!(is_valid_cstr_contents(b""));
}

#[test]
fn unconverted_texts_are_not_checked() {
    let no_name = "[[executables.exe]]\npath = \"p\\u0000q\"\nargs = [\"a\\u0000\"]\n";
    assert_eq!(Config::from(no_name).unwrap().exe.len(), 0);
    let no_path = "[[executables.exe]]\nname = \"n\"\nargs = [\"a\\u0000\"]\n";
    assert_eq!(Config::from(no_path).unwrap().exe.len(), 0);
    let bad_path = "[[executables.exe]]\nname = \"n\"\npath = \"p\\u0000\"\n";
    assert_eq!(Config::from(bad_path).err(), Some(ConfigError::InteriorNul));
    let bad_arg = "[[executables.exe]]\nname = \"n\"\npath = \"p\"\nargs = [\"a\\u0000\"]\n";
    assert_eq!(Config::from(bad_arg).err(), Some(ConfigError::InteriorNul));
}

#[test]
fn the_last_failed_removal_decides() {
    assert_eq!(last_failure(&vec![]), None);
    assert_eq!(last_failure(&vec![Removal::Removed, Removal::NotFound]), None);
    assert_eq!(
        last_failure(&vec![Removal::Failed, Removal::Removed, Removal::Failed, Removal::NotFound]),
        Some(2)
    );
}
