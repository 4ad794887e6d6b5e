use crabase::cli::{Command, kv_get, parse_command, parse_kv_args};
use crabase::error::CrabaseError;

fn args(xs: &[&str]) -> Vec<String> {
    xs.iter().map(|x| x.to_string()).collect()
}

#[test]
fn key_value_arguments_split_at_the_first_equals() {
    let kv = parse_kv_args(&args(&["file=a=b.base", "junk", "vault=/v", "file=c.base"]));
    assert_eq!(kv.len(), 3);
    assert_eq!(kv[0], ("file".to_string(), "a=b.base".to_string()));
    assert_eq!(kv_get(&kv, "file"), Some(&"c.base".to_string()));
    assert_eq!(kv_get(&kv, "vault"), Some(&"/v".to_string()));
    assert_eq!(kv_get(&kv, "view"), None);
}

#[test]
fn query_command_is_read() {
    let c = parse_command(&args(&["crabase", "base:query", "file=x.base", "view=V", "format=csv"])).expect("command");
    match c {
        Command::Query { file, vault, view } => {
            assert_eq!(file, "x.base");
            assert_eq!(vault, None);
            assert_eq!(view, Some("V".to_string()));
        }
        other => panic!("unexpected command {other:?}"),
    }
}

#[test]
fn other_commands_are_read() {
    let c = parse_command(&args(&["crabase", "bases", "vault=/v"])).expect("command");
    assert!(matches!(c, Command::Bases { vault: Some(v) } if v == "/v"));
    let c = parse_command(&args(&["crabase", "base:views", "file=x.base"])).expect("command");
    assert!(matches!(c, Command::Views { file, vault: None } if file == "x.base"));
}

#[test]
fn command_errors() {
    let e = parse_command(&args(&["crabase"])).unwrap_err();
    assert!(matches!(e, CrabaseError::MissingArg(a) if a == "subcommand"));
    let e = parse_command(&args(&["crabase", "base:query"])).unwrap_err();
    assert!(matches!(e, CrabaseError::MissingArg(a) if a == "file"));
    let e = parse_command(&args(&["crabase", "base:query", "file=x", "format=json"])).unwrap_err();
    assert!(matches!(e, CrabaseError::Query(m) if m == "Unsupported format: json. Only 'csv' is supported"));
    let e = parse_command(&args(&["crabase", "frobnicate"])).unwrap_err();
    assert!(matches!(
        e,
        CrabaseError::Query(m) if m == "Unknown subcommand: frobnicate. Expected 'base:query', 'base:views', or 'bases'"
    ));
}
