use limbo_storage::settings::{DbLocation, Io, Opts, OutputMode, Settings};

fn opts(database: Option<&str>, output: &str, vfs: Option<&str>) -> Opts {
    Opts {
        database: database.map(|s| s.to_string()),
        sql: None,
        output_mode: OutputMode::Pretty,
        output: output.to_string(),
        quiet: false,
        echo: true,
        vfs: vfs.map(|s| s.to_string()),
        experimental_mvcc: false,
    }
}

#[test]
fn settings_defaults() {
    let s = Settings::from(&opts(None, "", None));
    assert_eq!(s.db_file, ":memory:");
    assert!(s.is_stdout);
    assert!(!s.echo);
    assert_eq!(s.null_value, "");
    assert_eq!(s.io, Io::Syscall);
    assert_eq!(s.output_mode, OutputMode::Pretty);
}

#[test]
fn settings_from_options() {
    let s = Settings::from(&opts(Some("test.db"), "out.txt", Some("memory")));
    assert_eq!(s.db_file, "test.db");
    assert!(!s.is_stdout);
    assert_eq!(s.output_filename, "out.txt");
    assert_eq!(s.io, Io::Memory);
    assert_eq!(Settings::from(&opts(None, "", Some("syscall"))).io, Io::Syscall);
    assert_eq!(Settings::from(&opts(None, "", Some(""))).io, Io::Syscall);
    assert_eq!(
        Settings::from(&opts(None, "", Some("custom"))).io,
        Io::External("custom".to_string())
    );
}

#[test]
fn names() {
    assert_eq!(Io::Memory.name(), "memory");
    assert_eq!(Io::Syscall.name(), "syscall");
    assert_eq!(Io::External("x".to_string()).name(), "x");
    assert_eq!(Io::default(), Io::Syscall);
    assert_eq!(OutputMode::List.name(), "list");
    assert_eq!(OutputMode::Pretty.name(), "pretty");
    assert_ne!(DbLocation::Memory, DbLocation::Path);
}
