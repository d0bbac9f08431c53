use cheats::code::{Code, CodeError, Invokable};
use cheats::io::Stream;
use cheats::{ReadWrite, Shell, ShellError};

/// The demonstration handler: greets the argument, or the world when no
/// argument is given, reporting the missing argument on stderr.
struct ClHello;

impl Invokable for ClHello {
    fn invoke(&self, args: &str, stdout: &mut Stream, stderr: &mut Stream) {
        if args.is_empty() {
            stderr.write(b"Args are empty.");
            stdout.write(b"Hello, world!");
        } else {
            let msg = format!("Hello, {}!", args);
            stdout.write(msg.as_bytes());
        }
    }
}

fn drain(stream: &mut Stream) -> String {
    let bytes = stream.read(usize::MAX);
    String::from_utf8(bytes).expect("channel held invalid utf-8")
}

#[test]
fn code_new_success() {
    let code_r = Code::new("cl_hello", ClHello);
    assert!(code_r.is_ok());
}

#[test]
fn code_new_rejects_whitespace() {
    match Code::new("cl hello", ClHello) {
        Err(CodeError::InvalidName { name }) => assert_eq!(name, "cl hello"),
        Ok(_) => panic!("a name with a space was accepted"),
    }
}

#[test]
fn register_fresh_name() {
    let mut shell: Shell<ClHello> = Shell::new();
    assert!(shell.register("cl_foo", ClHello).is_ok());
}

#[test]
fn register_collision() {
    let mut shell: Shell<ClHello> = Shell::new();
    assert!(shell.register("cl_hello", ClHello).is_ok());
    let second = shell.register("cl_hello", ClHello);
    assert_eq!(
        second,
        Err(ShellError::NameCollision {
            name: "cl_hello".to_string()
        })
    );
    // The first handler remains bound: the code still answers.
    shell.run("cl_hello Eray");
    assert_eq!(drain(&mut shell.stdout), "Hello, Eray!");
}

#[test]
fn register_invalid_name() {
    let mut shell: Shell<ClHello> = Shell::new();
    for name in ["a b", "a\tb", "a\nb", "a\rb", "a\u{000C}b"] {
        let r = shell.register(name, ClHello);
        assert_eq!(
            r,
            Err(ShellError::CodeError {
                err: CodeError::InvalidName {
                    name: name.to_string()
                }
            })
        );
    }
    // Nothing was registered by the failed attempts.
    assert_eq!(shell.filter_names("", false), Vec::<String>::new());
}

#[test]
fn register_then_unregister_round_trip() {
    let mut shell: Shell<ClHello> = Shell::new();
    assert!(shell.register("sv_foo", ClHello).is_ok());
    let before = shell.filter_names("", true);
    assert!(shell.register("cl_hello", ClHello).is_ok());
    assert!(shell.unregister("cl_hello").is_ok());
    let after = shell.filter_names("", true);
    assert_eq!(before, after);
    // The name is free again.
    assert!(shell.register("cl_hello", ClHello).is_ok());
}

#[test]
fn unregister_missing_name() {
    let mut shell: Shell<ClHello> = Shell::new();
    let r = shell.unregister("cl_foo");
    assert_eq!(
        r,
        Err(ShellError::NotFound {
            name: "cl_foo".to_string()
        })
    );
}

#[test]
fn filter_names() {
    let mut shell: Shell<ClHello> = Shell::new();
    assert!(shell.register("cl_hello", ClHello).is_ok());
    assert!(shell.register("sv_foo", ClHello).is_ok());
    assert!(shell.register("sv_foobar", ClHello).is_ok());

    let sv_names = shell.filter_names("sv", true);
    assert_eq!(sv_names, vec!["sv_foo".to_string(), "sv_foobar".to_string()]);

    let foo_names = shell.filter_names("foo", false);
    assert_eq!(foo_names, vec!["sv_foo".to_string(), "sv_foobar".to_string()]);

    let all_names = shell.filter_names("", true);
    assert_eq!(all_names.len(), 3);
}

#[test]
fn run_without_args_writes_both_channels() {
    let mut shell: Shell<ClHello> = Shell::new();
    assert!(shell.register("cl_hello", ClHello).is_ok());
    shell.run("cl_hello");
    assert_eq!(drain(&mut shell.stdout), "Hello, world!");
    assert_eq!(drain(&mut shell.stderr), "Args are empty.");
}

#[test]
fn run_with_args_writes_stdout_only() {
    let mut shell: Shell<ClHello> = Shell::new();
    assert!(shell.register("cl_hello", ClHello).is_ok());
    shell.run("cl_hello Eray");
    assert_eq!(drain(&mut shell.stdout), "Hello, Eray!");
    assert_eq!(drain(&mut shell.stderr), "");
}

#[test]
fn run_script_accumulates_output_in_order() {
    let mut shell: Shell<ClHello> = Shell::new();
    assert!(shell.register("cl_hello", ClHello).is_ok());
    shell.run("cl_hello\ncl_hello Eray");
    assert_eq!(drain(&mut shell.stdout), "Hello, world!Hello, Eray!");
    assert_eq!(drain(&mut shell.stderr), "Args are empty.");
}

#[test]
fn run_skips_unknown_names_and_comments() {
    let mut shell: Shell<ClHello> = Shell::new();
    assert!(shell.register("cl_hello", ClHello).is_ok());
    shell.run("# greet twice\ncl_missing\ncl_hello Eray");
    assert_eq!(drain(&mut shell.stdout), "Hello, Eray!");
    assert_eq!(drain(&mut shell.stderr), "");
}

#[test]
fn run_line_dispatches_one_statement() {
    let mut shell: Shell<ClHello> = Shell::new();
    assert!(shell.register("cl_hello", ClHello).is_ok());
    assert!(shell.run_line("cl_hello Eray").is_ok());
    assert_eq!(drain(&mut shell.stdout), "Hello, Eray!");
}

#[test]
fn run_line_reports_unknown_name() {
    let mut shell: Shell<ClHello> = Shell::new();
    let r = shell.run_line("cl_missing now");
    assert_eq!(
        r,
        Err(ShellError::NotFound {
            name: "cl_missing".to_string()
        })
    );
}

#[test]
fn new_with_channels_keeps_supplied_streams() {
    let mut out = Stream::new();
    out.write(b"pre");
    let mut shell: Shell<ClHello> = Shell::new_with_channels(Some(out), None);
    assert!(shell.register("cl_hello", ClHello).is_ok());
    shell.run("cl_hello Eray");
    assert_eq!(drain(&mut shell.stdout), "preHello, Eray!");
    assert_eq!(drain(&mut shell.stderr), "");
}

#[test]
fn silent_script_leaves_channels_untouched() {
    let mut shell: Shell<ClHello> = Shell::new();
    assert!(shell.register("cl_hello", ClHello).is_ok());
    shell.run("# nothing to do\ncl_missing arg\n!!!");
    assert_eq!(drain(&mut shell.stdout), "");
    assert_eq!(drain(&mut shell.stderr), "");
}
