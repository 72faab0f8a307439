use lib::fs::{FileSystem, MAX_FILE_SIZE};
use lib::shell::{command_of, execute, prompt, run_command, split_line, uptime_text, Command, ShellAction, HELP};

fn booted() -> FileSystem {
    let mut fs = FileSystem::new();
    fs.init();
    fs
}

fn printed(fs: &mut FileSystem, line: &str) -> String {
    match execute(fs, line.as_bytes()) {
        ShellAction::Print(out) => String::from_utf8(out).unwrap(),
        _ => panic!("expected printed text for {:?}", line),
    }
}

fn read_all(fs: &FileSystem, path: &str) -> Vec<u8> {
    let mut buf = vec![0u8; MAX_FILE_SIZE];
    let n = fs.read_file(path, &mut buf).unwrap();
    buf.truncate(n);
    buf
}

#[test]
fn the_prompt_shows_the_current_directory() {
    let mut fs = booted();
    assert_eq!(prompt(&fs), b"[/]$ ".to_vec());
    assert_eq!(printed(&mut fs, "cd /home"), "");
    assert_eq!(prompt(&fs), b"[/home]$ ".to_vec());
}

#[test]
fn help_lists_the_commands() {
    let mut fs = booted();
    let out = printed(&mut fs, "help");
    assert_eq!(out, HELP);
    assert!(out.starts_with("Available commands:\n  ls [path]        List directory\n"));
    assert!(out.ends_with("  shutdown         Power off\n"));
    assert_eq!(out.lines().count(), 15);
}

#[test]
fn ls_lists_directories_and_file_sizes() {
    let mut fs = booted();
    assert_eq!(printed(&mut fs, "ls"), "home/ \ntmp/ \nreadme.txt  (43 bytes)\n");
    assert_eq!(printed(&mut fs, "ls /"), "home/ \ntmp/ \nreadme.txt  (43 bytes)\n");
    assert_eq!(printed(&mut fs, "ls /tmp"), "");
    assert_eq!(printed(&mut fs, "ls /readme.txt"), "ls: not a directory\n");
    assert_eq!(printed(&mut fs, "ls /none"), "ls: not found\n");
}

#[test]
fn cd_and_pwd() {
    let mut fs = booted();
    assert_eq!(printed(&mut fs, "pwd"), "/\n");
    assert_eq!(printed(&mut fs, "cd home"), "");
    assert_eq!(printed(&mut fs, "pwd"), "/home\n");
    assert_eq!(printed(&mut fs, "cd"), "");
    assert_eq!(printed(&mut fs, "pwd"), "/\n");
    assert_eq!(printed(&mut fs, "cd /readme.txt"), "cd: not a directory\n");
    assert_eq!(printed(&mut fs, "cd /none"), "cd: not found\n");
    assert_eq!(printed(&mut fs, "pwd"), "/\n");
}

#[test]
fn cat_prints_a_file() {
    let mut fs = booted();
    assert_eq!(printed(&mut fs, "cat /readme.txt"), "Welcome to RxV6.\nType 'help' for commands.\n");
    assert_eq!(printed(&mut fs, "cat"), "cat: missing filename\n");
    assert_eq!(printed(&mut fs, "cat /none"), "cat: not found\n");
    assert_eq!(printed(&mut fs, "cat /home"), "cat: not a file\n");
}

#[test]
fn cat_prints_nothing_for_bytes_that_are_not_text() {
    let mut fs = booted();
    fs.create_file("/bin").unwrap();
    fs.write_file("/bin", &[0xff, 0xfe, b'a']).unwrap();
    assert_eq!(printed(&mut fs, "cat /bin"), "");
}

#[test]
fn echo_prints_or_writes_a_file() {
    let mut fs = booted();
    assert_eq!(printed(&mut fs, "echo hello   world"), "hello   world\n");
    assert_eq!(printed(&mut fs, "echo"), "\n");
    assert_eq!(printed(&mut fs, "echo  some text  > /tmp/a "), "");
    assert_eq!(read_all(&fs, "/tmp/a"), b"some text\n".to_vec());
    assert_eq!(printed(&mut fs, "echo again>/tmp/a"), "");
    assert_eq!(printed(&mut fs, "cat /tmp/a"), "again\n");
    assert_eq!(printed(&mut fs, "echo x >"), "echo: missing filename\n");
    assert_eq!(printed(&mut fs, "echo x > /none/f"), "echo: not found\n");
    assert_eq!(printed(&mut fs, "echo x > /home"), "echo: not a file\n");
}

#[test]
fn echo_keeps_at_most_4095_bytes_of_text() {
    let mut fs = booted();
    let line = format!("echo {} > /big", "y".repeat(5000));
    assert_eq!(printed(&mut fs, &line), "");
    let data = read_all(&fs, "/big");
    assert_eq!(data.len(), 4096);
    assert_eq!(data[4095], b'\n');
}

#[test]
fn touch_mkdir_rm_mv() {
    let mut fs = booted();
    assert_eq!(printed(&mut fs, "touch"), "touch: missing filename\n");
    assert_eq!(printed(&mut fs, "touch /tmp/t"), "");
    assert_eq!(printed(&mut fs, "touch /tmp/t"), "");
    assert_eq!(printed(&mut fs, "touch /none/t"), "touch: not found\n");
    assert_eq!(printed(&mut fs, "mkdir"), "mkdir: missing name\n");
    assert_eq!(printed(&mut fs, "mkdir /tmp/d"), "");
    assert_eq!(printed(&mut fs, "mkdir /tmp/d"), "mkdir: already exists\n");
    assert_eq!(printed(&mut fs, "ls /tmp"), "t  (0 bytes)\nd/ \n");
    assert_eq!(printed(&mut fs, "rm"), "rm: missing path\n");
    assert_eq!(printed(&mut fs, "rm /tmp"), "rm: directory not empty\n");
    assert_eq!(printed(&mut fs, "rm /"), "rm: invalid path\n");
    assert_eq!(printed(&mut fs, "rm /tmp/t"), "");
    assert_eq!(printed(&mut fs, "mv"), "mv: missing source\n");
    assert_eq!(printed(&mut fs, "mv /tmp/d"), "mv: missing destination\n");
    assert_eq!(printed(&mut fs, "mv /tmp/d   /home/e  "), "");
    assert_eq!(printed(&mut fs, "ls /home"), "e/ \n");
    assert_eq!(printed(&mut fs, "mv /x /y"), "mv: not found\n");
}

#[test]
fn other_commands() {
    let mut fs = booted();
    assert_eq!(printed(&mut fs, "uname"), "RxV6 0.1.0 riscv64\n");
    assert_eq!(printed(&mut fs, "frobnicate now"), "rxv6: frobnicate: command not found\n");
    assert!(matches!(execute(&mut fs, b"clear"), ShellAction::Clear));
    assert!(matches!(execute(&mut fs, b"uptime"), ShellAction::Uptime));
    assert!(matches!(execute(&mut fs, b"shutdown"), ShellAction::Shutdown));
    match execute(&mut fs, b"  edit   notes.txt ") {
        ShellAction::Edit(f) => assert_eq!(f, "notes.txt"),
        _ => panic!("expected the editor"),
    }
    match execute(&mut fs, b"edit") {
        ShellAction::Edit(f) => assert_eq!(f, ""),
        _ => panic!("expected the editor"),
    }
}

#[test]
fn blank_lines_and_bytes_that_are_not_text_do_nothing() {
    let mut fs = booted();
    assert!(matches!(execute(&mut fs, b""), ShellAction::Nothing));
    assert!(matches!(execute(&mut fs, b"   \t "), ShellAction::Nothing));
    assert!(matches!(execute(&mut fs, &[b'l', b's', 0xff]), ShellAction::Nothing));
    assert!(matches!(execute(&mut fs, &[b'm', b'k', b'd', b'i', b'r', b' ', b'a', 0xc3]), ShellAction::Nothing));
    assert!(!fs.path_exists("/a"));
}

#[test]
fn uptime_text_splits_seconds() {
    assert_eq!(uptime_text(3725), b"up 1h 2m 5s\n".to_vec());
    assert_eq!(uptime_text(0), b"up 0h 0m 0s\n".to_vec());
    assert_eq!(uptime_text(90061), b"up 25h 1m 1s\n".to_vec());
}

#[test]
fn splitting_a_line() {
    assert_eq!(split_line("  ls   /home  "), Some(("ls", "/home")));
    assert_eq!(split_line("pwd"), Some(("pwd", "")));
    assert_eq!(split_line("mv a  b "), Some(("mv", "a  b")));
    assert_eq!(split_line("   "), None);
    assert_eq!(split_line(""), None);
}

#[test]
fn command_names() {
    assert_eq!(command_of("ls"), Command::Ls);
    assert_eq!(command_of("mkdir"), Command::Mkdir);
    assert_eq!(command_of("shutdown"), Command::Shutdown);
    assert_eq!(command_of("LS"), Command::Unknown);
    assert_eq!(command_of(""), Command::Unknown);
}

#[test]
fn run_command_reports_unknown_names() {
    let mut fs = booted();
    assert_eq!(run_command(&mut fs, Command::Unknown, "zz", ""), b"rxv6: zz: command not found\n".to_vec());
    assert_eq!(run_command(&mut fs, Command::Pwd, "pwd", ""), b"/\n".to_vec());
}
