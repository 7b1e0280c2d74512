use asynckit::lldb::{read_hex, read_lldb_line, thread_header, trim_line, LldbLine};

fn thread_of(line: &str) -> Option<(String, String, String)> {
    match read_lldb_line(line) {
        Some(LldbLine::Thread { index, name, queue }) => {
            Some((index.to_string(), name.to_string(), queue.to_string()))
        }
        _ => None,
    }
}

fn frame_of(line: &str) -> Option<usize> {
    match read_lldb_line(line) {
        Some(LldbLine::Frame { pc }) => Some(pc),
        _ => None,
    }
}

#[test]
fn thread_line_is_read() {
    assert_eq!(
        thread_of("THREAD;1;main;com.apple.main-thread;"),
        Some(("1".to_string(), "main".to_string(), "com.apple.main-thread".to_string()))
    );
}

#[test]
fn thread_line_is_trimmed_of_stars_and_spaces() {
    assert_eq!(
        thread_of("  * THREAD;7;worker;;\n"),
        Some(("7".to_string(), "worker".to_string(), "".to_string()))
    );
}

#[test]
fn short_thread_line_says_nothing() {
    assert!(read_lldb_line("THREAD;1;main").is_none());
}

#[test]
fn frame_line_gives_its_address() {
    assert_eq!(frame_of("FRAME;0;0x1f;"), Some(0x1f));
    assert_eq!(frame_of("* FRAME;3;0x0x00007fff5fbff000;"), Some(0x7fff5fbff000));
    assert_eq!(frame_of("FRAME;1;+AbC"), Some(0xabc));
}

#[test]
fn bad_frame_lines_say_nothing() {
    assert!(read_lldb_line("FRAME;0;").is_none());
    assert!(read_lldb_line("FRAME;0;0xzz").is_none());
    assert!(read_lldb_line("FRAME;0;+").is_none());
    assert!(read_lldb_line("FRAME;0").is_none());
    assert!(read_lldb_line("FRAME;0;0x10000000000000000000").is_none());
}

#[test]
fn other_lines_say_nothing() {
    assert!(read_lldb_line("").is_none());
    assert!(read_lldb_line("(lldb) process attach").is_none());
    assert!(read_lldb_line("thread;1;a;b").is_none());
}

#[test]
fn hex_reading() {
    assert_eq!(read_hex("ff"), Some(255));
    assert_eq!(read_hex("+10"), Some(16));
    assert_eq!(read_hex(""), None);
    assert_eq!(read_hex("-1"), None);
    assert_eq!(read_hex("ffffffffffffffff"), usize::from_str_radix("ffffffffffffffff", 16).ok());
}

#[test]
fn trimming() {
    assert_eq!(trim_line(" **a * b**\t"), "a * b");
    assert_eq!(trim_line("***"), "");
}

#[test]
fn thread_header_text() {
    assert_eq!(thread_header("1", "main", "q"), "\nthread index=1 name=main queue=q\n");
}
