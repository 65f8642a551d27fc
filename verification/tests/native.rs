use rsh::native::error::{Errno, Error};
use rsh::native::users::{get_home_dir, Entry};
use rsh::native::{
    copy_string, execute, exit_status, fork_process, native_path, native_string, native_strings,
    read_buf, Fork,
};

#[test]
fn read_buf_decodes_utf8() {
    assert_eq!(read_buf(b"hello".to_vec()), Ok(String::from("hello")));
    assert_eq!(read_buf(vec![0xc3, 0xa9]), Ok(String::from("é")));
    assert_eq!(read_buf(Vec::new()), Ok(String::new()));
    assert_eq!(read_buf(vec![b'a', 0, b'b']), Ok(String::from("a\0b")));
}

#[test]
fn read_buf_refuses_what_is_not_utf8() {
    assert_eq!(read_buf(vec![0xff]), Err(Error::InvalidUnicode));
    assert_eq!(read_buf(vec![b'a', 0xc3]), Err(Error::InvalidUnicode));
    assert_eq!(read_buf(vec![0xed, 0xa0, 0x80]), Err(Error::InvalidUnicode));
    assert_eq!(read_buf(vec![0xc0, 0x80]), Err(Error::InvalidUnicode));
}

#[test]
fn copy_string_stops_at_the_terminator() {
    assert_eq!(copy_string(&b"host\0\0\0\0".to_vec()), Ok(String::from("host")));
    assert_eq!(copy_string(&b"host\0junk".to_vec()), Ok(String::from("host")));
    assert_eq!(copy_string(&b"host".to_vec()), Ok(String::from("host")));
    assert_eq!(copy_string(&b"\0host".to_vec()), Ok(String::new()));
    assert_eq!(copy_string(&Vec::new()), Ok(String::new()));
}

#[test]
fn copy_string_ignores_what_follows_the_terminator() {
    assert_eq!(copy_string(&vec![b'a', 0, 0xff]), Ok(String::from("a")));
    assert_eq!(copy_string(&vec![0xff, 0, b'a']), Err(Error::InvalidUnicode));
}

#[test]
fn native_string_adds_the_terminator() {
    assert_eq!(native_string("ls"), Ok(b"ls\0".to_vec()));
    assert_eq!(native_string(""), Ok(vec![0]));
    assert_eq!(native_string("é"), Ok(vec![0xc3, 0xa9, 0]));
}

#[test]
fn native_string_refuses_a_nul_byte() {
    assert_eq!(native_string("a\0b"), Err(Error::InvalidCString));
    assert_eq!(native_string("\0"), Err(Error::InvalidCString));
    assert_eq!(native_string("ab\0"), Err(Error::InvalidCString));
}

#[test]
fn native_path_is_a_native_string() {
    assert_eq!(native_path("/bin/ls"), Ok(b"/bin/ls\0".to_vec()));
    assert_eq!(native_path("/bin/\0ls"), Err(Error::InvalidCString));
}

#[test]
fn native_strings_converts_each() {
    let strings = vec![String::from("a"), String::from(""), String::from("bc")];
    assert_eq!(native_strings(&strings), Ok(vec![b"a\0".to_vec(), vec![0], b"bc\0".to_vec()]));
    assert_eq!(native_strings(&Vec::new()), Ok(Vec::new()));
    let bad = vec![String::from("a"), String::from("b\0")];
    assert_eq!(native_strings(&bad), Err(Error::InvalidCString));
}

#[test]
fn execute_makes_the_image() {
    let args = vec![String::from("echo"), String::from("hi")];
    let envp = vec![String::from("HOME=/root")];
    let image = execute("/bin/echo", &args, &envp).unwrap();
    assert_eq!(image.path, b"/bin/echo\0".to_vec());
    assert_eq!(image.arguments, vec![b"echo\0".to_vec(), b"hi\0".to_vec()]);
    assert_eq!(image.environment, vec![b"HOME=/root\0".to_vec()]);
}

#[test]
fn execute_refuses_a_nul_byte_anywhere() {
    let good = vec![String::from("a")];
    let bad = vec![String::from("a"), String::from("\0")];
    assert_eq!(execute("/bin/\0", &good, &good), Err(Error::InvalidCString));
    assert_eq!(execute("/bin/a", &bad, &good), Err(Error::InvalidCString));
    assert_eq!(execute("/bin/a", &good, &bad), Err(Error::InvalidCString));
    assert!(execute("/bin/a", &good, &good).is_ok());
}

#[test]
fn fork_process_reads_the_sides() {
    assert_eq!(fork_process(0), Fork::Child);
    assert_eq!(fork_process(-1), Fork::Failed);
    assert_eq!(fork_process(1234), Fork::Parent(1234));
    assert_eq!(fork_process(1), Fork::Parent(1));
}

#[test]
fn errors_have_their_messages() {
    assert_eq!(Error::InvalidCString.message(), "Fail to produce valid C string");
    assert_eq!(Error::InvalidUnicode.message(), "Fail to produce valid Unicode string");
    assert_eq!(Error::NotFound.message(), "Value was not found");
    let error = Error::from_errno(2, String::from("No such file or directory"));
    assert_eq!(error.message(), "No such file or directory");
}

#[test]
fn from_errno_wraps_code_and_text() {
    let error = Error::from_errno(13, String::from("Permission denied"));
    assert_eq!(error, Error::Errno(Errno { code: 13, text: String::from("Permission denied") }));
    let errno = Errno::new(13, String::from("Permission denied"));
    assert_eq!(errno.code, 13);
    assert_eq!(errno.message(), "Permission denied");
}

#[test]
fn home_dir_of_a_record() {
    assert_eq!(get_home_dir(Entry::Home(b"/home/u\0".to_vec())), Ok(String::from("/home/u")));
    assert_eq!(get_home_dir(Entry::Homeless), Err(Error::NotFound));
    let errno = Errno::new(2, String::from("No such file or directory"));
    assert_eq!(get_home_dir(Entry::Missing(errno.clone())), Err(Error::Errno(errno)));
    assert_eq!(get_home_dir(Entry::Home(vec![0xff, 0])), Err(Error::InvalidUnicode));
}

#[test]
fn read_buf_knows_the_edges_of_utf8() {
    assert_eq!(read_buf(vec![0x7f]), Ok(String::from("\u{7f}")));
    assert_eq!(read_buf(vec![0xc2, 0x80]), Ok(String::from("\u{80}")));
    assert_eq!(read_buf(vec![0xdf, 0xbf]), Ok(String::from("\u{7ff}")));
    assert_eq!(read_buf(vec![0xe0, 0xa0, 0x80]), Ok(String::from("\u{800}")));
    assert_eq!(read_buf(vec![0xed, 0x9f, 0xbf]), Ok(String::from("\u{d7ff}")));
    assert_eq!(read_buf(vec![0xee, 0x80, 0x80]), Ok(String::from("\u{e000}")));
    assert_eq!(read_buf(vec![0xf0, 0x90, 0x80, 0x80]), Ok(String::from("\u{10000}")));
    assert_eq!(read_buf(vec![0xf4, 0x8f, 0xbf, 0xbf]), Ok(String::from("\u{10ffff}")));
    for bytes in [
        vec![0x80],
        vec![0xbf],
        vec![0xc1, 0xbf],
        vec![0xe0, 0x9f, 0xbf],
        vec![0xed, 0xbf, 0xbf],
        vec![0xf0, 0x8f, 0xbf, 0xbf],
        vec![0xf4, 0x90, 0x80, 0x80],
        vec![0xf5, 0x80, 0x80, 0x80],
        vec![0xf8, 0x88, 0x80, 0x80, 0x80],
        vec![0xe2, 0x82],
        vec![0xf0, 0x9f, 0x98],
        vec![0xc2, 0x41],
    ] {
        assert_eq!(read_buf(bytes), Err(Error::InvalidUnicode));
    }
}

#[test]
fn a_nul_character_is_the_only_source_of_a_nul_byte() {
    for text in ["", "a", "é", "€", "😀", "\u{80}", "\u{7ff}", "\u{800}", "\u{ffff}", "\u{10000}", "\u{10ffff}"] {
        let bytes = native_string(text).unwrap();
        assert_eq!(bytes.iter().filter(|byte| **byte == 0).count(), 1);
        assert_eq!(bytes.last(), Some(&0));
        assert_eq!(&bytes[..bytes.len() - 1], text.as_bytes());
    }
    assert_eq!(native_string("€\0"), Err(Error::InvalidCString));
}

#[test]
fn exit_status_of_a_child_that_exited() {
    assert_eq!(exit_status(0), 0);
    assert_eq!(exit_status(256), 1);
    assert_eq!(exit_status(6 << 8), 6);
    assert_eq!(exit_status(255 << 8), 255);
    assert_eq!(exit_status(0x1ff00), 255);
}

#[test]
fn exit_status_of_a_child_that_a_signal_ended() {
    assert_eq!(exit_status(9), 137);
    assert_eq!(exit_status(15), 143);
    assert_eq!(exit_status(11 | 0x80), 139);
    assert_eq!(exit_status(0x0302), 130);
}

#[test]
fn exit_status_agrees_with_libc() {
    let mut words: Vec<i32> = (0..=0xffff).collect();
    words.extend([i32::MAX, i32::MIN, -1, -256, 0x10000, 0x7fff_ff00]);
    for word in words {
        if libc::WIFEXITED(word) {
            assert_eq!(exit_status(word), libc::WEXITSTATUS(word));
        } else {
            assert_eq!(exit_status(word), 128 + libc::WTERMSIG(word));
        }
        assert!((0..=255).contains(&exit_status(word)));
    }
}
