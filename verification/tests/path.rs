use rsh::native::error::Error;
use rsh::shell::path::{joined, Lookup};
use rsh::shell::Shell;

fn strings(items: &[&str]) -> Vec<String> {
    items.iter().map(|item| item.to_string()).collect()
}

fn shell(cwd: &str) -> Shell {
    Shell::new(
        strings(&["rsh"]),
        1000,
        Some("/usr/bin:/bin"),
        String::from("/home/u"),
        String::from(cwd),
        None,
    )
}

#[test]
fn joined_puts_one_separator_between() {
    assert_eq!(joined("/bin", "ls"), "/bin/ls");
    assert_eq!(joined("/bin/", "ls"), "/bin/ls");
    assert_eq!(joined("/", "ls"), "/ls");
    assert_eq!(joined("", "ls"), "ls");
    assert_eq!(joined("/home/u", "./script"), "/home/u/./script");
    assert_eq!(joined("/home/u", ""), "/home/u/");
    assert_eq!(joined("/home/u", "/etc/passwd"), "/etc/passwd");
}

#[test]
fn joined_agrees_with_the_standard_library() {
    let directories = ["", "/", "/bin", "/bin/", "a", "a/", "a//", "/home/u", "é"];
    let names = ["", "ls", "./ls", "../ls", "/ls", "a/b", ".cshrc", "/", "ü"];
    for directory in directories {
        for name in names {
            let expected = std::path::Path::new(directory).join(name);
            assert_eq!(joined(directory, name), expected.to_str().unwrap());
        }
    }
}

#[test]
fn a_bare_name_is_searched_for() {
    let shell = shell("/home/u");
    assert_eq!(shell.path, strings(&["/usr/bin", "/bin"]));
    assert_eq!(shell.find_path("ls"), Lookup::Search);
    let listings = vec![strings(&["env", "less"]), strings(&["cat", "ls", "sh"])];
    assert_eq!(shell.search_path("ls", &listings), Ok(String::from("/bin/ls")));
}

#[test]
fn the_first_directory_wins() {
    let shell = shell("/home/u");
    let listings = vec![strings(&["ls"]), strings(&["ls"])];
    assert_eq!(shell.search_path("ls", &listings), Ok(String::from("/usr/bin/ls")));
}

#[test]
fn a_name_that_no_directory_holds_is_not_found() {
    let shell = shell("/home/u");
    let listings = vec![strings(&["env"]), strings(&["cat", "lsof", "l", "s"])];
    assert_eq!(shell.search_path("ls", &listings), Err(Error::NotFound));
    assert_eq!(shell.search_path("ls", &vec![Vec::new(), Vec::new()]), Err(Error::NotFound));
    assert_eq!(shell.search_path("ls", &Vec::new()), Err(Error::NotFound));
}

#[test]
fn listings_without_a_directory_are_not_searched() {
    let shell = shell("/home/u");
    let listings = vec![Vec::new(), Vec::new(), strings(&["ls"])];
    assert_eq!(shell.search_path("ls", &listings), Err(Error::NotFound));
    let listings = vec![strings(&["ls"])];
    assert_eq!(shell.search_path("ls", &listings), Ok(String::from("/usr/bin/ls")));
}

#[test]
fn file_names_match_exactly() {
    let shell = shell("/home/u");
    let listings = vec![strings(&["LS", "ls ", "ls.sh"]), strings(&["ls"])];
    assert_eq!(shell.search_path("ls", &listings), Ok(String::from("/bin/ls")));
}

#[test]
fn a_rooted_name_is_the_path() {
    let shell = shell("/home/u");
    assert_eq!(shell.find_path("/bin/ls"), Lookup::Absolute(String::from("/bin/ls")));
    assert_eq!(shell.find_path("/"), Lookup::Absolute(String::from("/")));
}

#[test]
fn a_relative_name_starts_at_the_working_directory() {
    let shell = shell("/home/u");
    assert_eq!(shell.find_path("./script"), Lookup::Relative(String::from("/home/u/./script")));
    assert_eq!(shell.find_path("bin/tool"), Lookup::Relative(String::from("/home/u/bin/tool")));
    assert_eq!(shell.find_path("../x"), Lookup::Relative(String::from("/home/u/../x")));
    assert_eq!(shell.find_path("dir/"), Lookup::Relative(String::from("/home/u/dir/")));
}

#[test]
fn the_working_directory_may_end_with_a_separator() {
    assert_eq!(shell("/").find_path("./script"), Lookup::Relative(String::from("/./script")));
    assert_eq!(shell("/tmp/").find_path("a/b"), Lookup::Relative(String::from("/tmp/a/b")));
}

#[test]
fn a_relative_name_is_its_canonical_path() {
    let shell = shell("/home/u");
    let canonical = Some(String::from("/home/u/script"));
    assert_eq!(shell.locate("./script", canonical, &Vec::new()), Ok(String::from("/home/u/script")));
    assert_eq!(shell.locate("./script", None, &Vec::new()), Err(Error::NotFound));
    let listings = vec![strings(&["script"]), strings(&["script"])];
    assert_eq!(shell.locate("./script", None, &listings), Err(Error::NotFound));
}

#[test]
fn locate_asks_only_what_the_name_needs() {
    let shell = shell("/home/u");
    let listings = vec![strings(&["env"]), strings(&["ls"])];
    let other = Some(String::from("/somewhere/else"));
    assert_eq!(shell.locate("ls", other.clone(), &listings), Ok(String::from("/bin/ls")));
    assert_eq!(shell.locate("ls", other.clone(), &Vec::new()), Err(Error::NotFound));
    assert_eq!(shell.locate("/bin/ls", other.clone(), &Vec::new()), Ok(String::from("/bin/ls")));
    assert_eq!(shell.locate("/no/such", None, &Vec::new()), Ok(String::from("/no/such")));
}
