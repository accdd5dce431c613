use azusa::{Error, Persist};

#[test]
fn test_build_name() {
    let name = Persist::build_name("hello", 0, "jpg");
    assert_eq!(name, "hello.jpg");

    let name = Persist::build_name("hello", 1, "jpg");
    assert_eq!(name, "hello(1).jpg");

    let name = Persist::build_name("hello", 0, "");
    assert_eq!(name, "hello");

    let name = Persist::build_name("hello", 1, "");
    assert_eq!(name, "hello(1)");
}

#[test]
fn build_name_writes_count_in_decimal() {
    assert_eq!(Persist::build_name("a", 9, "txt"), "a(9).txt");
    assert_eq!(Persist::build_name("a", 10, "txt"), "a(10).txt");
    assert_eq!(Persist::build_name("a", 407, "txt"), "a(407).txt");
    assert_eq!(
        Persist::build_name("a", u64::MAX, ""),
        "a(18446744073709551615)"
    );
}

fn names(v: &[&str]) -> Vec<String> {
    v.iter().map(|s| s.to_string()).collect()
}

#[test]
fn fresh_name_takes_first_free_candidate() {
    assert_eq!(Persist::fresh_name("a", "txt", &names(&[])), Ok("a.txt".to_string()));
    assert_eq!(
        Persist::fresh_name("a", "txt", &names(&["a.txt"])),
        Ok("a(1).txt".to_string())
    );
    assert_eq!(
        Persist::fresh_name("a", "txt", &names(&["a.txt", "a(1).txt"])),
        Ok("a(2).txt".to_string())
    );
    assert_eq!(
        Persist::fresh_name("a", "txt", &names(&["a(1).txt"])),
        Ok("a.txt".to_string())
    );
}

#[test]
fn fresh_name_without_extension_has_no_dot() {
    assert_eq!(Persist::fresh_name("a", "", &names(&[])), Ok("a".to_string()));
    assert_eq!(Persist::fresh_name("a", "", &names(&["a"])), Ok("a(1)".to_string()));
}

#[test]
fn fresh_name_is_exhausted_after_ten_collisions() {
    let mut taken = vec![];
    for k in 0..10u64 {
        taken.push(Persist::build_name("a", k, "txt"));
    }
    assert_eq!(
        Persist::fresh_name("a", "txt", &taken),
        Err(Error::PersistenceExhausted)
    );
    taken.pop();
    assert_eq!(Persist::fresh_name("a", "txt", &taken), Ok("a(9).txt".to_string()));
}

#[test]
fn persist_keeps_destination() {
    let persist = Persist::new("/data".to_string());
    assert_eq!(persist.dest(), "/data");
}

#[test]
fn test_fresh_name() {
    let fresh = Persist::fresh_name("dummy", "toml", &names(&[]));
    assert_eq!(fresh, Ok("dummy.toml".to_string()));

    let fresh = Persist::fresh_name("Cargo", "toml", &names(&["Cargo.toml"]));
    assert_eq!(fresh, Ok("Cargo(1).toml".to_string()));
}
