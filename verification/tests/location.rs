use rust_lcd::location::{join, SEPARATOR};
use std::path::Path;

fn std_join(base: &str, name: &str) -> String {
    Path::new(base).join(name).to_str().unwrap().to_string()
}

#[test]
fn separator_is_a_slash() {
    assert_eq!(SEPARATOR, '/');
}

#[test]
fn join_puts_one_separator_between() {
    assert_eq!(join("/sys/class/backlight", "intel_backlight"), "/sys/class/backlight/intel_backlight");
    assert_eq!(join("a", "b"), "a/b");
    assert_eq!(join("a/b", "c"), "a/b/c");
}

#[test]
fn join_adds_no_separator_after_one() {
    assert_eq!(join("/sys/class/backlight/", "acpi_video0"), "/sys/class/backlight/acpi_video0");
    assert_eq!(join("/", "sys"), "/sys");
    assert_eq!(join("a//", "b"), "a//b");
}

#[test]
fn join_to_empty_base_is_the_name() {
    assert_eq!(join("", "bl_power"), "bl_power");
    assert_eq!(join("", ""), "");
}

#[test]
fn join_of_rooted_name_is_the_name() {
    assert_eq!(join("/sys/class/backlight", "/tmp/bl_power"), "/tmp/bl_power");
    assert_eq!(join("", "/x"), "/x");
    assert_eq!(join("rel", "/"), "/");
}

#[test]
fn join_of_empty_name_ends_with_separator() {
    assert_eq!(join("/a", ""), "/a/");
    assert_eq!(join("/a/", ""), "/a/");
}

#[test]
fn join_keeps_names_of_several_segments() {
    assert_eq!(join("/a", "b/c"), "/a/b/c");
    assert_eq!(join("/a", "../c"), "/a/../c");
    assert_eq!(join("/a", "./c"), "/a/./c");
}

#[test]
fn join_keeps_text_outside_ascii() {
    assert_eq!(join("/päth/ü", "ñame"), "/päth/ü/ñame");
    assert_eq!(join("/päth/ü/", "ñame"), "/päth/ü/ñame");
    assert_eq!(join("日本", "語"), "日本/語");
}

#[test]
fn join_agrees_with_std_path() {
    let bases = [
        "", "/", "//", "a", "a/", "/a", "/a/", "a/b", "a/b/", "/sys/class/backlight", ".", "..",
        "./", "a b", "ü", "/ü/", "a\\", "a/.", "a//b//",
    ];
    let names = [
        "", "/", "b", "b/", "/b", "b/c", "bl_power", ".", "..", "./b", "//b", "ü", " ", "b\\c",
    ];
    for base in bases {
        for name in names {
            assert_eq!(join(base, name), std_join(base, name), "base {:?} name {:?}", base, name);
        }
    }
}
