use pbuild::depfile::parse;

#[test]
fn single_dep() {
    let paths = parse("foo.o: foo.c\n");
    assert_eq!(paths, ["foo.c"]);
}

#[test]
fn multiple_deps_on_one_line() {
    let paths = parse("foo.o: foo.c include/foo.h include/bar.h\n");
    assert_eq!(paths, ["foo.c", "include/foo.h", "include/bar.h"]);
}

#[test]
fn continuation_lines() {
    let paths = parse("foo.o: foo.c \\\n  include/foo.h \\\n  include/bar.h\n");
    assert_eq!(paths, ["foo.c", "include/foo.h", "include/bar.h"]);
}

#[test]
fn duplicates_removed() {
    let paths = parse("foo.o: foo.c foo.c include/foo.h\n");
    assert_eq!(paths, ["foo.c", "include/foo.h"]);
}

#[test]
fn empty_input_returns_empty() {
    assert!(parse("").is_empty());
}

#[test]
fn no_colon_returns_empty() {
    assert!(parse("foo.o foo.c").is_empty());
}

#[test]
fn only_first_colon_splits_targets_from_paths() {
    let paths = parse("a.o b.o: x.c y:z.h\n");
    assert_eq!(paths, ["x.c", "y:z.h"]);
}

#[test]
fn tabs_and_crlf_separate_words() {
    let paths = parse("out.o:\tone.c\r\n two.c\n");
    assert_eq!(paths, ["one.c", "two.c"]);
}
