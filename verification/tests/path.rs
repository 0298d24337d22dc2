use fm::path::{components_of, directions, join, parent_of};

fn owned(parts: &[&str]) -> Vec<String> {
    parts.iter().map(|part| (*part).to_owned()).collect()
}

#[test]
fn the_way_between_two_directories() {
    let way = |path: &str, base: &str| directions(path, base);
    assert_eq!(way("/a/b/c", "/a/b"), Some(owned(&["c"])));
    assert_eq!(way("/a", "/a/b/c"), Some(owned(&["..", ".."])));
    assert_eq!(way("/a/x/y", "/a/b/c"), Some(owned(&["..", "..", "x", "y"])));
    assert_eq!(way("/x", "/a/b"), Some(owned(&["..", "..", "x"])));
    assert_eq!(way("/a/b", "/a/b/"), Some(owned(&[])));
    assert_eq!(way("a", "b"), Some(owned(&["..", "a"])));
}

#[test]
fn there_is_no_way_out_of_a_step_up() {
    assert_eq!(directions("/a/x", "/a/../y"), None);
    // What both share is never left, and what is only left is counted.
    assert_eq!(directions("/a/../x", "/a/.."), Some(owned(&["x"])));
    assert_eq!(directions("/a", "/a/.."), Some(owned(&[".."])));
}

#[test]
fn directions_follow_the_difference_of_the_paths() {
    let paths = [
        "/", "/a", "/a/b", "/a/../b", "/a/..", "/..", "/a/b/../../c", "", "a", "a/b", "..", "../a",
        "a/../b", ".", "./a", "./a/b", "./..", "./../a",
    ];
    for path in paths {
        for base in paths {
            if path.starts_with('/') != base.starts_with('/') {
                continue;
            }
            if base.is_empty() && path.starts_with("./") || base.is_empty() && path == "." {
                continue;
            }
            let expected: Option<Vec<String>> = pathdiff::diff_paths(path, base).map(|diff| {
                diff.components()
                    .map(|part| part.as_os_str().to_string_lossy().into_owned())
                    .collect()
            });
            assert_eq!(directions(path, base), expected, "{path} from {base}");
        }
    }
}

#[test]
fn taking_apart_undoes_joining() {
    for parts in [owned(&["/"]), owned(&["/", "a"]), owned(&["/", "a", "..", "b c"])] {
        assert_eq!(components_of(&join(&parts)), parts);
    }
}

#[test]
fn parents_are_those_of_the_standard_library() {
    for path in ["/", "", "/a", "/a/b", "a", "a/b", "..", "/a/b/c"] {
        let expected = std::path::Path::new(path)
            .parent()
            .map(|parent| parent.to_string_lossy().into_owned());
        assert_eq!(parent_of(path), expected, "{path}");
    }
}
