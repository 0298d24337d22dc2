use fm::path_title::{initial, markup, segments, shorten};

fn owned(parts: &[&str]) -> Vec<String> {
    parts.iter().map(|part| (*part).to_owned()).collect()
}

/// Stands in for Pango: accepts anything up to `limit` characters.
fn width_limit(limit: usize) -> impl Fn(&str) -> bool {
    move |candidate: &str| candidate.chars().count() <= limit
}

#[test]
fn replaces_the_home_prefix_with_a_tilde() {
    let segments = segments(
        "/home/milo/projects/fm",
        Some("/home/milo"),
    );
    assert_eq!(segments, owned(&["~", "projects", "fm"]));
}

#[test]
fn keeps_the_root_separator_as_its_own_segment() {
    let segments = segments("/etc/systemd", Some("/home/milo"));
    assert_eq!(segments, owned(&["/", "etc", "systemd"]));
}

#[test]
fn leaves_a_path_that_already_fits_alone() {
    let segments = owned(&["~", "projects", "fm"]);
    assert_eq!(shorten(&segments, width_limit(80)), "~/projects/fm");
}

#[test]
fn abbreviates_from_the_left_one_segment_at_a_time() {
    let segments = owned(&["~", "projects", "software", "dev", "fm", "src"]);
    assert_eq!(
        shorten(&segments, width_limit(24)),
        "~/p/software/dev/fm/src"
    );
    assert_eq!(shorten(&segments, width_limit(18)), "~/p/s/dev/fm/src");
    assert_eq!(shorten(&segments, width_limit(14)), "~/p/s/d/fm/src");
}

#[test]
fn never_abbreviates_the_current_directory() {
    let segments = owned(&["~", "projects", "software", "dev", "fm", "src"]);
    assert!(shorten(&segments, width_limit(1)).ends_with("/src"));
}

#[test]
fn never_abbreviates_the_leading_root() {
    let segments = owned(&["/", "etc", "systemd", "user"]);
    assert_eq!(shorten(&segments, width_limit(1)), "/e/s/user");
}

#[test]
fn keeps_the_dot_of_hidden_directories() {
    assert_eq!(initial(".config"), ".c");
    assert_eq!(initial("projects"), "p");
    assert_eq!(initial("."), ".");
    assert_eq!(initial(""), "");
}

#[test]
fn dims_ancestors_and_emphasises_the_current_directory() {
    assert_eq!(
        markup("~/p/src"),
        "<span alpha=\"55%\">~/p/</span><b>src</b>"
    );
}

#[test]
fn a_bare_root_has_no_ancestors_to_dim() {
    assert_eq!(markup("~"), "<b>~</b>");
}

#[test]
fn escapes_pango_markup_syntax() {
    assert_eq!(
        markup("~/a&b/<c>"),
        "<span alpha=\"55%\">~/a&amp;b/</span><b>&lt;c&gt;</b>"
    );
}

#[test]
fn a_path_is_read_by_its_components() {
    assert_eq!(segments("/home//milo/./x/", None), owned(&["/", "home", "milo", "x"]));
    assert_eq!(segments("./a/../b", None), owned(&[".", "a", "..", "b"]));
    assert_eq!(segments("a/b", None), owned(&["a", "b"]));
    assert_eq!(segments("/", None), owned(&["/"]));
    assert_eq!(segments("", None), owned(&[]));
    assert_eq!(segments(".", None), owned(&["."]));
}

#[test]
fn the_same_components_as_the_standard_library() {
    for path in ["/", "", ".", "./", "..", "/a/b", "a//b/", "/./a", "./a/./b", "/a/../b", "//x", "a/."] {
        let expected: Vec<String> = std::path::Path::new(path)
            .iter()
            .map(|part| part.to_string_lossy().into_owned())
            .collect();
        assert_eq!(segments(path, None), expected, "{path}");
    }
}

#[test]
fn a_home_that_merely_starts_the_same_is_no_prefix() {
    assert_eq!(
        segments("/home/milos/x", Some("/home/milo")),
        owned(&["/", "home", "milos", "x"])
    );
    assert_eq!(segments("/home/milo", Some("/home/milo/")), owned(&["~"]));
    assert_eq!(segments("/home", Some("/home/milo")), owned(&["/", "home"]));
}

#[test]
fn joins_without_doubling_the_leading_separator() {
    assert_eq!(shorten(&owned(&["/"]), |_| true), "/");
    assert_eq!(shorten(&owned(&["/", "etc"]), |_| true), "/etc");
    assert_eq!(shorten(&owned(&["~"]), |_| false), "~");
    assert_eq!(shorten(&owned(&[]), |_| false), "");
    assert_eq!(shorten(&owned(&["a", "b"]), |_| false), "a/b");
}

#[test]
fn each_rung_of_the_ladder_is_tried_once_and_never_longer() {
    let tried = std::cell::RefCell::new(Vec::new());
    let last = shorten(&owned(&["~", "projects", ".config", "x"]), |candidate| {
        tried.borrow_mut().push(candidate.to_owned());
        false
    });
    let tried = tried.borrow();
    assert_eq!(
        *tried,
        vec!["~/projects/.config/x", "~/p/.config/x", "~/p/.c/x"]
    );
    assert_eq!(last, "~/p/.c/x");
    for pair in tried.windows(2) {
        assert!(pair[1].len() <= pair[0].len());
    }
}

#[test]
fn an_initial_is_a_whole_character() {
    assert_eq!(initial("\u{e9}t\u{e9}"), "\u{e9}");
    assert_eq!(initial(".\u{e9}t\u{e9}"), ".\u{e9}");
    assert_eq!(initial("x"), "x");
}

#[test]
fn the_last_separator_divides_the_title() {
    assert_eq!(markup("/"), "<span alpha=\"55%\">/</span><b></b>");
    assert_eq!(markup("a/b/"), "<span alpha=\"55%\">a/b/</span><b></b>");
    assert_eq!(markup("&amp;"), "<b>&amp;amp;</b>");
    assert_eq!(markup(""), "<b></b>");
}
