use image_compressor::paths::{
    join_path, mirror_path, parent_directory, path_extension, path_file_name, strip_root,
};
use std::path::Path;

fn some(text: &str) -> Option<String> {
    Some(text.to_string())
}

#[test]
fn extension_is_what_follows_the_last_dot() {
    assert_eq!(path_extension("a/b/c.jpg"), some("jpg"));
    assert_eq!(path_extension("c.tar.gz"), some("gz"));
    assert_eq!(path_extension("a.b/c.PNG"), some("PNG"));
    assert_eq!(path_extension("a/.hidden.png"), some("png"));
    assert_eq!(path_extension("a/name."), some(""));
    assert_eq!(path_extension("\u{00e9}t\u{00e9}/\u{00e7}a.\u{00e9}x"), some("\u{00e9}x"));
}

#[test]
fn some_paths_have_no_extension() {
    assert_eq!(path_extension(""), None);
    assert_eq!(path_extension("name"), None);
    assert_eq!(path_extension(".hidden"), None);
    assert_eq!(path_extension("a/.hidden"), None);
    assert_eq!(path_extension("a.b/name"), None);
    assert_eq!(path_extension("/"), None);
    assert_eq!(path_extension("."), None);
    assert_eq!(path_extension(".."), None);
    assert_eq!(path_extension("a.b/.."), None);
    assert_eq!(path_extension("a.b/name/"), None);
}

#[test]
fn separators_and_dots_at_the_end_name_nothing() {
    assert_eq!(path_extension("a.b/"), some("b"));
    assert_eq!(path_extension("x.png/"), some("png"));
    assert_eq!(path_extension("x.png/."), some("png"));
    assert_eq!(path_extension("x.png//./"), some("png"));
    assert_eq!(path_file_name("dir/x.png/"), some("x.png"));
    assert_eq!(path_file_name("dir/x.png/."), some("x.png"));
    assert_eq!(path_file_name("dir/x."), some("x."));
    assert_eq!(path_file_name("dir/..."), some("..."));
}

#[test]
fn some_paths_end_in_no_file() {
    for path in ["", "/", "//", ".", "./", "./.", "..", "a/..", "/.", "a/../"] {
        assert_eq!(path_file_name(path), None, "{:?}", path);
    }
}

#[test]
fn names_extensions_and_parents_are_those_of_the_platform() {
    let paths = [
        "", "/", "//", ".", "./", "./.", "..", "../", "a/..", "/.", "/..", "a", "a/", "a/.", "a//",
        "a.png", "a.png/", "a.png/.", "a.png//./", "./a.png", "/a.png", "//a.png", "/./a.png",
        "a/b.jpg", "a//b.jpg", "a/./b.jpg", "a/b/c.tar.gz", ".hidden", "a/.hidden", "a/.hidden.png",
        "a/name.", "a/...", "a/..b", "a.b/c", "out/x/", "./x/y.", "a/b/../c.gif", "../x.bmp",
    ];
    for path in paths {
        let std_path = Path::new(path);
        let name = std_path.file_name().map(|n| n.to_str().unwrap().to_string());
        let extension = std_path.extension().map(|e| e.to_str().unwrap().to_string());
        let parent = std_path.parent().map(|p| p.to_str().unwrap().to_string());
        assert_eq!(path_file_name(path), name, "file name of {:?}", path);
        assert_eq!(path_extension(path), extension, "extension of {:?}", path);
        assert_eq!(parent_directory(path), parent, "parent of {:?}", path);
    }
}

#[test]
fn parent_is_what_precedes_the_last_separator() {
    assert_eq!(parent_directory("outroot/a/b/c.jpg"), some("outroot/a/b"));
    assert_eq!(parent_directory("out/c.jpg"), some("out"));
    assert_eq!(parent_directory("/c.jpg"), some("/"));
    assert_eq!(parent_directory("out/x/"), some("out"));
    assert_eq!(parent_directory("out/x/."), some("out"));
    assert_eq!(parent_directory("out//x"), some("out"));
    assert_eq!(parent_directory("out/"), some(""));
    assert_eq!(parent_directory("c.jpg"), some(""));
    assert_eq!(parent_directory("//c.jpg"), some("/"));
    assert_eq!(parent_directory("./c.jpg"), some("."));
    assert_eq!(parent_directory(""), None);
    assert_eq!(parent_directory("/"), None);
    assert_eq!(parent_directory("/."), None);
}

#[test]
fn root_is_taken_off_a_path_below_it() {
    assert_eq!(strip_root("root", "root/a/b/c.jpg"), some("a/b/c.jpg"));
    assert_eq!(strip_root("root/", "root/a.png"), some("a.png"));
    assert_eq!(strip_root(".", "./a.png"), some("a.png"));
    assert_eq!(strip_root("", "a/b.png"), some("a/b.png"));
    assert_eq!(strip_root("root", "root//a.png"), some("a.png"));
    assert_eq!(strip_root("root", "root"), some(""));
    assert_eq!(strip_root("/", "/a.png"), some("a.png"));
}

#[test]
fn paths_beside_the_root_are_not_below_it() {
    assert_eq!(strip_root("root", "rootless/a.png"), None);
    assert_eq!(strip_root("root", "other/a.png"), None);
    assert_eq!(strip_root("root/a", "root"), None);
    assert_eq!(strip_root("root", "Root/a.png"), None);
}

#[test]
fn join_puts_one_separator_between() {
    assert_eq!(join_path("out", "a/b.png"), "out/a/b.png");
    assert_eq!(join_path("out/", "a/b.png"), "out/a/b.png");
    assert_eq!(join_path("", "a/b.png"), "a/b.png");
    assert_eq!(join_path("out", ""), "out/");
    assert_eq!(join_path("/", "a"), "/a");
    assert_eq!(join_path("out", "/abs/a.png"), "/abs/a.png");
    for (base, relative) in [("out", "a"), ("out/", "a/b"), ("", "a"), ("out", ""), ("out", "/a"), ("", "")] {
        assert_eq!(Path::new(&join_path(base, relative)), Path::new(base).join(relative).as_path());
    }
}

#[test]
fn tree_is_mirrored_under_the_output_root() {
    assert_eq!(mirror_path("root", "outroot", "root/a/b/c.jpg"), some("outroot/a/b/c.jpg"));
    assert_eq!(
        parent_directory(&mirror_path("root", "outroot", "root/a/b/c.jpg").unwrap()),
        some("outroot/a/b")
    );
    assert_eq!(mirror_path(".", "compressed_images", "./photo.jpg"), some("compressed_images/photo.jpg"));
    assert_eq!(mirror_path("in/", "out/", "in/x/y.png"), some("out/x/y.png"));
    assert_eq!(mirror_path("in", "out", "elsewhere/y.png"), None);
}

#[test]
fn mirroring_keeps_what_lies_below_the_root() {
    for root in ["", "in", "in/", "/data/in", "."] {
        for out in ["", "out", "out/", "/data/out"] {
            for rel in ["a.jpg", "a/b.jpg", "a/b/c/d.png", ".hidden.gif", "x y/z.bmp"] {
                let path = join_path(root, rel);
                assert_eq!(mirror_path(root, out, &path), Some(join_path(out, rel)));
                let mirrored = mirror_path(root, out, &path).unwrap();
                assert_eq!(path_extension(&mirrored), path_extension(&path));
            }
        }
    }
}
