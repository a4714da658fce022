use std::cmp::Ordering;
use view_rs::path::{break_tie, path_cmp, sort_paths, to_path, to_url, PathSortable};

fn p(s: &str) -> PathSortable {
    PathSortable(s.to_string())
}

fn names(v: &[PathSortable]) -> Vec<String> {
    v.iter().map(|x| x.0.clone()).collect()
}

#[test]
fn numeric_runs_compare_by_value() {
    assert_eq!(path_cmp("img2.png", "img10.png"), Ordering::Less);
    assert_eq!(path_cmp("img10.png", "img2.png"), Ordering::Greater);
    assert_eq!(p("img2.png").cmp(&p("img10.png")), Ordering::Less);
}

#[test]
fn equal_names_compare_equal() {
    assert_eq!(path_cmp("a.png", "a.png"), Ordering::Equal);
    assert_eq!(p("a.png").cmp(&p("a.png")), Ordering::Equal);
}

#[test]
fn leading_zeros_break_ties_shorter_first() {
    assert_eq!(path_cmp("7", "007"), Ordering::Less);
    assert_eq!(path_cmp("007", "7"), Ordering::Greater);
    assert_eq!(path_cmp("img07.png", "img7.png"), Ordering::Greater);
    assert_eq!(path_cmp("x01", "x10"), Ordering::Less);
}

#[test]
fn order_is_antisymmetric_on_samples() {
    let samples = ["a", "A", "a1", "a01", "a10", "a2b", "a2", "", "b", "file0002.txt", "file1B.txt", "7", "07"];
    for x in samples.iter() {
        assert_eq!(path_cmp(x, x), Ordering::Equal);
        for y in samples.iter() {
            assert_eq!(path_cmp(x, y), path_cmp(y, x).reverse());
            if x != y {
                assert_ne!(path_cmp(x, y), Ordering::Equal);
            }
            for z in samples.iter() {
                if path_cmp(x, y) == Ordering::Less && path_cmp(y, z) == Ordering::Less {
                    assert_eq!(path_cmp(x, z), Ordering::Less);
                }
            }
        }
    }
}

#[test]
fn sort_puts_paths_in_natural_order() {
    let v = vec![p("file11.txt"), p("file2.txt"), p("file1.txt"), p("file0002.txt"), p("file1B.txt")];
    let r = sort_paths(v);
    assert_eq!(names(&r), vec!["file1.txt", "file1B.txt", "file2.txt", "file0002.txt", "file11.txt"]);
}

#[test]
fn sort_of_empty_and_single() {
    assert!(sort_paths(Vec::new()).is_empty());
    assert_eq!(names(&sort_paths(vec![p("x")])), vec!["x"]);
}

#[test]
fn url_round_trip() {
    assert_eq!(to_url("/home/u/a.png"), "file:///home/u/a.png");
    assert_eq!(to_path("file:///home/u/a.png"), Some("/home/u/a.png".to_string()));
    assert_eq!(to_path(&to_url("rel/ü.png")), Some("rel/ü.png".to_string()));
}

#[test]
fn to_path_rejects_other_schemes() {
    assert_eq!(to_path("http://x/a.png"), None);
    assert_eq!(to_path("file:/"), None);
    assert_eq!(to_path(""), None);
    assert_eq!(to_path("file://"), Some(String::new()));
}

#[test]
fn path_sortable_from_and_eq() {
    let a: PathSortable = PathSortable::from("a.png".to_string());
    assert!(a == p("a.png"));
    assert!(a != p("b.png"));
    assert_eq!(a.as_str(), "a.png");
    assert!(a.duplicate() == a);
}

#[test]
fn tie_break_settles_natural_verdicts() {
    assert_eq!(break_tie(Ordering::Equal, "7", "007"), Ordering::Less);
    assert_eq!(break_tie(Ordering::Equal, "ab", "aa"), Ordering::Greater);
    assert_eq!(break_tie(Ordering::Equal, "x", "x"), Ordering::Equal);
    assert_eq!(break_tie(Ordering::Greater, "a", "b"), Ordering::Greater);
    assert_eq!(break_tie(Ordering::Less, "b", "a"), Ordering::Less);
}

#[test]
fn partial_order_follows_path_order() {
    assert!(p("img2.png") < p("img10.png"));
    assert!(p("b") > p("a"));
    assert_eq!(p("a").partial_cmp(&p("a")), Some(Ordering::Equal));
}
