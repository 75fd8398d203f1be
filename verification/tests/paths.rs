use images_to_video::paths::{extension, file_name, find_last, join, precedes};
use images_to_video::text::{decimal, prefixed};
use std::path::Path;

#[test]
fn find_last_gives_the_last_occurrence() {
    assert_eq!(find_last("a/b/c", '/'), Some(3));
    assert_eq!(find_last("/", '/'), Some(0));
    assert_eq!(find_last("abc", '/'), None);
    assert_eq!(find_last("", '/'), None);
    assert_eq!(find_last("é/é/", '/'), Some(3));
}

#[test]
fn file_name_is_the_last_component() {
    assert_eq!(file_name("/usr/bin/ffmpeg"), Some("ffmpeg".to_string()));
    assert_eq!(file_name("ffmpeg"), Some("ffmpeg".to_string()));
    assert_eq!(file_name("dir/.hidden"), Some(".hidden".to_string()));
    assert_eq!(file_name("dir/..."), Some("...".to_string()));
    assert_eq!(file_name("./ffmpeg"), Some("ffmpeg".to_string()));
}

#[test]
fn file_name_passes_over_trailing_separators_and_dots() {
    assert_eq!(file_name("dir/"), Some("dir".to_string()));
    assert_eq!(file_name("dir//"), Some("dir".to_string()));
    assert_eq!(file_name("dir/."), Some("dir".to_string()));
    assert_eq!(file_name("a/b/./"), Some("b".to_string()));
    assert_eq!(file_name("/bin/tool/.//"), Some("tool".to_string()));
}

#[test]
fn file_name_is_missing_for_root_dot_and_dot_dot() {
    assert_eq!(file_name(""), None);
    assert_eq!(file_name("/"), None);
    assert_eq!(file_name("//"), None);
    assert_eq!(file_name("."), None);
    assert_eq!(file_name("./"), None);
    assert_eq!(file_name("./."), None);
    assert_eq!(file_name("/."), None);
    assert_eq!(file_name(".."), None);
    assert_eq!(file_name("dir/.."), None);
    assert_eq!(file_name("dir/../"), None);
}

fn corpus() -> Vec<String> {
    let alphabet = ['/', '.', 'a', '*'];
    let mut all: Vec<String> = vec![String::new()];
    let mut last: Vec<String> = vec![String::new()];
    for _ in 0..6 {
        let mut next: Vec<String> = Vec::new();
        for s in last.iter() {
            for c in alphabet.iter() {
                let mut t = s.clone();
                t.push(*c);
                next.push(t);
            }
        }
        all.extend(next.iter().cloned());
        last = next;
    }
    all
}

#[test]
fn file_name_agrees_with_std_paths() {
    for p in corpus().iter() {
        let expected = Path::new(p).file_name().map(|n| n.to_str().unwrap().to_string());
        assert_eq!(file_name(p), expected);
    }
}

#[test]
fn extension_agrees_with_std_paths() {
    for p in corpus().iter() {
        let expected = Path::new(p).extension().map(|n| n.to_str().unwrap().to_string());
        assert_eq!(extension(p), expected);
    }
}

#[test]
fn join_agrees_with_std_paths() {
    let all = corpus();
    let short: Vec<&String> = all.iter().filter(|s| s.len() <= 3).collect();
    for a in short.iter() {
        for b in short.iter() {
            let expected = Path::new(a).join(b).to_str().unwrap().to_string();
            assert_eq!(join(a, b), expected);
        }
    }
}

#[test]
fn extension_follows_the_last_dot() {
    assert_eq!(extension("frames/0001.png"), Some("png".to_string()));
    assert_eq!(extension("a.tar.gz"), Some("gz".to_string()));
    assert_eq!(extension("a."), Some("".to_string()));
    assert_eq!(extension("dir.d/a.b"), Some("b".to_string()));
    assert_eq!(extension(".a.b"), Some("b".to_string()));
}

#[test]
fn extension_is_missing_without_a_dot_or_with_a_leading_dot_only() {
    assert_eq!(extension("dir.d/.."), None);
    assert_eq!(extension("frames/0001"), None);
    assert_eq!(extension(".bashrc"), None);
    assert_eq!(extension("dir.d/file"), None);
    assert_eq!(extension("dir.d/"), Some("d".to_string()));
    assert_eq!(extension(".."), None);
    assert_eq!(extension(""), None);
}

#[test]
fn join_puts_one_separator_between() {
    assert_eq!(join("/imgs", "Video"), "/imgs/Video");
    assert_eq!(join("/imgs/", "Video"), "/imgs/Video");
    assert_eq!(join("", "Video"), "Video");
    assert_eq!(join("/", "Video"), "/Video");
    assert_eq!(join("/imgs", ""), "/imgs/");
}

#[test]
fn join_with_an_absolute_name_gives_the_name() {
    assert_eq!(join("/imgs", "/out/video"), "/out/video");
    assert_eq!(join("", "/"), "/");
}

#[test]
fn precedes_is_lexicographic() {
    assert!(precedes("a.png", "b.png"));
    assert!(!precedes("b.png", "a.png"));
    assert!(precedes("a", "a"));
    assert!(precedes("", "a"));
    assert!(!precedes("a", ""));
    assert!(precedes("a", "ab"));
    assert!(!precedes("ab", "a"));
    assert!(precedes("0002.png", "0010.png"));
    assert!(precedes("10.png", "2.png"));
    assert!(precedes("Z", "a"));
}

#[test]
fn precedes_agrees_with_the_order_of_str() {
    let samples = ["", "a", "ab", "b", "a.png", "é", "z", "0001.png", "0001.jpg", "A"];
    for x in samples.iter() {
        for y in samples.iter() {
            assert_eq!(precedes(x, y), x <= y);
        }
    }
}

#[test]
fn decimal_writes_numbers_without_padding() {
    assert_eq!(decimal(0), "0");
    assert_eq!(decimal(4), "4");
    assert_eq!(decimal(9), "9");
    assert_eq!(decimal(10), "10");
    assert_eq!(decimal(25), "25");
    assert_eq!(decimal(1000), "1000");
    assert_eq!(decimal(4294967295), "4294967295");
}

#[test]
fn decimal_agrees_with_to_string() {
    let mut n: u32 = 1;
    for _ in 0..31 {
        assert_eq!(decimal(n), n.to_string());
        assert_eq!(decimal(n - 1), (n - 1).to_string());
        n = n.wrapping_mul(2).wrapping_add(1);
    }
}

#[test]
fn prefixed_concatenates() {
    assert_eq!(prefixed("Error: ", "x"), "Error: x");
    assert_eq!(prefixed("", ""), "");
}
