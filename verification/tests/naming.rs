use rusticsort::organizer::{
    candidate_file_name, contains_name, destination_candidates, get_safe_destination_path,
};
use rusticsort::paths::{
    config_dir_under, config_file_path_under, file_extension, file_name, file_stem, get_config_dir,
    get_config_file_path, join_path,
};
use rusticsort::text::{eq_ignore_ascii_case, push_decimal, str_eq};

#[test]
fn ascii_case_is_ignored_for_letters_only() {
    assert!(eq_ignore_ascii_case("JPG", "jpg"));
    assert!(eq_ignore_ascii_case("Tar.Gz", "tAR.gZ"));
    assert!(!eq_ignore_ascii_case("jpg", "jpeg"));
    assert!(!eq_ignore_ascii_case("É", "é"));
    assert!(!eq_ignore_ascii_case("a", "b"));
    assert!(eq_ignore_ascii_case("", ""));
    assert!(!eq_ignore_ascii_case("[", "{"));
}

#[test]
fn plain_equality_of_texts() {
    assert!(str_eq("abc", "abc"));
    assert!(!str_eq("abc", "abd"));
    assert!(!str_eq("abc", "ab"));
    assert!(str_eq("", ""));
}

#[test]
fn decimal_notation() {
    let mut s = String::from("n=");
    push_decimal(&mut s, 0);
    assert_eq!(s, "n=0");
    let mut s = String::new();
    push_decimal(&mut s, 1024);
    assert_eq!(s, "1024");
    let mut s = String::new();
    push_decimal(&mut s, u64::MAX);
    assert_eq!(s, u64::MAX.to_string());
}

#[test]
fn joining_paths_like_pathbuf_push() {
    assert_eq!(join_path("/home/u", "Images"), "/home/u/Images");
    assert_eq!(join_path("/home/u/", "Images"), "/home/u/Images");
    assert_eq!(join_path("", "Images"), "Images");
    assert_eq!(join_path("/home/u", "/srv/x"), "/srv/x");
    assert_eq!(join_path("a", ""), "a/");
    for (b, p) in [("/home/u", "Images"), ("rel/dir/", "x/y"), ("", "z"), ("a", "/b")] {
        let expected = std::path::Path::new(b).join(p);
        assert_eq!(join_path(b, p), expected.to_str().unwrap());
    }
}

#[test]
fn stems_and_extensions_like_std_path() {
    assert_eq!(file_stem("photo.JPG"), "photo");
    assert_eq!(file_extension("photo.JPG"), Some("JPG".to_string()));
    assert_eq!(file_stem(".bashrc"), ".bashrc");
    assert_eq!(file_extension(".bashrc"), None);
    assert_eq!(file_stem("archive.tar.gz"), "archive.tar");
    assert_eq!(file_extension("archive.tar.gz"), Some("gz".to_string()));
    assert_eq!(file_stem("README"), "README");
    assert_eq!(file_extension("README"), None);
    assert_eq!(file_stem("a."), "a");
    assert_eq!(file_extension("a."), Some(String::new()));
    assert_eq!(file_stem(".."), "..");
    assert_eq!(file_extension(".."), None);
    for name in ["x.y.z", ".hidden.txt", "plain", "trailing.", "..x", "é.ü"] {
        let p = std::path::Path::new(name);
        assert_eq!(file_stem(name), p.file_stem().unwrap().to_str().unwrap());
        assert_eq!(
            file_extension(name),
            p.extension().map(|e| e.to_str().unwrap().to_string())
        );
    }
}

#[test]
fn name_rebuilt_from_stem_and_extension() {
    for name in ["a.b", "my.photo.png", "x.", "weird..name"] {
        let stem = file_stem(name);
        let ext = file_extension(name).unwrap();
        assert_eq!(format!("{}.{}", stem, ext), name);
        assert!(!ext.contains('.'));
    }
}

#[test]
fn candidate_names_in_order() {
    assert_eq!(candidate_file_name("photo", "jpg", 0), "photo.jpg");
    assert_eq!(candidate_file_name("photo", "jpg", 1), "photo_1.jpg");
    assert_eq!(candidate_file_name("photo", "jpg", 12), "photo_12.jpg");
    assert_eq!(candidate_file_name("", "", 0), ".");
}

#[test]
fn candidate_names_are_all_different() {
    let names: Vec<String> = (0..200).map(|i| candidate_file_name("a", "b", i)).collect();
    for i in 0..names.len() {
        for j in 0..i {
            assert_ne!(names[i], names[j]);
        }
    }
}

#[test]
fn name_lookup_in_a_listing() {
    let listing = vec!["a.b".to_string(), "c".to_string()];
    assert!(contains_name(&listing, "c"));
    assert!(!contains_name(&listing, "a"));
    assert!(!contains_name(&[], "a"));
}

#[test]
fn safe_destination_when_nothing_is_taken() {
    assert_eq!(get_safe_destination_path("/t", "photo", "jpg", &[]), "/t/photo.jpg");
}

#[test]
fn safe_destination_skips_taken_names() {
    let taken = vec!["/t/photo.jpg".to_string(), "/t/photo_1.jpg".to_string(), "/t/other".to_string()];
    assert_eq!(get_safe_destination_path("/t", "photo", "jpg", &taken), "/t/photo_2.jpg");
    let bare_names = vec!["photo.jpg".to_string()];
    assert_eq!(get_safe_destination_path("/t", "photo", "jpg", &bare_names), "/t/photo.jpg");
}

#[test]
fn safe_destination_takes_the_first_free_name() {
    let taken = vec!["/t/photo_1.jpg".to_string()];
    assert_eq!(get_safe_destination_path("/t/", "photo", "jpg", &taken), "/t/photo.jpg");
    let taken = destination_candidates("d", "x", "y", 30);
    let got = get_safe_destination_path("d", "x", "y", &taken);
    assert_eq!(got, "d/x_30.y");
    assert!(!taken.contains(&got));
}

#[test]
fn safe_destination_with_separators_in_the_name() {
    let taken = vec!["/t/sub/a.b".to_string(), "/abs/x.y".to_string()];
    assert_eq!(get_safe_destination_path("/t", "sub/a", "b", &taken), "/t/sub/a_1.b");
    assert_eq!(get_safe_destination_path("/t", "/abs/x", "y", &taken), "/abs/x_1.y");
    assert_eq!(get_safe_destination_path("/t", "a", "b/c", &[]), "/t/a.b/c");
}

#[test]
fn destination_tries_in_order() {
    assert_eq!(
        destination_candidates("/t", "photo", "jpg", 3),
        vec!["/t/photo.jpg".to_string(), "/t/photo_1.jpg".to_string(), "/t/photo_2.jpg".to_string()]
    );
    assert!(destination_candidates("/t", "photo", "jpg", 0).is_empty());
}

#[test]
fn config_paths_below_a_base() {
    assert_eq!(
        config_dir_under(Some("/home/u/.config")),
        Some("/home/u/.config/RusticSort".to_string())
    );
    assert_eq!(
        config_file_path_under(Some("/home/u/.config")),
        Some("/home/u/.config/RusticSort/config.json".to_string())
    );
    assert_eq!(config_dir_under(None), None);
    assert_eq!(config_file_path_under(None), None);
}

#[test]
fn config_paths_from_the_environment() {
    if let Some(d) = get_config_dir() {
        assert!(d.ends_with("/RusticSort"));
    }
    if let Some(f) = get_config_file_path() {
        assert!(f.ends_with("/RusticSort/config.json"));
        if let Some(base) = dirs::config_dir() {
            let expected = base.join("RusticSort").join("config.json");
            assert_eq!(f, expected.to_string_lossy());
        }
    }
}

#[test]
fn file_names_like_std_path() {
    assert_eq!(file_name("/home/u/a.jpg"), Some("a.jpg".to_string()));
    assert_eq!(file_name("a.jpg"), Some("a.jpg".to_string()));
    assert_eq!(file_name("/home/u/dir/"), Some("dir".to_string()));
    assert_eq!(file_name("/"), None);
    assert_eq!(file_name(""), None);
    assert_eq!(file_name("a/.."), None);
    for p in ["/x/y", "x//y", "x/y/.", "x/./", "./x", ".", "./.", "..", "...", "/a/b/..", "a/b/c.d/"] {
        let expected = std::path::Path::new(p)
            .file_name()
            .map(|n| n.to_str().unwrap().to_string());
        assert_eq!(file_name(p), expected, "path {:?}", p);
    }
}
