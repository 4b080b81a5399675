use subforge::cache::{derive_cache_key, hash_parts, sanitize_stem};

#[test]
fn sanitize_stem_strips_unsafe_chars() {
    assert_eq!(sanitize_stem("hello world.mp4"), "hello_world_mp4");
    assert_eq!(sanitize_stem("中文电影 Final v2"), "Final_v2");
    assert_eq!(sanitize_stem(""), "video");
}

#[test]
fn derive_key_stable_per_path() {
    let a = derive_cache_key("/movies/Test.mp4");
    let b = derive_cache_key("/movies/Test.mp4");
    assert_eq!(a, b);
    assert!(a.starts_with("Test_"));
}

#[test]
fn hash_parts_changes_on_input_change() {
    let h1 = hash_parts(&["a", "b"]);
    let h2 = hash_parts(&["a", "c"]);
    assert_ne!(h1, h2);
}
