use sanae::cache::{fxhash, Cache};

#[test]
fn fnv1a_matches_the_reference_values() {
    assert_eq!(fxhash(""), 0xcbf2_9ce4_8422_2325);
    assert_eq!(fxhash("a"), 0xaf63_dc4c_8601_ec8c);
    assert_eq!(fxhash("foobar"), 0x8594_4171_f739_67e8);
}

#[test]
fn paths_are_safe_and_hashed() {
    let c = Cache::at("/home/u/.cache/sanae");
    let p = c.path("search-name-desc-c++ ide");
    assert_eq!(p, format!("/home/u/.cache/sanae/search-name-desc-c___ide-{:016x}", fxhash("search-name-desc-c++ ide")));
    let long = "x".repeat(200);
    let p = Cache::at("/tmp/").path(&long);
    assert_eq!(p, format!("/tmp/{}-{:016x}", "x".repeat(120), fxhash(&long)));
    assert!(Cache::disabled().is_disabled());
    assert_eq!(Cache::disabled().path("news"), format!("news-{:016x}", fxhash("news")));
    assert_eq!(Cache::disabled().dir(), "");
}
