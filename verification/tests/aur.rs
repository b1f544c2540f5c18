use sanae::sources::aur::{info_requests, pkgbuild_request, rpc_outcome, search_request, urlencode, RpcPackage, SearchBy};

fn rpc(name: &str) -> RpcPackage {
    RpcPackage {
        name: name.into(),
        version: "1.0-1".into(),
        description: Some("d".into()),
        package_base: Some("base".into()),
        num_votes: 12,
        popularity: 1_500_000,
        out_of_date: Some(5),
        maintainer: Some("m".into()),
        last_modified: Some(6),
        url: None,
        license: vec!["MIT".into()],
        depends: vec!["glibc".into()],
        make_depends: vec![],
        opt_depends: vec![],
        provides: vec![],
        conflicts: vec![],
        replaces: vec![],
        keywords: vec![],
        groups: vec![],
    }
}

#[test]
fn urlencode_keeps_unreserved_bytes() {
    assert_eq!(urlencode("a-b_c.d~e+f@g"), "a-b_c.d~e+f@g");
    assert_eq!(urlencode("c++ ide/x"), "c++%20ide%2Fx");
    assert_eq!(urlencode("é"), "%C3%A9");
}

#[test]
fn searches_need_two_bytes() {
    assert!(search_request(" a ", SearchBy::NameDesc).is_none());
    let r = search_request("  web browser ", SearchBy::default()).unwrap();
    assert_eq!(r.url, "https://aur.archlinux.org/rpc/v5/search/web%20browser?by=name-desc");
    assert_eq!(r.cache_key, "search-name-desc-web browser");
    assert!(search_request("é", SearchBy::Maintainer).is_some());
    assert_eq!(SearchBy::MakeDepends.as_str(), "makedepends");
}

#[test]
fn info_goes_in_batches_of_a_hundred() {
    let names: Vec<String> = (0..250).map(|i| format!("p{i}")).collect();
    let reqs = info_requests(&names);
    assert_eq!(reqs.len(), 3);
    assert!(reqs[0].url.starts_with("https://aur.archlinux.org/rpc/v5/info?arg[]=p0&arg[]=p1&"));
    assert!(reqs[2].url.ends_with("arg[]=p249"));
    assert!(reqs[1].cache_key.starts_with("info-p100,p101,"));
    assert!(info_requests(&vec![]).is_empty());
    let r = pkgbuild_request("a b");
    assert_eq!(r.url, "https://aur.archlinux.org/cgit/aur.git/plain/PKGBUILD?h=a%20b");
    assert_eq!(r.cache_key, "pkgbuild-a b");
}

#[test]
fn records_map_to_packages_and_errors_to_messages() {
    let r = rpc("yay");
    let p = r.to_package();
    assert!(p.source.is_aur());
    assert_eq!(p.description, "d");
    assert_eq!(p.votes, Some(12));
    assert_eq!(p.popularity, Some(1_500_000));
    assert!(!p.is_installed());
    let d = r.to_details();
    assert_eq!(d.depends, vec!["glibc"]);
    assert_eq!(d.package_base.as_deref(), Some("base"));
    assert_eq!(rpc_outcome(Some("Too many package results.".into()), vec![]).unwrap_err(), "AUR: Too many package results.");
    assert_eq!(rpc_outcome(None, vec![rpc("a"), rpc("b")]).unwrap().len(), 2);
}
