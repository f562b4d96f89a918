use media_cleanup::catalog::Catalog;
use media_cleanup::names::{derive_keys, split_name};
use media_cleanup::resolve::{build_plan, build_plans, plans_for_catalog, resolve, Decision};
use media_cleanup::sidecar::{get_file_name, join_path, parent_dir};

#[test]
fn derive_keys_with_extension() {
    let (c, uc) = derive_keys("movie.mkv");
    assert_eq!(c.as_str(), "movie-C.mkv");
    assert_eq!(uc.as_str(), "movie-UC.mkv");
}

#[test]
fn derive_keys_without_extension() {
    let (c, uc) = derive_keys("movie");
    assert_eq!(c.as_str(), "movie-C");
    assert_eq!(uc.as_str(), "movie-UC");
}

#[test]
fn derive_keys_repeated_calls_agree() {
    let first = derive_keys("show.s01e01.mkv");
    let second = derive_keys("show.s01e01.mkv");
    assert_eq!(first.0, second.0);
    assert_eq!(first.1, second.1);
}

#[test]
fn split_name_at_last_dot() {
    let (stem, ext) = split_name("show.s01e01.mkv");
    assert_eq!(stem.as_str(), "show.s01e01");
    assert_eq!(ext.as_str(), "mkv");
}

#[test]
fn split_name_without_dot() {
    let (stem, ext) = split_name("movie");
    assert_eq!(stem.as_str(), "movie");
    assert_eq!(ext.as_str(), "");
}

#[test]
fn sidecar_names_are_fixed() {
    let names = get_file_name("movie");
    assert_eq!(names.len(), 4);
    assert_eq!(names[0].as_str(), "movie-thumb.jpg");
    assert_eq!(names[1].as_str(), "movie-fanart.jpg");
    assert_eq!(names[2].as_str(), "movie-poster.jpg");
    assert_eq!(names[3].as_str(), "movie.nfo");
}

#[test]
fn parent_and_join() {
    assert_eq!(parent_dir("/lib/movie.mkv").as_str(), "/lib");
    assert_eq!(parent_dir("movie.mkv").as_str(), "");
    assert_eq!(join_path("/lib", "movie.nfo").as_str(), "/lib/movie.nfo");
    assert_eq!(join_path("", "movie.nfo").as_str(), "movie.nfo");
}

#[test]
fn catalog_last_write_wins() {
    let mut cat = Catalog::new();
    cat.insert("movie.mkv".to_string(), "/a/movie.mkv".to_string());
    cat.insert("movie.mkv".to_string(), "/b/movie.mkv".to_string());
    assert_eq!(cat.len(), 1);
    let name = "movie.mkv".to_string();
    assert!(cat.contains_name(&name));
    assert_eq!(cat.get(&name).unwrap().as_str(), "/b/movie.mkv");
    let missing = "other.mkv".to_string();
    assert!(!cat.contains_name(&missing));
    assert!(cat.get(&missing).is_none());
}

#[test]
fn catalog_from_pairs_later_pair_wins() {
    let pairs = vec![
        ("movie.mkv".to_string(), "/a/movie.mkv".to_string()),
        ("other.mkv".to_string(), "/a/other.mkv".to_string()),
        ("movie.mkv".to_string(), "/b/movie.mkv".to_string()),
    ];
    let cat = Catalog::from_pairs(pairs);
    assert_eq!(cat.len(), 2);
    let name = "movie.mkv".to_string();
    assert_eq!(cat.get(&name).unwrap().as_str(), "/b/movie.mkv");
}

#[test]
fn lone_entry_is_kept() {
    let mut cat = Catalog::new();
    cat.insert("movie.mkv".to_string(), "/lib/movie.mkv".to_string());
    let name = "movie.mkv".to_string();
    assert_eq!(resolve(&name, &cat), Decision::Keep);
    let plans = build_plans(&name, &"/lib/movie.mkv".to_string(), &cat);
    assert_eq!(plans.len(), 0);
}

#[test]
fn uc_alternate_supersedes_primary() {
    let mut cat = Catalog::new();
    cat.insert("movie.mkv".to_string(), "/lib/movie.mkv".to_string());
    cat.insert("movie-UC.mkv".to_string(), "/lib/movie-UC.mkv".to_string());
    let name = "movie.mkv".to_string();
    assert_eq!(resolve(&name, &cat), Decision::RemovePrimary);
    let plans = build_plans(&name, &"/lib/movie.mkv".to_string(), &cat);
    assert_eq!(plans.len(), 1);
    let plan = &plans[0];
    assert_eq!(plan.len(), 5);
    let primary = plan.target_at(0);
    assert_eq!(primary.0.as_str(), "movie.mkv");
    assert_eq!(primary.1.as_str(), "/lib/movie.mkv");
    let expected = [
        ("movie-thumb.jpg", "/lib/movie-thumb.jpg"),
        ("movie-fanart.jpg", "/lib/movie-fanart.jpg"),
        ("movie-poster.jpg", "/lib/movie-poster.jpg"),
        ("movie.nfo", "/lib/movie.nfo"),
    ];
    for (i, (n, p)) in expected.iter().enumerate() {
        let t = plan.target_at(i + 1);
        assert_eq!(t.0.as_str(), *n);
        assert_eq!(t.1.as_str(), *p);
    }
}

#[test]
fn c_alternate_supersedes_primary() {
    let mut cat = Catalog::new();
    cat.insert("movie.mkv".to_string(), "/lib/movie.mkv".to_string());
    cat.insert("movie-C.mkv".to_string(), "/lib/movie-C.mkv".to_string());
    let name = "movie.mkv".to_string();
    assert_eq!(resolve(&name, &cat), Decision::RemovePrimary);
}

#[test]
fn both_alternates_remove_primary_and_c_variant() {
    let mut cat = Catalog::new();
    cat.insert("movie.mkv".to_string(), "/lib/movie.mkv".to_string());
    cat.insert("movie-C.mkv".to_string(), "/lib/movie-C.mkv".to_string());
    cat.insert("movie-UC.mkv".to_string(), "/lib/movie-UC.mkv".to_string());
    let name = "movie.mkv".to_string();
    assert_eq!(resolve(&name, &cat), Decision::RemoveConflictingVariant);
    let plans = build_plans(&name, &"/lib/movie.mkv".to_string(), &cat);
    assert_eq!(plans.len(), 2);
    assert_eq!(plans[0].target_at(0).0.as_str(), "movie.mkv");
    let variant = &plans[1];
    assert_eq!(variant.len(), 5);
    assert_eq!(variant.target_at(0).0.as_str(), "movie-C.mkv");
    assert_eq!(variant.target_at(0).1.as_str(), "/lib/movie-C.mkv");
    assert_eq!(variant.target_at(1).0.as_str(), "movie-C-thumb.jpg");
    assert_eq!(variant.target_at(4).0.as_str(), "movie-C.nfo");
    // the -UC variant itself is untouched
    let uc = "movie-UC.mkv".to_string();
    assert_eq!(resolve(&uc, &cat), Decision::Keep);
    // the -C variant, resolved on its own, is also superseded by nothing
    let c = "movie-C.mkv".to_string();
    assert_eq!(resolve(&c, &cat), Decision::Keep);
}

#[test]
fn whole_catalog_plans() {
    let mut cat = Catalog::new();
    cat.insert("movie.mkv".to_string(), "/lib/movie.mkv".to_string());
    cat.insert("movie-C.mkv".to_string(), "/lib/movie-C.mkv".to_string());
    cat.insert("movie-UC.mkv".to_string(), "/lib/movie-UC.mkv".to_string());
    cat.insert("other.mkv".to_string(), "/lib/other.mkv".to_string());
    let plans = plans_for_catalog(&cat);
    assert_eq!(plans.len(), 2);
    assert_eq!(plans[0].target_at(0).0.as_str(), "movie.mkv");
    assert_eq!(plans[1].target_at(0).0.as_str(), "movie-C.mkv");
}

#[test]
fn plan_for_name_without_slash() {
    let plan = build_plan(&"movie.mkv".to_string(), &"movie.mkv".to_string());
    assert_eq!(plan.len(), 5);
    assert_eq!(plan.target_at(1).1.as_str(), "movie-thumb.jpg");
}
