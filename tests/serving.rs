use meta_fastdl::allow_list::AllowList;
use meta_fastdl::resolve::{decide, Lookup, Verdict};

fn dirs(v: &[&str]) -> Vec<String> {
    v.iter().map(|s| s.to_string()).collect()
}

fn found(p: &str) -> Lookup {
    Lookup::Found(Some(p.to_string()))
}

#[test]
fn example_scenario() {
    let mut list = AllowList::new("/srv/content", &dirs(&["maps"]));
    list.insert_exact("extra/logo.bmp");

    let v = decide(&list, &found("/srv/content/maps/de_dust2.bsp"));
    assert_eq!(v, Verdict::Serve);
    assert_eq!(v.status(), 200);

    let v = decide(&list, &found("/srv/content/extra/logo.bmp"));
    assert_eq!(v, Verdict::Serve);
    assert_eq!(v.status(), 200);

    let v = decide(&list, &found("/srv/content/extra/secret.cfg"));
    assert_eq!(v, Verdict::Forbidden);
    assert_eq!(v.status(), 403);
    assert_eq!(v.body(), "403 Forbidden");

    let v = decide(&list, &Lookup::NotFound);
    assert_eq!(v, Verdict::NotFound);
    assert_eq!(v.status(), 404);
    assert_eq!(v.body(), "404 Not Found");
}

#[test]
fn exact_entry_is_served() {
    let mut list = AllowList::new("/srv/content", &dirs(&[]));
    assert_eq!(decide(&list, &found("/srv/content/sound/a.wav")), Verdict::Forbidden);
    list.insert_exact("sound/a.wav");
    assert!(list.contains_exact("/srv/content/sound/a.wav"));
    assert!(!list.contains_exact("/srv/content/sound/b.wav"));
    assert_eq!(decide(&list, &found("/srv/content/sound/a.wav")), Verdict::Serve);
    assert_eq!(decide(&list, &found("/srv/content/sound/b.wav")), Verdict::Forbidden);
}

#[test]
fn exact_entry_is_normalised_on_insert() {
    let mut list = AllowList::new("/srv/content/", &dirs(&[]));
    list.insert_exact("./sound//x/../a.wav");
    assert!(list.contains_exact("/srv/content/sound/a.wav"));
    assert_eq!(decide(&list, &found("/srv/content/sound/a.wav")), Verdict::Serve);
}

#[test]
fn absolute_exact_entry_replaces_root() {
    let mut list = AllowList::new("/srv/content", &dirs(&[]));
    list.insert_exact("/other/file.txt");
    assert!(list.contains_exact("/other/file.txt"));
    assert!(!list.contains_exact("/srv/content/other/file.txt"));
}

#[test]
fn prefix_serves_whole_subtree() {
    let list = AllowList::new("/srv/content", &dirs(&["maps", "models/player"]));
    assert_eq!(decide(&list, &found("/srv/content/maps/a.bsp")), Verdict::Serve);
    assert_eq!(decide(&list, &found("/srv/content/maps/sub/deep/b.bsp")), Verdict::Serve);
    assert_eq!(decide(&list, &found("/srv/content/models/player/x.mdl")), Verdict::Serve);
    assert_eq!(decide(&list, &found("/srv/content/models/other/x.mdl")), Verdict::Forbidden);
}

#[test]
fn no_false_ancestor() {
    let list = AllowList::new("/", &dirs(&["public"]));
    assert!(list.has_ancestor_prefix("/public/file"));
    assert!(!list.has_ancestor_prefix("/public2/file"));
    assert_eq!(decide(&list, &found("/public2/file")), Verdict::Forbidden);
    assert_eq!(decide(&list, &found("/public/file")), Verdict::Serve);
}

#[test]
fn shorter_ancestor_found_behind_longer_false_one() {
    let list = AllowList::new("/", &dirs(&["a", "a/b2"]));
    assert!(list.has_ancestor_prefix("/a/b2x/f"));
    assert!(list.has_ancestor_prefix("/a/b2/f"));
    assert!(!list.has_ancestor_prefix("/ab/f"));
    assert_eq!(decide(&list, &found("/a/b2x/f")), Verdict::Serve);
}

#[test]
fn default_deny() {
    let list = AllowList::new("/srv/content", &dirs(&["maps"]));
    assert_eq!(decide(&list, &found("/srv/content/server.cfg")), Verdict::Forbidden);
    assert_eq!(decide(&list, &found("/srv/content/mapsx/a.bsp")), Verdict::Forbidden);
    assert_eq!(decide(&list, &found("/etc/passwd")), Verdict::Forbidden);
}

#[test]
fn traversal_is_normalised_before_the_check() {
    let list = AllowList::new("/srv/content", &dirs(&["maps"]));
    assert_eq!(decide(&list, &found("/srv/content/maps/../server.cfg")), Verdict::Forbidden);
    assert_eq!(decide(&list, &found("/srv/content/x/../maps/a.bsp")), Verdict::Serve);
}

#[test]
fn missing_path_is_not_found_whatever_is_allowed() {
    let mut list = AllowList::new("/", &dirs(&[""]));
    list.insert_exact("missing.txt");
    assert_eq!(decide(&list, &Lookup::NotFound), Verdict::NotFound);
    assert_eq!(decide(&list, &Lookup::IsDirectory), Verdict::NotFound);
    assert_eq!(decide(&list, &Lookup::MethodNotMatched), Verdict::NotFound);
    assert_eq!(decide(&list, &Lookup::PermissionDenied), Verdict::NotFound);
}

#[test]
fn unknown_or_relative_file_path_is_refused() {
    let list = AllowList::new("/", &dirs(&[""]));
    assert_eq!(decide(&list, &Lookup::Found(None)), Verdict::Forbidden);
    assert_eq!(decide(&list, &found("relative/file")), Verdict::Forbidden);
    assert_eq!(decide(&list, &found("")), Verdict::Forbidden);
    assert_eq!(decide(&list, &found("/any/file")), Verdict::Serve);
}

#[test]
fn io_failure_is_server_error() {
    let list = AllowList::new("/srv", &dirs(&[]));
    let v = decide(&list, &Lookup::Failed);
    assert_eq!(v, Verdict::ServerError);
    assert_eq!(v.status(), 500);
    assert_eq!(v.body(), "500 Internal Server Error");
    assert_eq!(Verdict::Serve.body(), "");
}

#[test]
fn prefix_added_later_is_served() {
    let mut list = AllowList::new("/srv/content", &dirs(&[]));
    assert!(!list.is_allowed("/srv/content/sprites/a.spr"));
    list.insert_prefix("sprites");
    assert!(list.is_allowed("/srv/content/sprites/a.spr"));
    assert!(!list.is_allowed("sprites/a.spr"));
}

#[test]
fn insertions_keep_earlier_entries() {
    let mut list = AllowList::new("/srv", &dirs(&["maps"]));
    for i in 0..50 {
        list.insert_exact(&format!("extra/f{}.txt", i));
    }
    for i in 0..50 {
        assert!(list.is_allowed(&format!("/srv/extra/f{}.txt", i)));
    }
    assert!(list.is_allowed("/srv/maps/a.bsp"));
    assert!(!list.is_allowed("/srv/extra/f50.txt"));
}

#[test]
fn non_ascii_paths() {
    let list = AllowList::new("/srv/内容", &dirs(&["kärtan"]));
    assert!(list.is_allowed("/srv/内容/kärtan/ö.bsp"));
    assert!(!list.is_allowed("/srv/内容/kärtanx/ö.bsp"));
}

#[test]
fn duplicate_prefixes_are_harmless() {
    let list = AllowList::new("/srv", &dirs(&["maps", "maps", "./maps/"]));
    assert!(list.is_allowed("/srv/maps/a.bsp"));
    assert!(!list.is_allowed("/srv/other/a.bsp"));
}
