use alpm::{Alpm, Error, FreeMethod, Package, SigLevel, Usage};

fn pkg(name: &str, version: &str, desc: &str, groups: &[&str]) -> Package {
    Package::new(
        name.to_string(),
        version.to_string(),
        desc.to_string(),
        groups.iter().map(|g| g.to_string()).collect(),
    )
}

/// The reference cache the lookup tests run against: a handful of entries in
/// scan order, one of them named `linux`, one `mkinitcpio-nfs-utils`, and a
/// dozen in the `base` group.
fn core_cache() -> Vec<Package> {
    let mut cache = vec![
        pkg("linux", "5.1.8.arch1-1", "The Linux kernel and modules", &[]),
        pkg(
            "mkinitcpio-nfs-utils",
            "0.3-7",
            "ipconfig and nfsmount tools for NFS root support in mkinitcpio",
            &[],
        ),
        pkg("mkinitcpio", "38.1-1", "Modular initramfs image creation utility", &[]),
    ];
    let base = [
        "bash", "bzip2", "coreutils", "file", "filesystem", "findutils", "gawk", "gcc-libs",
        "gettext", "glibc", "grep", "gzip",
    ];
    for name in base.iter() {
        cache.push(pkg(name, "1.0-1", "part of the minimal system", &["base"]));
    }
    cache
}

#[test]
fn test_register() {
    let mut handle = Alpm::new("/", "tests/db").unwrap();
    let db = handle.register_syncdb("foo", SigLevel::none()).unwrap();

    assert_eq!(db.name(), "foo");
}

#[test]
fn test_servers() {
    let mut handle = Alpm::new("/", "tests/db").unwrap();
    let mut db = handle.register_syncdb("foo", SigLevel::none()).unwrap();
    assert_eq!(db.name(), "foo");
    let servers: Vec<String> = vec!["a", "bb", "ccc"].into_iter().map(|s| s.to_string()).collect();

    for server in &servers {
        db.add_server(server).unwrap();
    }

    let servers2 = db.servers().into_vec();
    db.set_servers(servers2).unwrap();
    let servers2 = db.servers().into_vec();
    db.set_servers(servers2).unwrap();
    let servers2 = db.servers().into_vec();
    db.set_servers(servers2).unwrap();
    let servers2 = db.servers().into_vec();
    db.set_servers(servers2).unwrap();
    let servers2 = db.servers().into_vec();
    db.set_servers(servers2).unwrap();
    let servers2 = db.servers().into_vec();
    db.set_servers(servers2).unwrap();
    let servers2 = db.servers().into_vec();
    db.set_servers(servers2).unwrap();
    let servers2 = db.servers().into_vec();
    db.set_servers(servers2).unwrap();
    let servers2 = db.servers().into_vec();
    db.set_servers(servers2).unwrap();
    let servers2 = db.servers().into_vec();
    db.set_servers(servers2).unwrap();
    let servers2 = db.servers().into_vec();
    db.set_servers(servers2).unwrap();
    let servers2 = db.servers().into_vec();
    db.set_servers(servers2).unwrap();

    assert_eq!(servers, db.servers().into_vec());
}

#[test]
fn test_set_servers() {
    let mut handle = Alpm::new("/", "tests/db").unwrap();
    let mut db = handle.register_syncdb("foo", SigLevel::none()).unwrap();
    assert_eq!(db.name(), "foo");
    let servers: Vec<String> = vec!["a", "bb", "ccc"].into_iter().map(|s| s.to_string()).collect();

    db.set_servers(servers.clone()).unwrap();

    assert_eq!(servers, db.servers().into_vec());
}

#[test]
fn test_pkg() {
    let mut handle = Alpm::new("/", "tests/db").unwrap();
    let mut db = handle.register_syncdb("core", SigLevel::none()).unwrap();
    db.load_pkgcache(core_cache());
    let pkg = db.pkg("linux").unwrap();
    assert_eq!(pkg.version(), "5.1.8.arch1-1");
}

#[test]
fn test_search() {
    let mut handle = Alpm::new("/", "tests/db").unwrap();
    let mut db = handle.register_syncdb("core", SigLevel::none()).unwrap();
    db.load_pkgcache(core_cache());
    let res = db
        .search(&vec!["^mkinitcpio-nfs-utils$".to_string()])
        .unwrap();
    let res = res.into_vec();

    for _ in &res {}
    for _ in &res {}

    assert_eq!(res.len(), 1);
    assert_eq!(res[0].name(), "mkinitcpio-nfs-utils");
}

#[test]
fn test_group() {
    let mut handle = Alpm::new("/", "tests/db").unwrap();
    let mut db = handle.register_syncdb("core", SigLevel::none()).unwrap();
    db.load_pkgcache(core_cache());
    let base = db.group("base").unwrap();
    assert_eq!(base.name(), "base");
    assert!(base.packages().iter().count() > 10);
    assert!(base.packages().iter().count() < 100);
}

#[test]
fn register_rejects_embedded_nul() {
    let mut handle = Alpm::new("/", "tests/db").unwrap();
    let err = handle.register_syncdb("fo\0o", SigLevel::none()).unwrap_err();
    assert_eq!(err, Error::InvalidName);
}

#[test]
fn register_rejects_duplicate_name() {
    let mut handle = Alpm::new("/", "tests/db").unwrap();
    handle.register_syncdb("extra", SigLevel::none()).unwrap();
    let err = handle.register_syncdb("extra", SigLevel::none()).unwrap_err();
    assert_eq!(err, Error::DuplicateName);
}

#[test]
fn register_rejects_mixed_use_default() {
    let mut handle = Alpm::new("/", "tests/db").unwrap();
    let level = SigLevel::from_bits(alpm::siglevel::SIG_USE_DEFAULT | alpm::siglevel::SIG_PACKAGE)
        .unwrap();
    let err = handle.register_syncdb("extra", level).unwrap_err();
    assert_eq!(err, Error::InvalidSigLevel);
    assert!(handle.register_syncdb("extra", SigLevel::use_default()).is_ok());
}

#[test]
fn database_signature_bits_are_a_valid_level() {
    let mut handle = Alpm::new("/", "tests/db").unwrap();
    let bits = alpm::siglevel::SIG_DATABASE | alpm::siglevel::SIG_PACKAGE;
    let level = SigLevel::from_bits(bits).unwrap();
    let db = handle.register_syncdb("core", level).unwrap();
    assert_eq!(db.siglevel().bits(), bits);
    assert!(SigLevel::from_bits(alpm::siglevel::SIG_DATABASE).is_some());
}

#[test]
fn unregister_frees_the_name() {
    let mut handle = Alpm::new("/", "tests/db").unwrap();
    let db = handle.register_syncdb("foo", SigLevel::none()).unwrap();
    assert_eq!(handle.syncdb_count(), 1);
    db.unregister(&mut handle);
    assert_eq!(handle.syncdb_count(), 0);
    assert!(handle.register_syncdb("foo", SigLevel::none()).is_ok());
}

#[test]
fn unregister_all_empties_the_ledger() {
    let mut handle = Alpm::new("/", "tests/db").unwrap();
    handle.register_syncdb("one", SigLevel::none()).unwrap();
    handle.register_syncdb("two", SigLevel::none()).unwrap();
    assert_eq!(handle.syncdb_count(), 2);
    handle.unregister_all_syncdbs().unwrap();
    assert_eq!(handle.syncdb_count(), 0);
    handle.unregister_all_syncdbs().unwrap();
    assert_eq!(handle.syncdb_count(), 0);
}

#[test]
fn add_server_rejects_nul_and_keeps_order() {
    let mut handle = Alpm::new("/", "tests/db").unwrap();
    let mut db = handle.register_syncdb("foo", SigLevel::none()).unwrap();
    db.add_server("https://one").unwrap();
    assert_eq!(db.add_server("bad\0url").unwrap_err(), Error::InvalidName);
    db.add_server("https://two").unwrap();
    assert_eq!(db.servers().into_vec(), vec!["https://one", "https://two"]);
}

#[test]
fn set_servers_rejects_nul_atomically() {
    let mut handle = Alpm::new("/", "tests/db").unwrap();
    let mut db = handle.register_syncdb("foo", SigLevel::none()).unwrap();
    db.add_server("https://kept").unwrap();
    let bad = vec!["https://ok".to_string(), "bad\0url".to_string()];
    assert_eq!(db.set_servers(bad).unwrap_err(), Error::InvalidName);
    assert_eq!(db.servers().into_vec(), vec!["https://kept"]);
}

#[test]
fn remove_server_drops_first_occurrence() {
    let mut handle = Alpm::new("/", "tests/db").unwrap();
    let mut db = handle.register_syncdb("foo", SigLevel::none()).unwrap();
    db.add_server("a").unwrap();
    db.add_server("b").unwrap();
    db.add_server("a").unwrap();
    db.remove_server("a").unwrap();
    assert_eq!(db.servers().into_vec(), vec!["b", "a"]);
    assert_eq!(db.remove_server("missing").unwrap_err(), Error::ServerNotFound);
    assert_eq!(db.servers().into_vec(), vec!["b", "a"]);
}

#[test]
fn servers_view_is_restartable_and_non_freeing() {
    let mut handle = Alpm::new("/", "tests/db").unwrap();
    let mut db = handle.register_syncdb("foo", SigLevel::none()).unwrap();
    db.add_server("a").unwrap();
    let first = db.servers();
    assert_eq!(first.free_method(), FreeMethod::NoFree);
    assert_eq!(first.len(), 1);
    assert_eq!(first.get(0).as_str(), "a");
    let again = db.servers();
    assert_eq!(again.into_vec(), vec!["a"]);
}

#[test]
fn pkg_lookup_failures() {
    let mut handle = Alpm::new("/", "tests/db").unwrap();
    let mut db = handle.register_syncdb("core", SigLevel::none()).unwrap();
    db.load_pkgcache(core_cache());
    assert_eq!(db.pkg("absent").unwrap_err(), Error::PkgNotFound);
    assert_eq!(db.pkg("lin\0ux").unwrap_err(), Error::InvalidName);
}

#[test]
fn pkgs_lists_the_whole_cache() {
    let mut handle = Alpm::new("/", "tests/db").unwrap();
    let mut db = handle.register_syncdb("core", SigLevel::none()).unwrap();
    db.load_pkgcache(core_cache());
    let list = db.pkgs().unwrap();
    assert_eq!(list.free_method(), FreeMethod::NoFree);
    assert_eq!(list.len(), core_cache().len());
    assert_eq!(list.get(0).name(), "linux");
}

#[test]
fn search_matches_substrings_and_anchors() {
    let mut handle = Alpm::new("/", "tests/db").unwrap();
    let mut db = handle.register_syncdb("core", SigLevel::none()).unwrap();
    db.load_pkgcache(core_cache());

    let by_substring = db.search(&vec!["nfs".to_string()]).unwrap().into_vec();
    assert_eq!(by_substring.len(), 1);
    assert_eq!(by_substring[0].name(), "mkinitcpio-nfs-utils");

    let by_prefix = db.search(&vec!["^mkinitcpio".to_string()]).unwrap().into_vec();
    assert_eq!(by_prefix.len(), 2);

    let by_suffix = db.search(&vec!["utils$".to_string()]).unwrap().into_vec();
    let suffix_names: Vec<&str> = by_suffix.iter().map(|p| p.name()).collect();
    assert_eq!(suffix_names, vec!["mkinitcpio-nfs-utils", "coreutils", "findutils"]);

    let both = db
        .search(&vec!["^mkinitcpio".to_string(), "nfs".to_string()])
        .unwrap()
        .into_vec();
    assert_eq!(both.len(), 1);
}

#[test]
fn search_failures() {
    let mut handle = Alpm::new("/", "tests/db").unwrap();
    let mut db = handle.register_syncdb("core", SigLevel::none()).unwrap();
    db.load_pkgcache(core_cache());
    assert_eq!(
        db.search(&vec!["^no-such-package$".to_string()]).unwrap_err(),
        Error::PkgNotFound
    );
    assert_eq!(
        db.search(&vec!["bad\0pattern".to_string()]).unwrap_err(),
        Error::InvalidName
    );
}

#[test]
fn search_refuses_regex_syntax_beyond_the_dialect() {
    let mut handle = Alpm::new("/", "tests/db").unwrap();
    let mut db = handle.register_syncdb("core", SigLevel::none()).unwrap();
    db.load_pkgcache(core_cache());
    assert_eq!(
        db.search(&vec!["^mkinitcpio.*$".to_string()]).unwrap_err(),
        Error::UnsupportedPattern
    );
    assert_eq!(
        db.search(&vec!["li[nm]ux".to_string()]).unwrap_err(),
        Error::UnsupportedPattern
    );
    assert_eq!(
        db.search(&vec!["mid^dle".to_string()]).unwrap_err(),
        Error::UnsupportedPattern
    );
}

#[test]
fn search_result_carries_shallow_free_policy() {
    let mut handle = Alpm::new("/", "tests/db").unwrap();
    let mut db = handle.register_syncdb("core", SigLevel::none()).unwrap();
    db.load_pkgcache(core_cache());
    let res = db.search(&vec!["^linux$".to_string()]).unwrap();
    assert_eq!(res.free_method(), FreeMethod::FreeList);
}

#[test]
fn group_failures() {
    let mut handle = Alpm::new("/", "tests/db").unwrap();
    let mut db = handle.register_syncdb("core", SigLevel::none()).unwrap();
    db.load_pkgcache(core_cache());
    assert_eq!(db.group("no-such-group").unwrap_err(), Error::GroupNotFound);
    assert_eq!(db.group("ba\0se").unwrap_err(), Error::InvalidName);
}

#[test]
fn groups_enumerates_distinct_names_in_first_appearance_order() {
    let mut handle = Alpm::new("/", "tests/db").unwrap();
    let mut db = handle.register_syncdb("extra", SigLevel::none()).unwrap();
    db.load_pkgcache(vec![
        pkg("alpha", "1-1", "first", &["tools", "base-devel"]),
        pkg("beta", "1-1", "second", &["base-devel"]),
        pkg("gamma", "1-1", "third", &["tools", "games"]),
    ]);
    let groups = db.groups().unwrap().into_vec();
    let names: Vec<&str> = groups.iter().map(|g| g.name()).collect();
    assert_eq!(names, vec!["tools", "base-devel", "games"]);
    assert_eq!(groups[0].packages().len(), 2);
    assert_eq!(groups[1].packages().len(), 2);
    assert_eq!(groups[2].packages().len(), 1);
    assert_eq!(groups[0].packages()[0].name(), "alpha");
    assert_eq!(groups[0].packages()[1].name(), "gamma");
}

#[test]
fn siglevel_and_usage_are_kept() {
    let mut handle = Alpm::new("/", "tests/db").unwrap();
    let mut db = handle.register_syncdb("core", SigLevel::use_default()).unwrap();
    assert_eq!(db.siglevel().bits(), alpm::siglevel::SIG_USE_DEFAULT);
    assert!(db.is_valid().is_ok());
    assert_eq!(db.usage().unwrap().bits(), alpm::usage::USAGE_ALL);
    let mask = Usage::from_bits(alpm::usage::USAGE_SEARCH).unwrap();
    db.set_usage(mask).unwrap();
    assert_eq!(db.usage().unwrap().bits(), alpm::usage::USAGE_SEARCH);
    assert!(Usage::from_bits(16).is_none());
}

#[test]
fn handle_rejects_nul_paths_and_keeps_its_own() {
    assert_eq!(Alpm::new("/\0", "tests/db").unwrap_err(), Error::InvalidName);
    let handle = Alpm::new("/", "tests/db").unwrap();
    assert_eq!(handle.root(), "/");
    assert_eq!(handle.dbpath(), "tests/db");
}

#[test]
fn error_messages_name_the_failure() {
    assert!(Error::InvalidName.message().contains("NUL"));
    assert!(Error::DuplicateName.message().contains("registered"));
    assert!(Error::PkgNotFound.message().contains("package"));
}
