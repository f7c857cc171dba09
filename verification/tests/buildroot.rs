use br2_utils::buildroot::{
    collect, is_defconfig, is_package, BuildrootTree, ExternalTreeInfo, Kind,
};
use br2_utils::builder::{Action, BuildStep};
use br2_utils::{Buildroot, BuildrootExplorer, Error, TreeSnapshot, WalkEntry};

const TEMPLATE_PACKAGE: &str = r##"
@NAME@_VERSION = 1.2.3

@NAME@_SITE = http://some/where

"##;
const TEMPLATE_CONFIG: &str = r##"
BR2_PACKAGE_FOO=y
# BR2_PACKAGE_BAR is not set
"##;

const BUILDROOT_SUBDIRS: [&str; 8] = [
    "board",
    "boot",
    "configs",
    "fs",
    "linux",
    "package",
    "toolchain",
    "utils",
];

fn dir(path: &str, name: &str) -> WalkEntry {
    WalkEntry { file_name: Some(name.to_string()), path: path.to_string(), is_file: false }
}

fn file(path: &str, name: &str) -> WalkEntry {
    WalkEntry { file_name: Some(name.to_string()), path: path.to_string(), is_file: true }
}

fn mock_configs(root: &str) -> Vec<WalkEntry> {
    let mut entries = vec![dir(&format!("{root}/configs"), "configs")];
    for name in ["acme_quux", "frob_wuz"] {
        let file_name = format!("{}_defconfig", name);
        entries.push(file(&format!("{root}/configs/{file_name}"), &file_name));
    }
    entries
}

fn mock_packages(root: &str, names: &[&str]) -> Vec<WalkEntry> {
    let mut entries = vec![dir(&format!("{root}/package"), "package")];
    for name in names {
        entries.push(dir(&format!("{root}/package/{name}"), name));
        entries.push(file(&format!("{root}/package/{name}/{name}.mk"), &format!("{name}.mk")));
    }
    entries
}

fn mock_tree(root: &str) -> TreeSnapshot {
    let mut entries = vec![dir(root, "br")];
    for name in BUILDROOT_SUBDIRS {
        match name {
            "configs" => entries.extend(mock_configs(root)),
            "package" => entries.extend(mock_packages(root, &["foo", "bar"])),
            _ => entries.push(dir(&format!("{root}/{name}"), name)),
        }
    }
    TreeSnapshot {
        path: root.to_string(),
        directories: BUILDROOT_SUBDIRS.iter().map(|d| d.to_string()).collect(),
        manifest: None,
        entries: Ok(entries),
    }
}

fn mock_external(root: &str, names: &[&str]) -> TreeSnapshot {
    let mut entries = vec![dir(root, "ext")];
    entries.extend(mock_packages(root, names));
    TreeSnapshot {
        path: root.to_string(),
        directories: vec!["package".to_string()],
        manifest: Some("name: EXTRA\ndesc: More packages\n".to_string()),
        entries: Ok(entries),
    }
}

fn mock_package_text(path: &str, version: &str) -> String {
    let name = path.rsplit('/').next().unwrap().trim_end_matches(".mk");
    TEMPLATE_PACKAGE.replace("@NAME@", &name.to_uppercase()).replace("1.2.3", version)
}

fn explore(main: TreeSnapshot) -> Buildroot {
    BuildrootExplorer::new(main).explore().unwrap()
}

#[test]
fn check_valid_buildroot() {
    let res = BuildrootExplorer::new(mock_tree("/br")).explore();
    let buildroot = res.unwrap();
    let all = buildroot.defconfigs();
    let mut defconfigs: Vec<&str> = all.iter().map(|(n, _)| n.as_str()).collect();
    defconfigs.sort();
    assert_eq!(defconfigs, ["acme_quux_defconfig", "frob_wuz_defconfig"]);
    let all = buildroot.packages();
    let mut packages: Vec<&str> = all.iter().map(|(n, _)| n.as_str()).collect();
    packages.sort();
    assert_eq!(packages, ["bar", "foo"]);
}

#[test]
fn get_package_version() {
    let buildroot = explore(mock_tree("/br"));
    let path = buildroot.package_path("foo").unwrap();
    assert_eq!(path, "/br/package/foo/foo.mk");
    let text = mock_package_text(&path, "1.2.3");
    assert_eq!(buildroot.get_package_version("foo", &text).unwrap(), "1.2.3");
}

#[test]
fn bump_package_version() {
    let buildroot = explore(mock_tree("/br"));
    let path = buildroot.package_path("foo").unwrap();
    let text = mock_package_text(&path, "1.2.3");
    let res = buildroot.set_package_version("foo", &text, "3.2.1");
    assert!(res.is_ok());
    assert_eq!(res.unwrap(), "\nFOO_VERSION = 3.2.1\n\nFOO_SITE = http://some/where\n\n");
}

#[test]
fn check_package_not_selected() {
    let buildroot = explore(mock_tree("/br"));
    assert_eq!(
        buildroot.defconfig_path("acme_quux_defconfig").unwrap(),
        "/br/configs/acme_quux_defconfig"
    );
    let res = buildroot.get_defconfig("acme_quux_defconfig", TEMPLATE_CONFIG);
    assert!(res.is_ok());
    let defconfig = res.unwrap();
    assert!(!defconfig.selects("bar"));
    assert!(defconfig.selects("foo"));
}

#[test]
fn missing_toolchain_is_no_tree() {
    let mut main = mock_tree("/br");
    main.directories.retain(|d| d != "toolchain");
    let res = BuildrootExplorer::new(main).explore();
    assert!(matches!(res, Err(Error::InvalidBuildrootTree(p)) if p == "/br"));
}

#[test]
fn each_directory_is_required() {
    for missing in BUILDROOT_SUBDIRS {
        let mut main = mock_tree("/br");
        main.directories.retain(|d| d != missing);
        main.directories.push("extra".to_string());
        assert!(matches!(
            BuildrootTree::main_from_path(&main),
            Err(Error::InvalidBuildrootTree(_))
        ));
    }
}

#[test]
fn main_tree_wins() {
    let mut explorer = BuildrootExplorer::new(mock_tree("/br"));
    explorer.external_tree(mock_external("/ext", &["foo", "quux"]));
    let buildroot = explorer.explore().unwrap();
    assert_eq!(buildroot.package_path("foo").unwrap(), "/br/package/foo/foo.mk");
    assert_eq!(buildroot.package_path("quux").unwrap(), "/ext/package/quux/quux.mk");
    let base_text = mock_package_text("/br/package/foo/foo.mk", "1.2.3");
    assert_eq!(buildroot.get_package_version("foo", &base_text).unwrap(), "1.2.3");
    let all = buildroot.packages();
    let names: Vec<&str> = all.iter().map(|(n, _)| n.as_str()).collect();
    assert_eq!(names, ["foo", "bar", "foo", "quux"]);
    assert_eq!(buildroot.main_tree_path(), "/br");
}

#[test]
fn unknown_names() {
    let buildroot = explore(mock_tree("/br"));
    assert!(matches!(
        buildroot.get_package_version("nope", ""),
        Err(Error::UnknownPackage(n)) if n == "nope"
    ));
    assert!(matches!(
        buildroot.set_package_version("nope", "", "1"),
        Err(Error::UnknownPackage(n)) if n == "nope"
    ));
    assert!(matches!(
        buildroot.get_defconfig("nope", ""),
        Err(Error::UnknownDefconfig(n)) if n == "nope"
    ));
    assert!(matches!(
        buildroot.create_builder("nope", "/out"),
        Err(Error::UnknownDefconfig(n)) if n == "nope"
    ));
    assert!(matches!(buildroot.package_path("nope"), Err(Error::UnknownPackage(_))));
    assert!(matches!(buildroot.defconfig_path("nope"), Err(Error::UnknownDefconfig(_))));
}

#[test]
fn nested_errors() {
    let buildroot = explore(mock_tree("/br"));
    assert!(matches!(
        buildroot.get_package_version("foo", "FOO_SITE = x"),
        Err(Error::Package(br2_utils::package::Error::MissingVariable(_)))
    ));
    assert!(matches!(
        buildroot.get_defconfig("acme_quux_defconfig", "BR2_x=maybe"),
        Err(Error::Defconfig(br2_utils::defconfig::Error::InvalidValue(_)))
    ));
}

#[test]
fn walk_failures() {
    let mut main = mock_tree("/br");
    main.entries = Err("permission denied".to_string());
    let res = BuildrootExplorer::new(main).explore();
    assert!(matches!(res, Err(Error::DirectoryTraversal(m)) if m == "permission denied"));
    let mut main = mock_tree("/br");
    main.directories.clear();
    main.entries = Err("permission denied".to_string());
    let res = BuildrootExplorer::new(main).explore();
    assert!(matches!(res, Err(Error::InvalidBuildrootTree(p)) if p == "/br"));
}

#[test]
fn files_are_indexed_wherever_they_stand() {
    let mut main = mock_tree("/br");
    if let Ok(entries) = &mut main.entries {
        entries.push(file("/br/configs/odd.mk", "odd.mk"));
        entries.push(file("/br/board/acme/late_defconfig", "late_defconfig"));
        entries.push(dir("/br/board/dir.mk", "dir.mk"));
    }
    let buildroot = explore(main);
    assert_eq!(buildroot.package_path("odd").unwrap(), "/br/configs/odd.mk");
    assert_eq!(
        buildroot.defconfig_path("late_defconfig").unwrap(),
        "/br/board/acme/late_defconfig"
    );
    assert!(matches!(buildroot.package_path("dir"), Err(Error::UnknownPackage(_))));
}

#[test]
fn external_tree_without_packages() {
    let external = TreeSnapshot {
        path: "/ext".to_string(),
        directories: vec!["configs".to_string()],
        manifest: Some("name: X\ndesc: Y\n".to_string()),
        entries: Ok(vec![
            dir("/ext", "ext"),
            dir("/ext/configs", "configs"),
            file("/ext/configs/a_defconfig", "a_defconfig"),
            file("/ext/external.desc", "external.desc"),
        ]),
    };
    match BuildrootTree::external_from_path(&external).unwrap() {
        BuildrootTree::External(name, tree) => {
            assert_eq!(name, "X");
            assert_eq!(
                tree.index(Kind::Defconfig).get("a_defconfig").map(String::as_str),
                Some("/ext/configs/a_defconfig")
            );
            assert_eq!(tree.index(Kind::Package).len(), 0);
        }
        BuildrootTree::Main(_) => panic!("not external"),
    }
}

#[test]
fn manifests() {
    let info = ExternalTreeInfo::from_path("/e/external.desc", &Some("name: ACME\ndesc:  Acme tree ".to_string())).unwrap();
    assert_eq!(info.name, "ACME");
    assert_eq!(info.desc, "Acme tree");
    let info = ExternalTreeInfo::from_path("/e/external.desc", &Some("desc: d\nname: n\n".to_string())).unwrap();
    assert_eq!(info.name, "n");
    assert_eq!(info.desc, "d");
    for bad in ["", "name: a", "name: a\ndesc: b\nname: c", "name: a\nurl: b", "name: a\ndesc: b: c", "name a\ndesc: b", " name: a\ndesc: b", "name: a\nname: b", "desc: a\ndesc: b"] {
        let res = ExternalTreeInfo::from_path("/e/external.desc", &Some(bad.to_string()));
        assert!(matches!(res, Err(Error::InvalidExternalTreeManifest(p)) if p == "/e/external.desc"));
    }
    let res = ExternalTreeInfo::from_path("/e/external.desc", &None);
    assert!(matches!(res, Err(Error::InvalidExternalTreeManifest(p)) if p == "/e/external.desc"));
}

#[test]
fn external_tree_needs_manifest() {
    let mut external = mock_external("/ext", &["quux"]);
    external.manifest = None;
    let mut explorer = BuildrootExplorer::new(mock_tree("/br"));
    explorer.external_tree(external);
    let res = explorer.explore();
    assert!(matches!(res, Err(Error::InvalidExternalTreeManifest(p)) if p == "/ext/external.desc"));
    match BuildrootTree::external_from_path(&mock_external("/ext", &["quux"])).unwrap() {
        BuildrootTree::External(name, tree) => {
            assert_eq!(name, "EXTRA");
            assert_eq!(tree.path(), "/ext");
            assert_eq!(tree.index(Kind::Package).len(), 1);
            assert_eq!(tree.index(Kind::Defconfig).len(), 0);
        }
        BuildrootTree::Main(_) => panic!("not external"),
    }
}

#[test]
fn entries_by_kind() {
    assert!(is_defconfig(&file("/c/a_defconfig", "a_defconfig")));
    assert!(!is_defconfig(&dir("/c/a_defconfig", "a_defconfig")));
    assert!(!is_defconfig(&file("/c/a_defconfig.bak", "a_defconfig.bak")));
    assert!(is_package(&file("/p/a/a.mk", "a.mk")));
    assert!(!is_package(&dir("/p/a.mk", "a.mk")));
    assert!(!is_package(&file("/p/a/Config.in", "Config.in")));
    let nameless = WalkEntry { file_name: None, path: "/p/x.mk".to_string(), is_file: true };
    assert!(!is_package(&nameless));
    assert!(!is_defconfig(&nameless));
}

#[test]
fn later_entry_replaces_earlier() {
    let entries = vec![
        file("/p/a/foo.mk", "foo.mk"),
        file("/p/b/bar.mk", "bar.mk"),
        file("/p/c/foo.mk", "foo.mk"),
    ];
    let index = collect(Kind::Package, &entries);
    assert_eq!(index.len(), 2);
    assert_eq!(index.get("foo").map(String::as_str), Some("/p/c/foo.mk"));
    assert_eq!(index.get("bar").map(String::as_str), Some("/p/b/bar.mk"));
    assert_eq!(index.get("baz"), None);
    assert_eq!(
        index.entries(),
        &vec![
            ("foo".to_string(), "/p/c/foo.mk".to_string()),
            ("bar".to_string(), "/p/b/bar.mk".to_string())
        ]
    );
}

#[test]
fn same_walk_same_names() {
    let mut entries = mock_packages("/br", &["foo", "bar", "baz"]);
    let first = collect(Kind::Package, &entries);
    let again = collect(Kind::Package, &entries);
    entries.reverse();
    let reversed = collect(Kind::Package, &entries);
    let names = |index: &br2_utils::buildroot::PathIndex| {
        let mut names: Vec<String> = index.entries().iter().map(|(n, _)| n.clone()).collect();
        names.sort();
        names
    };
    assert_eq!(names(&first), ["bar", "baz", "foo"]);
    assert_eq!(names(&first), names(&again));
    assert_eq!(names(&first), names(&reversed));
}

#[test]
fn builder_from_environment() {
    let mut explorer = BuildrootExplorer::new(mock_tree("/br"));
    explorer.external_tree(mock_external("/e1", &[])).external_tree(mock_external("/e2", &[]));
    let buildroot = explorer.explore().unwrap();
    let builder = buildroot.create_builder("frob_wuz_defconfig", "/out").unwrap();
    assert_eq!(builder.defconfig(), "/br/configs/frob_wuz_defconfig");
    assert_eq!(builder.output(), "/out");
    assert_eq!(builder.main(), "/br");
    assert_eq!(builder.externals(), &vec!["/e1".to_string(), "/e2".to_string()]);
    let run = buildroot.build("frob_wuz_defconfig", "/out", BuildStep::Init).unwrap();
    match run.next() {
        Action::Run(command) => assert_eq!(
            command.args,
            [
                "BR2_EXTERNAL=/e1:/e2",
                "-C",
                "/br",
                "O=/out",
                "BR2_DEFCONFIG=/br/configs/frob_wuz_defconfig",
                "defconfig"
            ]
        ),
        Action::Done(_) => panic!("nothing to run"),
    }
    assert!(matches!(
        buildroot.build("nope", "/out", BuildStep::All),
        Err(Error::UnknownDefconfig(_))
    ));
}
