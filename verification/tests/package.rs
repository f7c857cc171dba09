use br2_utils::package::{
    canonicalize, declaration_in, escape, rewrite_version, set_package_version,
    version_pattern_of, Error, PackageInfo, Property,
};
use br2_utils::pattern::{find, Captures, Group, Search};

const PACKAGE_VALID: &str = r##"
# Comment
FOO_VERSION    =   1.2.3
FOO_SITE   =   https://some.where/there
"##;
const PACKAGE_NO_VERSION: &str = r##"
FOO_LICENSE = LGPL-2.0+
"##;

#[test]
fn parse_package_valid() {
    let res = PackageInfo::from_reader("foo", PACKAGE_VALID);
    assert!(res.is_ok());
    let pkg = res.unwrap();
    assert_eq!(pkg.version(), "1.2.3");
    assert_eq!(
        pkg.properties().get("site").map(String::as_str),
        Some("https://some.where/there")
    );
}

#[test]
fn parse_package_invalid() {
    let res = PackageInfo::from_reader("foo", PACKAGE_NO_VERSION);
    assert!(res.is_err());
}

#[test]
fn replace_version() {
    let old_text = PACKAGE_VALID.to_string();
    let new_text = br2_utils::package::replace_version(&old_text, "foo", "3.2.1");
    let info = PackageInfo::from_reader("foo", &new_text).unwrap();
    assert_eq!(info.version(), "3.2.1");
}

#[test]
fn descriptor_with_version_and_site() {
    let pkg = PackageInfo::from_reader("foo", "FOO_VERSION = 1.2.3\nFOO_SITE = http://x").unwrap();
    assert_eq!(pkg.name(), "foo");
    assert_eq!(pkg.version(), "1.2.3");
    assert_eq!(pkg.properties().get("version").map(String::as_str), Some("1.2.3"));
    assert_eq!(pkg.properties().get("site").map(String::as_str), Some("http://x"));
    assert_eq!(pkg.properties().property(Property::Site).map(String::as_str), Some("http://x"));
    assert_eq!(pkg.properties().get("source"), None);
    assert_eq!(pkg.properties().get("license"), None);
    assert_eq!(pkg.properties().get("dependencies"), None);
    assert_eq!(pkg.properties().get("homepage"), None);
    assert!(pkg.properties().contains_key("version"));
    assert!(!pkg.properties().contains_key("license"));
}

#[test]
fn descriptor_without_version_fails() {
    let res = PackageInfo::from_reader("foo", "FOO_LICENSE = MIT");
    assert!(matches!(res, Err(Error::MissingVariable(v)) if v == "version"));
}

#[test]
fn descriptor_all_properties() {
    let text = "FOO_BAR_VERSION = 2\nFOO_BAR_SITE = s\nFOO_BAR_SOURCE = foo.tar\nFOO_BAR_LICENSE = MIT\nFOO_BAR_DEPENDENCIES = a b\n";
    let pkg = PackageInfo::from_reader("foo-bar", text).unwrap();
    assert_eq!(pkg.version(), "2");
    assert_eq!(pkg.properties().get("site").map(String::as_str), Some("s"));
    assert_eq!(pkg.properties().get("source").map(String::as_str), Some("foo.tar"));
    assert_eq!(pkg.properties().get("license").map(String::as_str), Some("MIT"));
    assert_eq!(pkg.properties().get("dependencies").map(String::as_str), Some("a b"));
}

#[test]
fn descriptor_last_declaration_wins() {
    let pkg = PackageInfo::from_reader("foo", "FOO_VERSION = 1\nFOO_VERSION = 2\n").unwrap();
    assert_eq!(pkg.version(), "2");
}

#[test]
fn descriptor_invalid_variable() {
    let res = PackageInfo::from_reader("foo", "FOO_VERSION = 1\nFOO_SITE\n");
    assert!(matches!(res, Err(Error::InvalidVariable(l)) if l == "FOO_SITE"));
    let res = PackageInfo::from_reader("foo", "FOO_SITE = a=b\nFOO_VERSION = 1");
    assert!(matches!(res, Err(Error::InvalidVariable(l)) if l == "FOO_SITE = a=b"));
}

#[test]
fn descriptor_from_path() {
    let pkg = PackageInfo::from_path("/tree/package/foo/foo.mk", "FOO_VERSION = 7\r\n").unwrap();
    assert_eq!(pkg.name(), "foo");
    assert_eq!(pkg.version(), "7");
    let res = PackageInfo::from_path("/", "FOO_VERSION = 7");
    assert!(matches!(res, Err(Error::InvalidFilename(p)) if p == "/"));
}

#[test]
fn canonical_stem() {
    assert_eq!(canonicalize("foo"), "FOO");
    assert_eq!(canonicalize("foo-bar_baz2"), "FOO_BAR_BAZ2");
    assert_eq!(version_pattern_of("foo-bar"), "(FOO_BAR_VERSION\\s*=\\s*)(.+)");
}

#[test]
fn version_rewritten_in_place() {
    let out = br2_utils::package::replace_version("FOO_VERSION    =   1.2.3\nFOO_SITE = x", "foo", "3.2.1");
    assert_eq!(out, "FOO_VERSION    =   3.2.1\nFOO_SITE = x");
}

#[test]
fn version_only_first_match_rewritten() {
    let out = br2_utils::package::replace_version("# c\nFOO_VERSION=1\nFOO_VERSION=2\n", "foo", "9");
    assert_eq!(out, "# c\nFOO_VERSION=9\nFOO_VERSION=2\n");
}

#[test]
fn version_absent_leaves_text() {
    let out = br2_utils::package::replace_version("FOO_SITE = x\n", "foo", "9");
    assert_eq!(out, "FOO_SITE = x\n");
}

#[test]
fn version_set_through_path() {
    let out = set_package_version("/p/foo-bar.mk", "FOO_BAR_VERSION = 1\n", "2").unwrap();
    assert_eq!(out, "FOO_BAR_VERSION = 2\n");
    let res = set_package_version("..", "FOO_VERSION = 1\n", "2");
    assert!(matches!(res, Err(Error::InvalidFilename(p)) if p == ".."));
    let out = set_package_version("/p/a(b.mk", "A(B_VERSION = 1\n", "2").unwrap();
    assert_eq!(out, "A(B_VERSION = 2\n");
}

#[test]
fn stem_is_matched_as_it_stands() {
    let out = br2_utils::package::replace_version("FOO_VERSION = 1", "a(", "2");
    assert_eq!(out, "FOO_VERSION = 1");
    let out = br2_utils::package::replace_version("AXB_VERSION = 1\nA.B_VERSION = 1", "a.b", "2");
    assert_eq!(out, "AXB_VERSION = 1\nA.B_VERSION = 2");
    assert_eq!(escape("A.B+C(D)_E"), "A\\.B\\+C\\(D\\)_E");
    assert_eq!(escape("\\[]{}^$#&-~|*?"), "\\\\\\[\\]\\{\\}\\^\\$\\#\\&\\-\\~\\|\\*\\?");
    assert_eq!(escape("plain_09"), "plain_09");
    assert_eq!(escape("A.B"), regex::escape("A.B"));
    assert_eq!(version_pattern_of("a.b"), "(A\\.B_VERSION\\s*=\\s*)(.+)");
}

fn group(before: &str, text: &str, after: &str) -> Option<Group> {
    Some(Group { before: before.to_string(), text: text.to_string(), after: after.to_string() })
}

#[test]
fn rewrite_from_captures() {
    let text = "a\nX_VERSION = 1\nb";
    let found = Search::Found(Captures {
        groups: vec![
            group("a\n", "X_VERSION = 1", "\nb"),
            group("a\n", "X_VERSION = ", "1\nb"),
            group("a\nX_VERSION = ", "1", "\nb"),
        ],
    });
    assert_eq!(rewrite_version(text, "x", &found, "2"), "a\nX_VERSION = 2\nb");
    assert_eq!(rewrite_version(text, "y", &found, "2"), text);
    assert_eq!(rewrite_version("other text", "x", &found, "2"), "other text");
    assert_eq!(rewrite_version("text", "x", &Search::Absent, "2"), "text");
    assert_eq!(rewrite_version("text", "x", &Search::Invalid, "2"), "text");
    let bare = Search::Found(Captures { groups: vec![group("", "x", "")] });
    assert_eq!(rewrite_version("x", "x", &bare, "2"), "x");
}

#[test]
fn declarations() {
    let text = "X_VERSION\t=  1.0\nrest";
    let good = Captures {
        groups: vec![
            group("", "X_VERSION\t=  1.0", "\nrest"),
            group("", "X_VERSION\t=  ", "1.0\nrest"),
            group("X_VERSION\t=  ", "1.0", "\nrest"),
        ],
    };
    assert!(declaration_in("X", text, &good));
    assert!(!declaration_in("Y", text, &good));
    assert!(!declaration_in("X", "X_VERSION\t=  1.0\nrest ", &good));
    let apart = Captures {
        groups: vec![
            group("", "X_VERSION\t=  1.0", "\nrest"),
            group("", "X_VERSION\t=", "  1.0\nrest"),
            group("X_VERSION\t=  ", "1.0", "\nrest"),
        ],
    };
    assert!(!declaration_in("X", text, &apart));
    let short = Captures {
        groups: vec![
            group("", "X_VERSION\t=  1", ".0\nrest"),
            group("", "X_VERSION\t=  ", "1.0\nrest"),
            group("X_VERSION\t=  ", "1", ".0\nrest"),
        ],
    };
    assert!(!declaration_in("X", text, &short));
    let no_sign = Captures {
        groups: vec![
            group("", "X_VERSION_Y = 1", ""),
            group("", "X_VERSION_Y = ", "1"),
            group("X_VERSION_Y = ", "1", ""),
        ],
    };
    assert!(!declaration_in("X", "X_VERSION_Y = 1", &no_sign));
    let ends = Captures {
        groups: vec![
            group("", "X_VERSION=1", ""),
            group("", "X_VERSION=", "1"),
            group("X_VERSION=", "1", ""),
        ],
    };
    assert!(declaration_in("X", "X_VERSION=1", &ends));
}

#[test]
fn search_cuts_the_text() {
    match find("(b+)(c)?(d)", "aabbde") {
        Search::Found(c) => {
            assert_eq!(
                c.groups,
                vec![group("aa", "bbd", "e"), group("aa", "bb", "de"), None, group("aabb", "d", "e")]
            );
            assert_eq!(c.group(1).map(|g| g.text.as_str()), Some("bb"));
            assert_eq!(c.group(2), None);
            assert_eq!(c.group(4), None);
        }
        _ => panic!("no match"),
    }
    match find("^a+$", "aa") {
        Search::Found(c) => assert_eq!(c.groups, vec![group("", "aa", "")]),
        _ => panic!("no match"),
    }
    assert!(matches!(find("x", "aabbd"), Search::Absent));
    assert!(matches!(find("(", "aabbd"), Search::Invalid));
}
