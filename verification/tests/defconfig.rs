use br2_utils::defconfig::{Defconfig, Error, Symbol, SymbolValue};
use br2_utils::pattern::{Captures, Group, Search};

const DEFCONFIG_VALID: &str = r#"
# Comment
BR2_i386=y
BR2_PACKAGE_FOO=y
BR2_PACKAGE_FOO_BAR="1.2.3"
# BR2_PACKAGE_QUUX is not set
"#;

fn reference_symbols() -> Vec<Symbol> {
    vec![
        Symbol {
            name: "BR2_i386".to_string(),
            value: SymbolValue::Bool(true),
        },
        Symbol {
            name: "BR2_PACKAGE_FOO".to_string(),
            value: SymbolValue::Bool(true),
        },
        Symbol {
            name: "BR2_PACKAGE_FOO_BAR".to_string(),
            value: SymbolValue::String("1.2.3".to_string()),
        },
        Symbol {
            name: "BR2_PACKAGE_QUUX".to_string(),
            value: SymbolValue::Bool(false),
        },
    ]
}

#[test]
fn symbol_no_value() {
    let res = "BR2_PACKAGE_FOO".parse::<Symbol>();
    assert!(res.is_err());
}

#[test]
fn symbol_invalid_not_selected() {
    let res = "#   BR2_PACKAGE_FOO    is   not set".parse::<Symbol>();
    assert!(res.is_err());
}

#[test]
fn valid_defconfig() {
    let res = Defconfig::from_reader(DEFCONFIG_VALID);
    assert!(res.is_ok());
    assert_eq!(res.unwrap().symbols(), &reference_symbols()[..]);
}

#[test]
fn does_select() {
    let defconfig = Defconfig::from_reader(DEFCONFIG_VALID).unwrap();
    assert!(defconfig.selects("foo"));
}

#[test]
fn does_not_select() {
    let defconfig = Defconfig::from_reader(DEFCONFIG_VALID).unwrap();
    assert!(!defconfig.selects("bar"));
}

#[test]
fn symbol_set_forms() {
    assert_eq!(
        Symbol::from_str("BR2_PACKAGE_FOO=y").unwrap(),
        Symbol { name: "BR2_PACKAGE_FOO".to_string(), value: SymbolValue::Bool(true) }
    );
    assert_eq!(
        Symbol::from_str("BR2_PACKAGE_FOO=n").unwrap(),
        Symbol { name: "BR2_PACKAGE_FOO".to_string(), value: SymbolValue::Bool(false) }
    );
    assert_eq!(
        Symbol::from_str("BR2_TARGET=\"a b\"").unwrap(),
        Symbol { name: "BR2_TARGET".to_string(), value: SymbolValue::String("a b".to_string()) }
    );
    assert_eq!(
        Symbol::from_str("# BR2_PACKAGE_BAR is not set").unwrap(),
        Symbol { name: "BR2_PACKAGE_BAR".to_string(), value: SymbolValue::Bool(false) }
    );
}

#[test]
fn symbol_errors() {
    assert!(matches!(Symbol::from_str("BR2_PACKAGE_FOO=maybe"), Err(Error::InvalidValue(v)) if v == "maybe"));
    assert!(matches!(Symbol::from_str("hello"), Err(Error::InvalidSymbol(l)) if l == "hello"));
    assert!(matches!(Symbol::from_str("BR2_PACKAGE_FOO="), Err(Error::InvalidSymbol(_))));
}

#[test]
fn irregular_unset_comment_fails_the_preset() {
    let res = Defconfig::from_reader("BR2_i386=y\n#   BR2_PACKAGE_FOO    is not set\n");
    assert!(matches!(res, Err(Error::InvalidSymbol(l)) if l == "#   BR2_PACKAGE_FOO    is not set"));
    let res = Defconfig::from_reader("BR2_i386=y\n# BR2_PACKAGE_FOO is   not set\n");
    assert_eq!(res.unwrap().symbols().len(), 1);
}

#[test]
fn comments_and_blank_lines_are_skipped() {
    let defconfig = Defconfig::from_reader("\n# BR2_PACKAGE_FOO=y\n\n# plain\r\nBR2_A=n\r\n").unwrap();
    assert_eq!(
        defconfig.symbols(),
        &[Symbol { name: "BR2_A".to_string(), value: SymbolValue::Bool(false) }][..]
    );
    assert!(Defconfig::from_reader("").unwrap().symbols().is_empty());
}

#[test]
fn first_error_is_reported() {
    let res = Defconfig::from_reader("BR2_A=what\nnonsense\n");
    assert!(matches!(res, Err(Error::InvalidValue(v)) if v == "what"));
}

#[test]
fn selection_by_canonical_name() {
    let defconfig =
        Defconfig::from_reader("BR2_PACKAGE_FOO_BAR=y\nBR2_PACKAGE_BAZ=n\nBR2_PACKAGE_QUX=\"y\"\n").unwrap();
    assert!(defconfig.selects("foo-bar"));
    assert!(defconfig.selects("FOO_bar"));
    assert!(!defconfig.selects("foo"));
    assert!(!defconfig.selects("baz"));
    assert!(!defconfig.selects("qux"));
}

#[test]
fn selected_once_set_even_if_unset_later() {
    let defconfig = Defconfig::from_reader("BR2_PACKAGE_FOO=y\nBR2_PACKAGE_FOO=n\n").unwrap();
    assert!(defconfig.selects("foo"));
    let defconfig = Defconfig::from_reader("# BR2_PACKAGE_FOO is not set\nBR2_PACKAGE_FOO=y\n").unwrap();
    assert!(defconfig.selects("foo"));
}

#[test]
fn values() {
    assert_eq!(SymbolValue::from_str("y").unwrap(), SymbolValue::Bool(true));
    assert_eq!(SymbolValue::from_str("n").unwrap(), SymbolValue::Bool(false));
    assert_eq!(SymbolValue::from_str("\"\"").unwrap(), SymbolValue::String(String::new()));
    assert_eq!(SymbolValue::from_str("\"a\"").unwrap(), SymbolValue::String("a".to_string()));
    assert_eq!("\"x y\"".parse::<SymbolValue>().unwrap(), SymbolValue::String("x y".to_string()));
    assert!(matches!(SymbolValue::from_str("\""), Err(Error::InvalidValue(v)) if v == "\""));
    assert!(matches!(SymbolValue::from_str("yes"), Err(Error::InvalidValue(v)) if v == "yes"));
    assert!(matches!(SymbolValue::from_str(""), Err(Error::InvalidValue(v)) if v.is_empty()));
}

fn whole(text: &str) -> Option<Group> {
    Some(Group { before: String::new(), text: text.to_string(), after: String::new() })
}

fn part(before: &str, text: &str, after: &str) -> Option<Group> {
    Some(Group { before: before.to_string(), text: text.to_string(), after: after.to_string() })
}

#[test]
fn symbol_from_search_outcomes() {
    let set = Search::Found(Captures {
        groups: vec![whole("BR2_A=y"), part("", "BR2_A", "=y"), part("BR2_A=", "y", "")],
    });
    let notset = Search::Found(Captures {
        groups: vec![whole("# BR2_B is not set"), part("# ", "BR2_B", " is not set")],
    });
    let foreign = Search::Found(Captures {
        groups: vec![whole("X=y"), part("", "X", "=y"), part("X=", "y", "")],
    });
    let inside = Search::Found(Captures {
        groups: vec![
            part("", "# BR2_C is not set", " yet"),
            part("# ", "BR2_C", " is not set yet"),
        ],
    });
    assert_eq!(
        Symbol::from_captures("BR2_A=y", &set, &Search::Absent).unwrap(),
        Symbol { name: "BR2_A".to_string(), value: SymbolValue::Bool(true) }
    );
    assert_eq!(
        Symbol::from_captures("# BR2_B is not set", &Search::Absent, &notset).unwrap(),
        Symbol { name: "BR2_B".to_string(), value: SymbolValue::Bool(false) }
    );
    assert!(matches!(
        Symbol::from_captures("X=y", &foreign, &Search::Absent),
        Err(Error::InvalidSymbol(l)) if l == "X=y"
    ));
    assert!(matches!(
        Symbol::from_captures("# BR2_C is not set yet", &Search::Absent, &inside),
        Err(Error::InvalidSymbol(l)) if l == "# BR2_C is not set yet"
    ));
    assert!(matches!(
        Symbol::from_captures("other line", &set, &notset),
        Err(Error::InvalidSymbol(l)) if l == "other line"
    ));
    assert!(matches!(
        Symbol::from_captures("l", &Search::Invalid, &Search::Absent),
        Err(Error::InvalidSymbol(l)) if l == "l"
    ));
}

#[test]
fn symbol_is_the_whole_line() {
    assert!(matches!(Symbol::from_str("  BR2_A=y"), Err(Error::InvalidSymbol(_))));
    assert!(matches!(Symbol::from_str("junk BR2_A=y"), Err(Error::InvalidSymbol(_))));
    assert!(matches!(
        Symbol::from_str("# BR2_FOO is not set yet"),
        Err(Error::InvalidSymbol(l)) if l == "# BR2_FOO is not set yet"
    ));
    assert!(matches!(Symbol::from_str("## BR2_FOO is not set"), Err(Error::InvalidSymbol(_))));
    assert!(matches!(Symbol::from_str("BR2_A=y\nBR2_B=y"), Err(Error::InvalidSymbol(_))));
    assert!(matches!(Symbol::from_str("BR2_A=y "), Err(Error::InvalidValue(v)) if v == "y "));
    assert!(matches!(Symbol::from_str("BR2_=y"), Err(Error::InvalidSymbol(_))));
    assert!(matches!(Symbol::from_str("BR3_A=y"), Err(Error::InvalidSymbol(_))));
    assert!(matches!(Symbol::from_str("# BR2_A  is not set"), Err(Error::InvalidSymbol(_))));
    assert_eq!(
        Symbol::from_str("BR2_A=\"x=y\"").unwrap(),
        Symbol { name: "BR2_A".to_string(), value: SymbolValue::String("x=y".to_string()) }
    );
}

#[test]
fn names_of_symbols() {
    assert!(br2_utils::defconfig::symbol_name("BR2_A"));
    assert!(br2_utils::defconfig::symbol_name("BR2_i386_x9"));
    assert!(!br2_utils::defconfig::symbol_name("BR2_"));
    assert!(!br2_utils::defconfig::symbol_name("BR2_A-B"));
    assert!(!br2_utils::defconfig::symbol_name("BR2_A B"));
    assert!(!br2_utils::defconfig::symbol_name("BR2_É"));
    assert!(!br2_utils::defconfig::symbol_name("XBR2_A"));
    assert!(!br2_utils::defconfig::symbol_name(""));
}
