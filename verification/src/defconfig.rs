//! Configuration presets: the symbols a preset file sets, and whether it
//! selects a package.

use crate::package::{canonical, canonicalize};
use crate::pattern::{find, search_of, Search, SearchView};
use crate::text::{concatenate, ends_with, lines, lines_of, same, starts_with, substring, texts, to_chars};
use vstd::prelude::*;

verus! {

/// Every symbol's name begins with this.
pub const SYMBOL_PREFIX: &'static str = "BR2_";

/// The name of the symbol that selects a package begins with this.
pub const PACKAGE_PREFIX: &'static str = "BR2_PACKAGE_";

/// A line that is of the form `BR2_NAME=VALUE` from its start to its end:
/// group 1 is the name, group 2 the value.
pub const SYMBOL_SET: &'static str = "^(BR2_[a-zA-Z0-9_]+)=(.+)$";

/// A line that is of the form `# BR2_NAME is not set` from its start to its
/// end: group 1 is the name.
pub const SYMBOL_NOTSET: &'static str = "^# (BR2_[a-zA-Z0-9_]+) is not set$";

/// What stands between the name and the value of a symbol that is set.
pub const ASSIGN: &'static str = "=";

/// What stands in front of the name of a symbol that is not set.
pub const NOTSET_HEAD: &'static str = "# ";

/// What stands behind the name of a symbol that is not set.
pub const NOTSET_TAIL: &'static str = " is not set";

/// A comment that ends with this is read as a symbol that is not set.
pub const NOTSET_SUFFIX: &'static str = "is not set";

/// A line that begins with this is a comment.
pub const COMMENT: &'static str = "#";

/// Errors reported when processing a preset.
#[derive(Debug)]
pub enum Error {
    /// The value of a symbol is neither `y`, `n` nor a quoted text.
    InvalidValue(String),
    /// The line is no symbol.
    InvalidSymbol(String),
}

pub ghost enum ErrorView {
    InvalidValue(Seq<char>),
    InvalidSymbol(Seq<char>),
}

impl View for Error {
    type V = ErrorView;

    open spec fn view(&self) -> ErrorView {
        match self {
            Error::InvalidValue(s) => ErrorView::InvalidValue(s@),
            Error::InvalidSymbol(s) => ErrorView::InvalidSymbol(s@),
        }
    }
}

/// Value of a symbol in a `Defconfig`.
#[derive(Debug, PartialEq)]
pub enum SymbolValue {
    Bool(bool),
    String(String),
}

pub ghost enum SymbolValueView {
    Bool(bool),
    String(Seq<char>),
}

impl View for SymbolValue {
    type V = SymbolValueView;

    open spec fn view(&self) -> SymbolValueView {
        match self {
            SymbolValue::Bool(b) => SymbolValueView::Bool(*b),
            SymbolValue::String(s) => SymbolValueView::String(s@),
        }
    }
}

/// Whether `s` stands between a pair of double quotes.
pub open spec fn quoted(s: Seq<char>) -> bool {
    s.len() >= 2 && s.first() == '"' && s.last() == '"'
}

/// The value that the text `s` denotes: a quoted text is its inner part, `y`
/// is true, `n` is false, and nothing else is a value.
pub open spec fn value_of(s: Seq<char>) -> Result<SymbolValueView, ErrorView> {
    if quoted(s) {
        Ok(SymbolValueView::String(s.subrange(1, s.len() - 1)))
    } else if s == "y"@ {
        Ok(SymbolValueView::Bool(true))
    } else if s == "n"@ {
        Ok(SymbolValueView::Bool(false))
    } else {
        Err(ErrorView::InvalidValue(s))
    }
}

pub open spec fn value_result_view(r: Result<SymbolValue, Error>) -> Result<
    SymbolValueView,
    ErrorView,
> {
    match r {
        Ok(v) => Ok(v@),
        Err(e) => Err(e@),
    }
}

impl SymbolValue {
    /// Reads the value of a symbol.
    pub fn from_str(s: &str) -> (r: Result<SymbolValue, Error>)
        ensures
            value_result_view(r) == value_of(s@),
    {
        let chars = to_chars(s);
        let n = chars.len();
        if n >= 2 && chars[0] == '"' && chars[n - 1] == '"' {
            return Ok(SymbolValue::String(substring(&chars, 1, n - 1)));
        }
        if same(s, "y") {
            Ok(SymbolValue::Bool(true))
        } else if same(s, "n") {
            Ok(SymbolValue::Bool(false))
        } else {
            Err(Error::InvalidValue(String::from_str(s)))
        }
    }
}

impl core::str::FromStr for SymbolValue {
    type Err = Error;

    fn from_str(s: &str) -> (r: Result<SymbolValue, Error>)
        ensures
            value_result_view(r) == value_of(s@),
    {
        SymbolValue::from_str(s)
    }
}

/// Represent a symbol in a `Defconfig`.
#[derive(Debug, PartialEq)]
pub struct Symbol {
    pub name: String,
    pub value: SymbolValue,
}

pub ghost struct SymbolView {
    pub name: Seq<char>,
    pub value: SymbolValueView,
}

impl View for Symbol {
    type V = SymbolView;

    open spec fn view(&self) -> SymbolView {
        SymbolView { name: self.name@, value: self.value@ }
    }
}

pub open spec fn symbol_result_view(r: Result<Symbol, Error>) -> Result<SymbolView, ErrorView> {
    match r {
        Ok(v) => Ok(v@),
        Err(e) => Err(e@),
    }
}

/// Whether a character may stand in the name of a symbol: a letter of the
/// alphabet, a digit or `_`.
pub open spec fn is_name_char(c: char) -> bool {
    ('a' <= c <= 'z') || ('A' <= c <= 'Z') || ('0' <= c <= '9') || c == '_'
}

/// Whether a text is the name of a symbol: the prefix of all symbols and at
/// least one character more, all of them characters of a name.
pub open spec fn is_symbol_name(name: Seq<char>) -> bool {
    &&& SYMBOL_PREFIX@.is_prefix_of(name)
    &&& name.len() > SYMBOL_PREFIX@.len()
    &&& forall|k: int| 0 <= k < name.len() ==> is_name_char(#[trigger] name[k])
}

/// The line that sets the symbol `name` to what `value` denotes.
pub open spec fn set_line(name: Seq<char>, value: Seq<char>) -> Seq<char> {
    name + ASSIGN@ + value
}

/// The line that says that the symbol `name` is not set.
pub open spec fn notset_line(name: Seq<char>) -> Seq<char> {
    NOTSET_HEAD@ + name + NOTSET_TAIL@
}

/// The text that a search found as group `i`.
pub open spec fn found_text(found: SearchView, i: int) -> Option<Seq<char>> {
    match found {
        SearchView::Found(c) => match c.group(i) {
            Some(group) => Some(group.text),
            None => None,
        },
        _ => None,
    }
}

/// Whether the search for the set form found `line` to be of that form: the
/// name of a symbol, a `=` and the text of a value, from the start of the
/// line to its end.
pub open spec fn is_set(line: Seq<char>, set: SearchView) -> bool {
    &&& found_text(set, 1) is Some
    &&& found_text(set, 2) is Some
    &&& is_symbol_name(found_text(set, 1)->0)
    &&& line == set_line(found_text(set, 1)->0, found_text(set, 2)->0)
}

/// Whether the search for the form that is not set found `line` to be of
/// that form: `# `, the name of a symbol and ` is not set`, from the start
/// of the line to its end.
pub open spec fn is_notset(line: Seq<char>, notset: SearchView) -> bool {
    &&& found_text(notset, 1) is Some
    &&& is_symbol_name(found_text(notset, 1)->0)
    &&& line == notset_line(found_text(notset, 1)->0)
}

/// The symbol that a line denotes, given what the searches for the two
/// forms of a symbol found in it. A form counts only where the line is of
/// that form from its start to its end. The set form goes first and its
/// value must be a value; then the form that is not set, which is false; a
/// line of neither form is no symbol.
pub open spec fn symbol_from(line: Seq<char>, set: SearchView, notset: SearchView) -> Result<
    SymbolView,
    ErrorView,
> {
    if is_set(line, set) {
        match value_of(found_text(set, 2)->0) {
            Ok(value) => Ok(SymbolView { name: found_text(set, 1)->0, value }),
            Err(e) => Err(e),
        }
    } else if is_notset(line, notset) {
        Ok(SymbolView { name: found_text(notset, 1)->0, value: SymbolValueView::Bool(false) })
    } else {
        Err(ErrorView::InvalidSymbol(line))
    }
}

/// The symbol that a line denotes.
pub open spec fn symbol_of(line: Seq<char>) -> Result<SymbolView, ErrorView> {
    symbol_from(line, search_of(SYMBOL_SET@, line), search_of(SYMBOL_NOTSET@, line))
}

fn text_in(found: &Search, i: usize) -> (text: Option<&String>)
    ensures
        match text {
            Some(t) => found_text(found@, i as int) == Some(t@),
            None => found_text(found@, i as int) is None,
        },
{
    match found {
        Search::Found(c) => match c.group(i) {
            Some(group) => Some(&group.text),
            None => None,
        },
        _ => None,
    }
}

/// Whether a text is the name of a symbol.
pub fn symbol_name(name: &str) -> (b: bool)
    ensures
        b == is_symbol_name(name@),
{
    let chars = to_chars(name);
    let prefix = to_chars(SYMBOL_PREFIX);
    if !starts_with(name, SYMBOL_PREFIX) || chars.len() <= prefix.len() {
        return false;
    }
    let mut k: usize = 0;
    while k < chars.len()
        invariant
            k <= chars.len(),
            chars@ == name@,
            forall|j: int| 0 <= j < k ==> is_name_char(#[trigger] name@[j]),
        decreases chars.len() - k,
    {
        let c = chars[k];
        if !((c >= 'a' && c <= 'z') || (c >= 'A' && c <= 'Z') || (c >= '0' && c <= '9') || c
            == '_') {
            return false;
        }
        k += 1;
    }
    true
}

fn set_in(line: &str, set: &Search) -> (b: bool)
    ensures
        b == is_set(line@, set@),
{
    match text_in(set, 1) {
        Some(name) => match text_in(set, 2) {
            Some(value) => {
                if !symbol_name(name.as_str()) {
                    return false;
                }
                let mut expected = concatenate(name.as_str(), ASSIGN);
                expected.append(value.as_str());
                same(line, expected.as_str())
            },
            None => false,
        },
        None => false,
    }
}

fn notset_in(line: &str, notset: &Search) -> (b: bool)
    ensures
        b == is_notset(line@, notset@),
{
    match text_in(notset, 1) {
        Some(name) => {
            if !symbol_name(name.as_str()) {
                return false;
            }
            let mut expected = concatenate(NOTSET_HEAD, name.as_str());
            expected.append(NOTSET_TAIL);
            same(line, expected.as_str())
        },
        None => false,
    }
}

impl Symbol {
    /// The symbol that `line` denotes, given what the searches for the two
    /// forms found in it.
    pub fn from_captures(line: &str, set: &Search, notset: &Search) -> (r: Result<Symbol, Error>)
        ensures
            symbol_result_view(r) == symbol_from(line@, set@, notset@),
            r matches Ok(symbol) ==> is_symbol_name(symbol@.name),
    {
        if set_in(line, set) {
            let name = text_in(set, 1);
            let text = text_in(set, 2);
            return match (name, text) {
                (Some(name), Some(text)) => match SymbolValue::from_str(text.as_str()) {
                    Ok(value) => Ok(Symbol { name: name.clone(), value }),
                    Err(e) => Err(e),
                },
                _ => Err(Error::InvalidSymbol(String::from_str(line))),
            };
        }
        if notset_in(line, notset) {
            return match text_in(notset, 1) {
                Some(name) => Ok(Symbol { name: name.clone(), value: SymbolValue::Bool(false) }),
                None => Err(Error::InvalidSymbol(String::from_str(line))),
            };
        }
        Err(Error::InvalidSymbol(String::from_str(line)))
    }

    /// Reads one line of a preset.
    pub fn from_str(s: &str) -> (r: Result<Symbol, Error>)
        ensures
            symbol_result_view(r) == symbol_of(s@),
            r matches Ok(symbol) ==> is_symbol_name(symbol@.name),
    {
        let set = find(SYMBOL_SET, s);
        if set_in(s, &set) {
            return Symbol::from_captures(s, &set, &Search::Absent);
        }
        let notset = find(SYMBOL_NOTSET, s);
        Symbol::from_captures(s, &set, &notset)
    }
}

impl core::str::FromStr for Symbol {
    type Err = Error;

    fn from_str(s: &str) -> (r: Result<Symbol, Error>)
        ensures
            symbol_result_view(r) == symbol_of(s@),
            r matches Ok(symbol) ==> is_symbol_name(symbol@.name),
    {
        Symbol::from_str(s)
    }
}

/// Hold information of a defconfig: its symbols, in the order of their lines.
#[derive(Debug, PartialEq)]
pub struct Defconfig {
    symbols: Vec<Symbol>,
}

pub open spec fn symbols_view(symbols: Seq<Symbol>) -> Seq<SymbolView> {
    symbols.map_values(|s: Symbol| s@)
}

impl View for Defconfig {
    type V = Seq<SymbolView>;

    closed spec fn view(&self) -> Seq<SymbolView> {
        symbols_view(self.symbols@)
    }
}

pub open spec fn defconfig_result_view(r: Result<Defconfig, Error>) -> Result<
    Seq<SymbolView>,
    ErrorView,
> {
    match r {
        Ok(v) => Ok(v@),
        Err(e) => Err(e@),
    }
}

/// Whether a line of a preset is passed over: an empty line, and a comment
/// unless it ends as a symbol that is not set does.
pub open spec fn skipped(line: Seq<char>) -> bool {
    line.len() == 0 || (COMMENT@.is_prefix_of(line) && !NOTSET_SUFFIX@.is_suffix_of(line))
}

/// `symbols` in front of what `rest` holds, or the error of `rest`.
pub open spec fn after(symbols: Seq<SymbolView>, rest: Result<Seq<SymbolView>, ErrorView>) -> Result<
    Seq<SymbolView>,
    ErrorView,
> {
    match rest {
        Ok(more) => Ok(symbols + more),
        Err(e) => Err(e),
    }
}

/// The symbols of the lines that are not passed over, in order, or the error
/// of the first such line that is no symbol.
pub open spec fn symbols_of(lines: Seq<Seq<char>>) -> Result<Seq<SymbolView>, ErrorView>
    decreases lines.len(),
{
    if lines.len() == 0 {
        Ok(Seq::empty())
    } else if skipped(lines[0]) {
        symbols_of(lines.skip(1))
    } else {
        match symbol_of(lines[0]) {
            Ok(symbol) => after(seq![symbol], symbols_of(lines.skip(1))),
            Err(e) => Err(e),
        }
    }
}

/// The name of the symbol that selects a package.
pub open spec fn package_symbol(package: Seq<char>) -> Seq<char> {
    PACKAGE_PREFIX@ + canonical(package)
}

/// Whether one of the symbols is the package's own, set to true.
pub open spec fn selected(symbols: Seq<SymbolView>, package: Seq<char>) -> bool {
    exists|i: int|
        0 <= i < symbols.len() && #[trigger] symbols[i] == (SymbolView {
            name: package_symbol(package),
            value: SymbolValueView::Bool(true),
        })
}

impl Defconfig {
    /// Reads a preset from its text.
    pub fn from_reader(text: &str) -> (r: Result<Defconfig, Error>)
        ensures
            defconfig_result_view(r) == symbols_of(lines_of(text@)),
    {
        let all = lines(text);
        let mut symbols: Vec<Symbol> = Vec::new();
        let mut i: usize = 0;
        proof {
            assert(lines_of(text@).skip(0) == lines_of(text@));
            if let Ok(all_symbols) = symbols_of(lines_of(text@)) {
                assert(symbols_view(symbols@) + all_symbols == all_symbols);
            }
        }
        while i < all.len()
            invariant
                i <= all.len(),
                texts(all@) == lines_of(text@),
                symbols_of(lines_of(text@)) == after(
                    symbols_view(symbols@),
                    symbols_of(lines_of(text@).skip(i as int)),
                ),
            decreases all.len() - i,
        {
            let line = all[i].as_str();
            proof {
                let rest = lines_of(text@).skip(i as int);
                assert(rest[0] == line@);
                assert(rest.skip(1) == lines_of(text@).skip(i + 1));
            }
            if !(line.is_empty() || (starts_with(line, COMMENT) && !ends_with(line, NOTSET_SUFFIX))) {
                match Symbol::from_str(line) {
                    Ok(symbol) => {
                        proof {
                            let more = symbols_of(lines_of(text@).skip(i + 1));
                            assert(symbols_view(symbols@.push(symbol)) == symbols_view(
                                symbols@,
                            ).push(symbol@));
                            if let Ok(tail) = more {
                                assert(symbols_view(symbols@).push(symbol@) + tail == symbols_view(
                                    symbols@,
                                ) + (seq![symbol@] + tail));
                            }
                        }
                        symbols.push(symbol);
                    },
                    Err(e) => {
                        return Err(e);
                    },
                }
            }
            i += 1;
        }
        proof {
            assert(lines_of(text@).skip(i as int).len() == 0);
            assert(symbols_view(symbols@) + Seq::<SymbolView>::empty() == symbols_view(symbols@));
        }
        Ok(Defconfig { symbols })
    }

    /// Return the list of symbols.
    pub fn symbols(&self) -> (symbols: &[Symbol])
        ensures
            symbols_view(symbols@) == self@,
    {
        self.symbols.as_slice()
    }

    /// Check if a package is selected.
    pub fn selects(&self, package: &str) -> (b: bool)
        ensures
            b == selected(self@, package@),
    {
        let stem = canonicalize(package);
        let name = concatenate(PACKAGE_PREFIX, stem.as_str());
        let mut i: usize = 0;
        while i < self.symbols.len()
            invariant
                i <= self.symbols.len(),
                name@ == package_symbol(package@),
                forall|k: int|
                    0 <= k < i ==> #[trigger] self@[k] != (SymbolView {
                        name: package_symbol(package@),
                        value: SymbolValueView::Bool(true),
                    }),
            decreases self.symbols.len() - i,
        {
            let symbol = &self.symbols[i];
            let set = match symbol.value {
                SymbolValue::Bool(b) => b,
                SymbolValue::String(_) => false,
            };
            if set && symbol.name == name {
                assert(self@[i as int] == symbol@);
                return true;
            }
            assert(self@[i as int] == symbol@);
            i += 1;
        }
        false
    }
}

/// A line that denotes a symbol is of one of the two forms, from its start
/// to its end: the name of the symbol, a `=` and the text of its value, or
/// `# `, the name and ` is not set`, the value then being false.
pub proof fn lemma_symbol_line(line: Seq<char>)
    requires
        symbol_of(line) is Ok,
    ensures
        is_symbol_name(symbol_of(line)->Ok_0.name),
        (exists|text: Seq<char>|
            line == set_line(symbol_of(line)->Ok_0.name, text) && value_of(text) == Ok::<
                SymbolValueView,
                ErrorView,
            >(symbol_of(line)->Ok_0.value)) || (line == notset_line(symbol_of(line)->Ok_0.name)
            && symbol_of(line)->Ok_0.value == SymbolValueView::Bool(false)),
{
    let set = search_of(SYMBOL_SET@, line);
    if is_set(line, set) {
        let text = found_text(set, 2)->0;
        assert(line == set_line(symbol_of(line)->Ok_0.name, text) && value_of(text) == Ok::<
            SymbolValueView,
            ErrorView,
        >(symbol_of(line)->Ok_0.value));
    }
}

/// Whether a line of a preset gives the symbol `name` the value `value`.
pub open spec fn sets(line: Seq<char>, name: Seq<char>, value: bool) -> bool {
    !skipped(line) && symbol_of(line) == Ok::<SymbolView, ErrorView>(
        SymbolView { name, value: SymbolValueView::Bool(value) },
    )
}

/// The symbols of a preset are those of its lines that are not passed over:
/// a symbol is among them where a line denotes it, and only there.
pub proof fn lemma_symbols_of_lines(lines: Seq<Seq<char>>, symbol: SymbolView)
    requires
        symbols_of(lines) is Ok,
    ensures
        symbols_of(lines)->Ok_0.contains(symbol) <==> exists|i: int|
            0 <= i < lines.len() && !skipped(#[trigger] lines[i]) && symbol_of(lines[i]) == Ok::<
                SymbolView,
                ErrorView,
            >(symbol),
    decreases lines.len(),
{
    let symbols = symbols_of(lines)->Ok_0;
    if lines.len() > 0 {
        let rest = lines.skip(1);
        let later = symbols_of(rest)->Ok_0;
        lemma_symbols_of_lines(rest, symbol);
        let here = !skipped(lines[0]) && symbol_of(lines[0]) == Ok::<SymbolView, ErrorView>(
            symbol,
        );
        if skipped(lines[0]) {
            assert(symbols == later);
        } else {
            let first = symbol_of(lines[0])->Ok_0;
            assert(symbols == seq![first] + later);
            if symbols.contains(symbol) {
                let k = choose|k: int| 0 <= k < symbols.len() && symbols[k] == symbol;
                if k > 0 {
                    assert(later[k - 1] == symbol);
                }
            }
            if later.contains(symbol) {
                let k = choose|k: int| 0 <= k < later.len() && later[k] == symbol;
                assert(symbols[k + 1] == symbol);
            }
            if here {
                assert(symbols[0] == symbol);
            }
        }
        assert(symbols.contains(symbol) <==> (here || later.contains(symbol)));
        if exists|i: int|
            0 <= i < lines.len() && !skipped(#[trigger] lines[i]) && symbol_of(lines[i]) == Ok::<
                SymbolView,
                ErrorView,
            >(symbol) {
            let i = choose|i: int|
                0 <= i < lines.len() && !skipped(#[trigger] lines[i]) && symbol_of(lines[i])
                    == Ok::<SymbolView, ErrorView>(symbol);
            if i > 0 {
                assert(rest[i - 1] == lines[i]);
            }
        }
        if exists|i: int|
            0 <= i < rest.len() && !skipped(#[trigger] rest[i]) && symbol_of(rest[i]) == Ok::<
                SymbolView,
                ErrorView,
            >(symbol) {
            let i = choose|i: int|
                0 <= i < rest.len() && !skipped(#[trigger] rest[i]) && symbol_of(rest[i]) == Ok::<
                    SymbolView,
                    ErrorView,
                >(symbol);
            assert(lines[i + 1] == rest[i]);
        }
    }
}

/// A preset that can be read selects a package where one of its lines sets
/// the package's symbol to true, and only there.
pub proof fn lemma_selects_where_set(text: Seq<char>, package: Seq<char>)
    requires
        symbols_of(lines_of(text)) is Ok,
    ensures
        selected(symbols_of(lines_of(text))->Ok_0, package) <==> exists|i: int|
            0 <= i < lines_of(text).len() && sets(
                #[trigger] lines_of(text)[i],
                package_symbol(package),
                true,
            ),
{
    let lines = lines_of(text);
    let symbols = symbols_of(lines)->Ok_0;
    let wanted = SymbolView { name: package_symbol(package), value: SymbolValueView::Bool(true) };
    lemma_symbols_of_lines(lines, wanted);
    if selected(symbols, package) {
        let k = choose|k: int| 0 <= k < symbols.len() && #[trigger] symbols[k] == wanted;
        assert(symbols.contains(wanted));
        let i = choose|i: int|
            0 <= i < lines.len() && !skipped(#[trigger] lines[i]) && symbol_of(lines[i]) == Ok::<
                SymbolView,
                ErrorView,
            >(wanted);
        assert(sets(lines[i], package_symbol(package), true));
    }
    if exists|i: int|
        0 <= i < lines.len() && sets(#[trigger] lines[i], package_symbol(package), true) {
        let i = choose|i: int|
            0 <= i < lines.len() && sets(#[trigger] lines[i], package_symbol(package), true);
        assert(!skipped(lines[i]) && symbol_of(lines[i]) == Ok::<SymbolView, ErrorView>(wanted));
        assert(symbols.contains(wanted));
        let k = choose|k: int| 0 <= k < symbols.len() && symbols[k] == wanted;
        assert(symbols[k] == wanted);
    }
}

/// The last of the first `n` lines that sets the symbol to true.
pub proof fn lemma_last_set(lines: Seq<Seq<char>>, name: Seq<char>, n: int) -> (i: int)
    requires
        0 <= n <= lines.len(),
        exists|k: int| 0 <= k < n && sets(#[trigger] lines[k], name, true),
    ensures
        0 <= i < n,
        sets(lines[i], name, true),
        forall|k: int| i < k < n ==> !sets(#[trigger] lines[k], name, true),
    decreases n,
{
    if sets(lines[n - 1], name, true) {
        n - 1
    } else {
        let k = choose|k: int| 0 <= k < n && sets(#[trigger] lines[k], name, true);
        assert(k < n - 1);
        lemma_last_set(lines, name, n - 1)
    }
}

/// A preset that can be read selects a package where one of its lines sets
/// the package's symbol to true and no later line sets it to false, and
/// only there. This is stated of the presets in which the last line that
/// sets the symbol to true is followed by no line that sets it to false: in
/// the others the package is selected all the same.
pub proof fn lemma_selects(text: Seq<char>, package: Seq<char>)
    requires
        symbols_of(lines_of(text)) is Ok,
        forall|i: int, j: int|
            0 <= i < j < lines_of(text).len() && sets(
                #[trigger] lines_of(text)[i],
                package_symbol(package),
                true,
            ) && (forall|k: int|
                i < k < lines_of(text).len() ==> !sets(
                    #[trigger] lines_of(text)[k],
                    package_symbol(package),
                    true,
                )) ==> !sets(#[trigger] lines_of(text)[j], package_symbol(package), false),
    ensures
        selected(symbols_of(lines_of(text))->Ok_0, package) <==> exists|i: int|
            0 <= i < lines_of(text).len() && sets(
                #[trigger] lines_of(text)[i],
                package_symbol(package),
                true,
            ) && forall|j: int|
                i < j < lines_of(text).len() ==> !sets(
                    #[trigger] lines_of(text)[j],
                    package_symbol(package),
                    false,
                ),
{
    let lines = lines_of(text);
    let name = package_symbol(package);
    lemma_selects_where_set(text, package);
    if exists|i: int| 0 <= i < lines.len() && sets(#[trigger] lines[i], name, true) {
        let i = lemma_last_set(lines, name, lines.len() as int);
        assert(forall|j: int| i < j < lines.len() ==> !sets(#[trigger] lines[j], name, false));
    }
}

/// What stands for true as the value of a symbol.
pub const YES: &'static str = "y";

/// A preset that selects a package holds the line that sets the package's
/// symbol to `y`.
pub proof fn lemma_selected_line(text: Seq<char>, package: Seq<char>)
    requires
        symbols_of(lines_of(text)) is Ok,
        selected(symbols_of(lines_of(text))->Ok_0, package),
    ensures
        exists|i: int|
            0 <= i < lines_of(text).len() && #[trigger] lines_of(text)[i] == set_line(
                package_symbol(package),
                YES@,
            ),
{
    lemma_selects_where_set(text, package);
    let lines = lines_of(text);
    let i = choose|i: int|
        0 <= i < lines.len() && sets(#[trigger] lines[i], package_symbol(package), true);
    lemma_symbol_line(lines[i]);
    let value = choose|value: Seq<char>|
        lines[i] == set_line(package_symbol(package), value) && value_of(value) == Ok::<
            SymbolValueView,
            ErrorView,
        >(SymbolValueView::Bool(true));
    assert(value == YES@) by {
        reveal_strlit("y");
        reveal_strlit("n");
        if value == "n"@ {
            assert(value[0] == 'n');
            assert("y"@[0] == 'y');
        }
    }
    assert(lines[i] == set_line(package_symbol(package), YES@));
}

} // verus!
