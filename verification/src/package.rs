//! Package descriptors: the variables they declare, and the rewriting of a
//! declared version.

use crate::paths::{file_stem, stem_of};
use crate::pattern::{find, search_of, Captures, CapturesView, Search, SearchView};
use crate::text::{
    concatenate, fields, lemma_first_line, lemma_lines_of_both, lemma_one_line,
    lemma_trimmed_padded, lemma_two_fields, lines, lines_of, replace, replaced, same, split,
    starts_with, texts, trim, trimmed, uppercase, whitespace,
};
use vstd::prelude::*;

verus! {

/// The stem of a package's variable names: the name in upper case, with `_`
/// for each `-`.
pub open spec fn canonical(name: Seq<char>) -> Seq<char> {
    replaced(uppercase(name), '-', '_')
}

/// The stem of a package's variable names.
pub fn canonicalize(name: &str) -> (stem: String)
    ensures
        stem@ == canonical(name@),
{
    let upper = name.to_uppercase();
    replace(upper.as_str(), '-', '_')
}

/// Errors reported when processing a package.
#[derive(Debug)]
pub enum Error {
    /// The path of a descriptor has no file name to take the package's name from.
    InvalidFilename(String),
    /// The line declares a property but is not of the form `VARIABLE = VALUE`.
    InvalidVariable(String),
    /// The descriptor declares no such property.
    MissingVariable(String),
}

pub ghost enum ErrorView {
    InvalidFilename(Seq<char>),
    InvalidVariable(Seq<char>),
    MissingVariable(Seq<char>),
}

impl View for Error {
    type V = ErrorView;

    open spec fn view(&self) -> ErrorView {
        match self {
            Error::InvalidFilename(s) => ErrorView::InvalidFilename(s@),
            Error::InvalidVariable(s) => ErrorView::InvalidVariable(s@),
            Error::MissingVariable(s) => ErrorView::MissingVariable(s@),
        }
    }
}

/// The properties that a descriptor can declare.
#[derive(Clone, Copy, Debug, PartialEq, Eq)]
pub enum Property {
    Version,
    Site,
    Source,
    License,
    Dependencies,
}

pub const VERSION: &'static str = "version";

pub const SITE: &'static str = "site";

pub const SOURCE: &'static str = "source";

pub const LICENSE: &'static str = "license";

pub const DEPENDENCIES: &'static str = "dependencies";

pub const VERSION_SUFFIX: &'static str = "_VERSION";

pub const SITE_SUFFIX: &'static str = "_SITE";

pub const SOURCE_SUFFIX: &'static str = "_SOURCE";

pub const LICENSE_SUFFIX: &'static str = "_LICENSE";

pub const DEPENDENCIES_SUFFIX: &'static str = "_DEPENDENCIES";

impl Property {
    /// The name of the property.
    pub open spec fn key(self) -> Seq<char> {
        match self {
            Property::Version => VERSION@,
            Property::Site => SITE@,
            Property::Source => SOURCE@,
            Property::License => LICENSE@,
            Property::Dependencies => DEPENDENCIES@,
        }
    }

    /// What follows the stem in the name of the variable that declares the
    /// property: `_` and the property's name in upper case.
    pub open spec fn suffix(self) -> Seq<char> {
        match self {
            Property::Version => VERSION_SUFFIX@,
            Property::Site => SITE_SUFFIX@,
            Property::Source => SOURCE_SUFFIX@,
            Property::License => LICENSE_SUFFIX@,
            Property::Dependencies => DEPENDENCIES_SUFFIX@,
        }
    }

    /// The property of that name, the first in the order of the variants.
    pub open spec fn named(key: Seq<char>) -> Option<Property> {
        if key == VERSION@ {
            Some(Property::Version)
        } else if key == SITE@ {
            Some(Property::Site)
        } else if key == SOURCE@ {
            Some(Property::Source)
        } else if key == LICENSE@ {
            Some(Property::License)
        } else if key == DEPENDENCIES@ {
            Some(Property::Dependencies)
        } else {
            None
        }
    }

    /// The name of the property.
    pub fn name(self) -> (key: &'static str)
        ensures
            key@ == self.key(),
    {
        match self {
            Property::Version => VERSION,
            Property::Site => SITE,
            Property::Source => SOURCE,
            Property::License => LICENSE,
            Property::Dependencies => DEPENDENCIES,
        }
    }

    /// The property of that name.
    pub fn from_name(key: &str) -> (property: Option<Property>)
        ensures
            property == Property::named(key@),
    {
        if same(key, VERSION) {
            Some(Property::Version)
        } else if same(key, SITE) {
            Some(Property::Site)
        } else if same(key, SOURCE) {
            Some(Property::Source)
        } else if same(key, LICENSE) {
            Some(Property::License)
        } else if same(key, DEPENDENCIES) {
            Some(Property::Dependencies)
        } else {
            None
        }
    }
}

/// The name of the variable that declares a property of the package with
/// the stem `stem`.
pub open spec fn variable(stem: Seq<char>, property: Property) -> Seq<char> {
    stem + property.suffix()
}

/// Whether a line declares the property: it begins with the variable's name.
pub open spec fn declares(stem: Seq<char>, property: Property, line: Seq<char>) -> bool {
    variable(stem, property).is_prefix_of(line)
}

/// Whether a line declares one of the properties.
pub open spec fn recognized(stem: Seq<char>, line: Seq<char>) -> bool {
    ||| declares(stem, Property::Version, line)
    ||| declares(stem, Property::Site, line)
    ||| declares(stem, Property::Source, line)
    ||| declares(stem, Property::License, line)
    ||| declares(stem, Property::Dependencies, line)
}

/// Whether a line holds one `=` and no more.
pub open spec fn assigns(line: Seq<char>) -> bool {
    fields(line, '=').len() == 2
}

/// The value that a line with one `=` assigns: what follows the `=`, without
/// the white space around it.
pub open spec fn assigned(line: Seq<char>) -> Seq<char> {
    trimmed(fields(line, '=')[1])
}

/// The first line from `i` on that declares a property and does not assign.
pub open spec fn first_invalid(stem: Seq<char>, lines: Seq<Seq<char>>, i: int) -> Option<Seq<char>>
    decreases lines.len() - i,
{
    if i < 0 || i >= lines.len() {
        None
    } else if recognized(stem, lines[i]) && !assigns(lines[i]) {
        Some(lines[i])
    } else {
        first_invalid(stem, lines, i + 1)
    }
}

/// The value that the last line declaring the property assigns.
pub open spec fn last_value(stem: Seq<char>, property: Property, lines: Seq<Seq<char>>) -> Option<
    Seq<char>,
>
    decreases lines.len(),
{
    if lines.len() == 0 {
        None
    } else if declares(stem, property, lines.last()) {
        Some(assigned(lines.last()))
    } else {
        last_value(stem, property, lines.drop_last())
    }
}

/// The properties of a package, each with its value where the descriptor
/// declares it.
#[derive(Debug)]
pub struct Properties {
    version: Option<String>,
    site: Option<String>,
    source: Option<String>,
    license: Option<String>,
    dependencies: Option<String>,
}

pub open spec fn text_view(text: Option<String>) -> Option<Seq<char>> {
    match text {
        Some(s) => Some(s@),
        None => None,
    }
}

pub open spec fn text_ref_view(text: Option<&String>) -> Option<Seq<char>> {
    match text {
        Some(s) => Some(s@),
        None => None,
    }
}

impl Properties {
    /// The value of a property, if it is declared.
    pub closed spec fn value(&self, property: Property) -> Option<Seq<char>> {
        match property {
            Property::Version => text_view(self.version),
            Property::Site => text_view(self.site),
            Property::Source => text_view(self.source),
            Property::License => text_view(self.license),
            Property::Dependencies => text_view(self.dependencies),
        }
    }

    /// The value of the property named `key`, if there is such a property
    /// and it is declared.
    pub open spec fn value_named(&self, key: Seq<char>) -> Option<Seq<char>> {
        match Property::named(key) {
            Some(property) => self.value(property),
            None => None,
        }
    }

    /// The declared properties with their values.
    pub open spec fn declared(&self) -> Map<Property, Seq<char>> {
        Map::new(|p: Property| self.value(p) is Some, |p: Property| self.value(p)->0)
    }

    fn new() -> (properties: Properties)
        ensures
            forall|p: Property| properties.value(p) is None,
    {
        Properties { version: None, site: None, source: None, license: None, dependencies: None }
    }

    fn set(&mut self, property: Property, value: String)
        ensures
            final(self).value(property) == Some(value@),
            forall|p: Property| p != property ==> final(self).value(p) == old(self).value(p),
    {
        match property {
            Property::Version => self.version = Some(value),
            Property::Site => self.site = Some(value),
            Property::Source => self.source = Some(value),
            Property::License => self.license = Some(value),
            Property::Dependencies => self.dependencies = Some(value),
        }
    }

    /// The value of a property, if it is declared.
    pub fn property(&self, property: Property) -> (value: Option<&String>)
        ensures
            text_ref_view(value) == self.value(property),
    {
        match property {
            Property::Version => self.version.as_ref(),
            Property::Site => self.site.as_ref(),
            Property::Source => self.source.as_ref(),
            Property::License => self.license.as_ref(),
            Property::Dependencies => self.dependencies.as_ref(),
        }
    }

    /// The value of the property named `key`, if there is such a property
    /// and it is declared.
    pub fn get(&self, key: &str) -> (value: Option<&String>)
        ensures
            text_ref_view(value) == self.value_named(key@),
    {
        match Property::from_name(key) {
            Some(property) => self.property(property),
            None => None,
        }
    }

    /// Whether the property named `key` is declared.
    pub fn contains_key(&self, key: &str) -> (b: bool)
        ensures
            b == self.value_named(key@) is Some,
    {
        self.get(key).is_some()
    }
}

/// Hold information about a package: its name and what its descriptor
/// declares, the version always among it.
#[derive(Debug)]
pub struct PackageInfo {
    name: String,
    properties: Properties,
}

pub ghost struct PackageView {
    pub name: Seq<char>,
    pub properties: Map<Property, Seq<char>>,
}

impl View for PackageInfo {
    type V = PackageView;

    closed spec fn view(&self) -> PackageView {
        PackageView { name: self.name@, properties: self.properties.declared() }
    }
}

pub open spec fn package_result_view(r: Result<PackageInfo, Error>) -> Result<
    PackageView,
    ErrorView,
> {
    match r {
        Ok(v) => Ok(v@),
        Err(e) => Err(e@),
    }
}

/// What the lines declare: each property with the value of the last line
/// that declares it.
pub open spec fn declared_in(stem: Seq<char>, lines: Seq<Seq<char>>) -> Map<Property, Seq<char>> {
    Map::new(
        |p: Property| last_value(stem, p, lines) is Some,
        |p: Property| last_value(stem, p, lines)->0,
    )
}

/// The package that a descriptor describes. A line that declares a property
/// without assigning is an error, the first such line that of the whole;
/// then the version must be declared.
pub open spec fn package_of(name: Seq<char>, text: Seq<char>) -> Result<PackageView, ErrorView> {
    let stem = canonical(name);
    let lines = lines_of(text);
    match first_invalid(stem, lines, 0) {
        Some(line) => Err(ErrorView::InvalidVariable(line)),
        None => if last_value(stem, Property::Version, lines) is None {
            Err(ErrorView::MissingVariable(VERSION@))
        } else {
            Ok(PackageView { name, properties: declared_in(stem, lines) })
        },
    }
}

/// The package that the descriptor at a path describes: its name is the stem
/// of the file's name.
pub open spec fn package_at(path: Seq<char>, text: Seq<char>) -> Result<PackageView, ErrorView> {
    match stem_of(path) {
        Some(name) => package_of(name, text),
        None => Err(ErrorView::InvalidFilename(path)),
    }
}

/// The value that `line` assigns, if it holds one `=` and no more.
fn assigned_value(line: &str) -> (value: Option<String>)
    ensures
        assigns(line@) == value is Some,
        value matches Some(v) ==> v@ == assigned(line@),
{
    let parts = split(line, '=');
    if parts.len() != 2 {
        return None;
    }
    assert(texts(parts@)[1] == parts@[1]@);
    Some(trim(parts[1].as_str()))
}

impl PackageInfo {
    #[verifier::type_invariant]
    spec fn has_version(self) -> bool {
        self.properties.value(Property::Version) is Some
    }

    /// Collect package information from the text of the descriptor at `path`.
    pub fn from_path(path: &str, text: &str) -> (r: Result<PackageInfo, Error>)
        ensures
            package_result_view(r) == package_at(path@, text@),
            r matches Ok(info) ==> info@.properties.contains_key(Property::Version),
    {
        match file_stem(path) {
            Some(name) => PackageInfo::from_reader(name.as_str(), text),
            None => Err(Error::InvalidFilename(String::from_str(path))),
        }
    }

    /// Collect package information from the text of a descriptor.
    pub fn from_reader(name: &str, text: &str) -> (r: Result<PackageInfo, Error>)
        ensures
            package_result_view(r) == package_of(name@, text@),
            r matches Ok(info) ==> info@.properties.contains_key(Property::Version),
    {
        let stem = canonicalize(name);
        let version_var = concatenate(stem.as_str(), VERSION_SUFFIX);
        let site_var = concatenate(stem.as_str(), SITE_SUFFIX);
        let source_var = concatenate(stem.as_str(), SOURCE_SUFFIX);
        let license_var = concatenate(stem.as_str(), LICENSE_SUFFIX);
        let dependencies_var = concatenate(stem.as_str(), DEPENDENCIES_SUFFIX);
        let all = lines(text);
        let mut properties = Properties::new();
        let mut i: usize = 0;
        proof {
            assert(lines_of(text@).take(0).len() == 0);
        }
        while i < all.len()
            invariant
                i <= all.len(),
                stem@ == canonical(name@),
                version_var@ == variable(stem@, Property::Version),
                site_var@ == variable(stem@, Property::Site),
                source_var@ == variable(stem@, Property::Source),
                license_var@ == variable(stem@, Property::License),
                dependencies_var@ == variable(stem@, Property::Dependencies),
                texts(all@) == lines_of(text@),
                first_invalid(stem@, lines_of(text@), 0) == first_invalid(
                    stem@,
                    lines_of(text@),
                    i as int,
                ),
                forall|p: Property| #[trigger]
                    properties.value(p) == last_value(stem@, p, lines_of(text@).take(i as int)),
            decreases all.len() - i,
        {
            let line = all[i].as_str();
            let ghost seen = lines_of(text@).take(i as int);
            let ghost next = lines_of(text@).take(i + 1);
            proof {
                assert(lines_of(text@)[i as int] == line@);
                assert(next.last() == line@);
                assert(next.drop_last() == seen);
            }
            let version = starts_with(line, version_var.as_str());
            let site = starts_with(line, site_var.as_str());
            let source = starts_with(line, source_var.as_str());
            let license = starts_with(line, license_var.as_str());
            let dependencies = starts_with(line, dependencies_var.as_str());
            if version || site || source || license || dependencies {
                match assigned_value(line) {
                    None => {
                        return Err(Error::InvalidVariable(String::from_str(line)));
                    },
                    Some(value) => {
                        if version {
                            properties.set(Property::Version, value.clone());
                        }
                        if site {
                            properties.set(Property::Site, value.clone());
                        }
                        if source {
                            properties.set(Property::Source, value.clone());
                        }
                        if license {
                            properties.set(Property::License, value.clone());
                        }
                        if dependencies {
                            properties.set(Property::Dependencies, value);
                        }
                    },
                }
            }
            proof {
                assert forall|p: Property| #[trigger]
                    properties.value(p) == last_value(stem@, p, next) by {
                    assert(declares(stem@, p, line@) == match p {
                        Property::Version => version,
                        Property::Site => site,
                        Property::Source => source,
                        Property::License => license,
                        Property::Dependencies => dependencies,
                    });
                }
            }
            i += 1;
        }
        proof {
            assert(lines_of(text@).take(i as int) == lines_of(text@));
        }
        if properties.property(Property::Version).is_none() {
            return Err(Error::MissingVariable(String::from_str(VERSION)));
        }
        let info = PackageInfo { name: String::from_str(name), properties };
        assert(info@.properties =~= declared_in(stem@, lines_of(text@)));
        Ok(info)
    }

    /// Return the name of the package.
    pub fn name(&self) -> (name: &str)
        ensures
            name@ == self@.name,
    {
        self.name.as_str()
    }

    /// Return the version of the package.
    pub fn version(&self) -> (version: &str)
        ensures
            self@.properties.contains_key(Property::Version),
            version@ == self@.properties[Property::Version],
    {
        proof {
            use_type_invariant(self);
        }
        match self.properties.property(Property::Version) {
            Some(version) => version.as_str(),
            None => unreached(),
        }
    }

    /// Return the properties of a package.
    pub fn properties(&self) -> (properties: &Properties)
        ensures
            properties.declared() == self@.properties,
    {
        &self.properties
    }
}

/// What opens the pattern of a version's declaration, in front of the stem.
pub const VERSION_PATTERN_HEAD: &'static str = "(";

/// What follows the stem in the pattern of a version's declaration: group 1
/// runs up to the value, white space after the `=` included, and group 2 is
/// the rest of the line.
pub const VERSION_PATTERN_TAIL: &'static str = "_VERSION\\s*=\\s*)(.+)";

/// Whether a character has a meaning of its own in a pattern.
pub open spec fn is_meta(c: char) -> bool {
    c == '\\' || c == '.' || c == '+' || c == '*' || c == '?' || c == '(' || c == ')' || c == '|'
        || c == '[' || c == ']' || c == '{' || c == '}' || c == '^' || c == '$' || c == '#' || c
        == '&' || c == '-' || c == '~'
}

/// The pattern that matches `s` as it stands: a `\` in front of each
/// character that has a meaning of its own in a pattern.
pub open spec fn escaped(s: Seq<char>) -> Seq<char>
    decreases s.len(),
{
    if s.len() == 0 {
        Seq::empty()
    } else if is_meta(s.last()) {
        escaped(s.drop_last()).push('\\').push(s.last())
    } else {
        escaped(s.drop_last()).push(s.last())
    }
}

/// The pattern that matches `s` as it stands.
pub fn escape(s: &str) -> (out: String)
    ensures
        out@ == escaped(s@),
{
    let chars = crate::text::to_chars(s);
    let mut out = String::new();
    let mut i: usize = 0;
    proof {
        assert(s@.take(0) =~= Seq::<char>::empty());
    }
    while i < chars.len()
        invariant
            i <= chars.len(),
            chars@ == s@,
            out@ == escaped(s@.take(i as int)),
        decreases chars.len() - i,
    {
        let c = chars[i];
        proof {
            assert(s@.take(i + 1).drop_last() =~= s@.take(i as int));
            assert(s@.take(i + 1).last() == c);
        }
        if c == '\\' || c == '.' || c == '+' || c == '*' || c == '?' || c == '(' || c == ')' || c
            == '|' || c == '[' || c == ']' || c == '{' || c == '}' || c == '^' || c == '$' || c
            == '#' || c == '&' || c == '-' || c == '~' {
            out.push('\\');
        }
        out.push(c);
        i += 1;
    }
    proof {
        assert(s@.take(chars.len() as int) =~= s@);
    }
    out
}

/// The pattern that finds the declaration of a package's version: the name
/// of the version's variable as it stands, white space around a `=`, and
/// the rest of the line.
pub open spec fn version_pattern(name: Seq<char>) -> Seq<char> {
    VERSION_PATTERN_HEAD@ + escaped(canonical(name)) + VERSION_PATTERN_TAIL@
}

/// What stands between a variable and its value.
pub const ASSIGN: &'static str = "=";

/// What ends a line.
pub const LINE_FEED: &'static str = "\n";

/// Whether a match in `text` is a declaration of the version of the package
/// with the stem `stem`. Group 1 is the name of the version's variable and
/// a `=` with nothing but white space around it; group 2 follows it at
/// once, is not empty and runs to the end of its line; and group 2 stands
/// in `text` where the match says.
pub open spec fn is_declaration(stem: Seq<char>, text: Seq<char>, c: CapturesView) -> bool {
    &&& c.group(1) is Some
    &&& c.group(2) is Some
    &&& c.group(2)->0.cut_from(text)
    &&& c.group(2)->0.before == c.group(1)->0.before + c.group(1)->0.text
    &&& variable(stem, Property::Version).is_prefix_of(c.group(1)->0.text)
    &&& trimmed(c.group(1)->0.text.skip(variable(stem, Property::Version).len() as int))
        == ASSIGN@
    &&& c.group(2)->0.text.len() > 0
    &&& fields(c.group(2)->0.text, '\n').len() == 1
    &&& (c.group(2)->0.after.len() == 0 || LINE_FEED@.is_prefix_of(c.group(2)->0.after))
}

/// The text with the new version in place of the old one, group 2 of the
/// match, where the match is a declaration of the version of the package
/// `name`; the text itself otherwise.
pub open spec fn rewritten(
    text: Seq<char>,
    name: Seq<char>,
    found: SearchView,
    version: Seq<char>,
) -> Seq<char> {
    match found {
        SearchView::Found(c) => if is_declaration(canonical(name), text, c) {
            c.group(2)->0.before + version + c.group(2)->0.after
        } else {
            text
        },
        _ => text,
    }
}

/// The text of a descriptor with the version of the package `name` set to
/// `version`, where the first declaration of a version stands.
pub open spec fn with_version(text: Seq<char>, name: Seq<char>, version: Seq<char>) -> Seq<char> {
    rewritten(text, name, search_of(version_pattern(name), text), version)
}

/// Builds the pattern that finds the declaration of a package's version.
pub fn version_pattern_of(name: &str) -> (pattern: String)
    ensures
        pattern@ == version_pattern(name@),
{
    let stem = canonicalize(name);
    let literal = escape(stem.as_str());
    let mut pattern = concatenate(VERSION_PATTERN_HEAD, literal.as_str());
    pattern.append(VERSION_PATTERN_TAIL);
    pattern
}

/// Whether a match in `text` is a declaration of the version of the package
/// with the stem `stem`.
pub fn declaration_in(stem: &str, text: &str, c: &Captures) -> (b: bool)
    ensures
        b == is_declaration(stem@, text@, c@),
{
    let head = match c.group(1) {
        Some(head) => head,
        None => {
            return false;
        },
    };
    let old = match c.group(2) {
        Some(old) => old,
        None => {
            return false;
        },
    };
    let mut whole = concatenate(old.before.as_str(), old.text.as_str());
    whole.append(old.after.as_str());
    if !same(whole.as_str(), text) {
        return false;
    }
    let front = concatenate(head.before.as_str(), head.text.as_str());
    if !same(old.before.as_str(), front.as_str()) {
        return false;
    }
    let variable = concatenate(stem, VERSION_SUFFIX);
    if !starts_with(head.text.as_str(), variable.as_str()) {
        return false;
    }
    let chars = crate::text::to_chars(head.text.as_str());
    let skipped = crate::text::to_chars(variable.as_str());
    let rest = crate::text::substring(&chars, skipped.len(), chars.len());
    assert(rest@ == head@.text.skip(variable@.len() as int));
    let sign = trim(rest.as_str());
    if !same(sign.as_str(), ASSIGN) {
        return false;
    }
    if old.text.as_str().is_empty() {
        return false;
    }
    let parts = split(old.text.as_str(), '\n');
    if parts.len() != 1 {
        return false;
    }
    old.after.as_str().is_empty() || starts_with(old.after.as_str(), LINE_FEED)
}

/// Puts `version` in place of the old version that was found in `text`,
/// where the match is a declaration of the version of the package `name`,
/// and leaves the text as it is otherwise.
pub fn rewrite_version(text: &str, name: &str, found: &Search, version: &str) -> (out: String)
    ensures
        out@ == rewritten(text@, name@, found@, version@),
{
    match found {
        Search::Found(c) => {
            let stem = canonicalize(name);
            if !declaration_in(stem.as_str(), text, c) {
                return String::from_str(text);
            }
            match c.group(2) {
                Some(old) => {
                    let mut out = concatenate(old.before.as_str(), version);
                    out.append(old.after.as_str());
                    out
                },
                None => String::from_str(text),
            }
        },
        _ => String::from_str(text),
    }
}

/// Sets the version of the package `name` in the text of its descriptor:
/// the first declaration of a version gets `version` as its value, and
/// every character outside the old value stays as it is, the spacing around
/// the `=` too. A text in which no declaration of the version is found is
/// returned as it is.
pub fn replace_version(text: &str, name: &str, version: &str) -> (out: String)
    ensures
        out@ == with_version(text@, name@, version@),
{
    let pattern = version_pattern_of(name);
    let found = find(pattern.as_str(), text);
    rewrite_version(text, name, &found, version)
}

/// The new text of the descriptor at `path` for the version `version`, or
/// the error that keeps it from being rewritten.
pub open spec fn version_set(path: Seq<char>, text: Seq<char>, version: Seq<char>) -> Result<
    Seq<char>,
    ErrorView,
> {
    match stem_of(path) {
        None => Err(ErrorView::InvalidFilename(path)),
        Some(name) => Ok(with_version(text, name, version)),
    }
}

pub open spec fn text_result_view(r: Result<String, Error>) -> Result<Seq<char>, ErrorView> {
    match r {
        Ok(v) => Ok(v@),
        Err(e) => Err(e@),
    }
}

/// Set the version of the package in the descriptor at `path`, whose text is
/// `text`, to `version`: returns the text to write back. The package's name
/// is the stem of the file's name.
pub fn set_package_version(path: &str, text: &str, version: &str) -> (r: Result<String, Error>)
    ensures
        text_result_view(r) == version_set(path@, text@, version@),
{
    match file_stem(path) {
        None => Err(Error::InvalidFilename(String::from_str(path))),
        Some(name) => Ok(replace_version(text, name.as_str(), version)),
    }
}

/// Whether a line is one that a descriptor may hold: it assigns where it
/// declares a property.
pub open spec fn acceptable(stem: Seq<char>, line: Seq<char>) -> bool {
    recognized(stem, line) ==> assigns(line)
}

/// Lines that are all acceptable hold no invalid line.
pub proof fn lemma_no_invalid_line(stem: Seq<char>, lines: Seq<Seq<char>>, i: int)
    requires
        0 <= i,
        forall|j: int| 0 <= j < lines.len() ==> acceptable(stem, #[trigger] lines[j]),
    ensures
        first_invalid(stem, lines, i) is None,
    decreases lines.len() - i,
{
    if i < lines.len() {
        assert(acceptable(stem, lines[i]));
        lemma_no_invalid_line(stem, lines, i + 1);
    }
}

/// The value of a property is that of a line declaring it, where no later
/// line declares the property.
pub proof fn lemma_last_declaration(
    stem: Seq<char>,
    property: Property,
    earlier: Seq<Seq<char>>,
    line: Seq<char>,
    later: Seq<Seq<char>>,
)
    requires
        declares(stem, property, line),
        forall|j: int| 0 <= j < later.len() ==> !declares(stem, property, #[trigger] later[j]),
    ensures
        last_value(stem, property, earlier + seq![line] + later) == Some(assigned(line)),
    decreases later.len(),
{
    let all = earlier + seq![line] + later;
    if later.len() == 0 {
        assert(all.last() == line);
    } else {
        assert(all.last() == later[later.len() - 1]);
        assert(all.drop_last() =~= earlier + seq![line] + later.drop_last());
        assert forall|j: int| 0 <= j < later.drop_last().len() implies !declares(
            stem,
            property,
            #[trigger] later.drop_last()[j],
        ) by {
            assert(later.drop_last()[j] == later[j]);
        }
        lemma_last_declaration(stem, property, earlier, line, later.drop_last());
    }
}

/// What follows the line feed at the start of `after`.
pub open spec fn following(after: Seq<char>) -> Seq<char> {
    if after.len() > 0 {
        after.skip(1)
    } else {
        Seq::empty()
    }
}

/// A descriptor whose version was rewritten is read back with the new
/// version, where the declaration that was rewritten begins a line and is
/// the last of the version. In full: the match is a declaration of the
/// version; in front of the old value
/// stand `front`, which is empty or ends with a line feed, then `left`, a
/// `=` and `gap`; `left`, the `=` and `gap` begin with the name of the
/// version's variable and hold no other `=` and no line feed, and `gap` is
/// white space; the new version holds no `=` and no line feed and neither
/// begins nor ends with white space; the rewritten line does not end with a
/// carriage return, and a line feed or nothing follows it; the other lines
/// are acceptable, and none after the rewritten one declares the version.
pub proof fn lemma_version_read_back(
    name: Seq<char>,
    text: Seq<char>,
    found: CapturesView,
    front: Seq<char>,
    left: Seq<char>,
    gap: Seq<char>,
    version: Seq<char>,
)
    requires
        is_declaration(canonical(name), text, found),
        found.group(2)->0.before == front + (left + seq!['='] + gap),
        front.len() == 0 || front.last() == '\n',
        found.group(2)->0.after.len() == 0 || found.group(2)->0.after.first() == '\n',
        variable(canonical(name), Property::Version).is_prefix_of(left + seq!['='] + gap),
        forall|k: int| 0 <= k < left.len() ==> left[k] != '=' && left[k] != '\n',
        forall|k: int|
            0 <= k < gap.len() ==> gap[k] != '=' && gap[k] != '\n' && whitespace(gap[k]),
        forall|k: int| 0 <= k < version.len() ==> version[k] != '=' && version[k] != '\n',
        version.len() > 0 ==> !whitespace(version.first()) && !whitespace(version.last()),
        (left + seq!['='] + gap + version).last() != '\r',
        forall|j: int|
            0 <= j < lines_of(front).len() ==> acceptable(
                canonical(name),
                #[trigger] lines_of(front)[j],
            ),
        forall|j: int|
            0 <= j < lines_of(following(found.group(2)->0.after)).len() ==> acceptable(
                canonical(name),
                #[trigger] lines_of(following(found.group(2)->0.after))[j],
            ) && !declares(
                canonical(name),
                Property::Version,
                lines_of(following(found.group(2)->0.after))[j],
            ),
    ensures
        package_of(name, rewritten(text, name, SearchView::Found(found), version)) matches Ok(
            package,
        )
            && package.name == name && package.properties.contains_key(Property::Version)
            && package.properties[Property::Version] == version,
{
    let stem = canonical(name);
    let head = left + seq!['='] + gap;
    let line = head + version;
    let after = found.group(2)->0.after;
    let new_text = rewritten(text, name, SearchView::Found(found), version);
    let earlier = lines_of(front);
    let later = lines_of(following(after));
    assert(new_text == front + head + version + after);
    assert forall|k: int| 0 <= k < line.len() implies line[k] != '\n' by {
        if k < left.len() {
            assert(line[k] == left[k]);
        } else if k == left.len() {
            assert(line[k] == '=');
        } else if k < head.len() {
            assert(line[k] == gap[k - left.len() - 1]);
        } else {
            assert(line[k] == version[k - head.len()]);
        }
    }
    assert(line.len() > 0 && line[left.len() as int] == '=');
    // the lines of the new text
    if after.len() == 0 {
        assert(new_text =~= front + line);
        lemma_lines_of_both(front, line);
        lemma_one_line(line, 0);
        assert(later =~= Seq::<Seq<char>>::empty());
        assert(lines_of(new_text) =~= earlier + seq![line] + later);
    } else {
        let rest = after.skip(1);
        assert(after =~= seq!['\n'] + rest);
        assert(new_text =~= front + (line + seq!['\n'] + rest));
        lemma_lines_of_both(front, line + seq!['\n'] + rest);
        lemma_first_line(line, rest);
        assert(lines_of(new_text) =~= earlier + seq![line] + later);
    }
    let all = earlier + seq![line] + later;
    // the rewritten line assigns the new version
    let right = gap + version;
    assert(line =~= left + seq!['='] + right);
    assert forall|k: int| 0 <= k < right.len() implies right[k] != '=' by {
        if k < gap.len() {
            assert(right[k] == gap[k]);
        } else {
            assert(right[k] == version[k - gap.len()]);
        }
    }
    lemma_two_fields(left, right, '=', 0);
    lemma_trimmed_padded(gap, version);
    assert(assigns(line) && assigned(line) == version);
    let variable = variable(stem, Property::Version);
    assert(variable.is_prefix_of(line)) by {
        assert(variable =~= head.subrange(0, variable.len() as int));
        assert(head.subrange(0, variable.len() as int) =~= line.subrange(
            0,
            variable.len() as int,
        ));
    }
    // all lines are acceptable, and the rewritten one declares the version last
    assert forall|j: int| 0 <= j < all.len() implies acceptable(stem, #[trigger] all[j]) by {
        if j < earlier.len() {
            assert(all[j] == earlier[j]);
        } else if j == earlier.len() {
            assert(all[j] == line);
        } else {
            assert(all[j] == later[j - earlier.len() - 1]);
        }
    }
    lemma_no_invalid_line(stem, all, 0);
    lemma_last_declaration(stem, Property::Version, earlier, line, later);
}

} // verus!
