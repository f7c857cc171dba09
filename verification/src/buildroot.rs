//! A Buildroot environment: the main tree and the external trees laid over
//! it, with the presets and the packages found in each.

use crate::builder::{BuildStep, Builder, BuilderView, StepRun, StepRunView};
use crate::defconfig::{self, symbols_of, Defconfig, SymbolView};
use crate::package::{self, package_at, version_set, PackageInfo, Property};
use crate::paths::{join, joined_path};
use crate::text::{
    ends_with, fields, lines, lines_of, same, split, substring, texts, to_chars, trim, trimmed,
};
use vstd::prelude::*;

verus! {

/// The name of a preset's file ends with this.
pub const DEFCONFIG_SUFFIX: &'static str = "_defconfig";

/// The name of a package's descriptor ends with this.
pub const PACKAGE_SUFFIX: &'static str = ".mk";

/// A name with the path it was found at.
pub type Located = (String, String);

pub open spec fn located_view(pairs: Seq<Located>) -> Seq<(Seq<char>, Seq<char>)> {
    pairs.map_values(|p: Located| (p.0@, p.1@))
}

/// The first place at which `name` stands in `pairs`.
pub open spec fn position(pairs: Seq<(Seq<char>, Seq<char>)>, name: Seq<char>) -> Option<int>
    decreases pairs.len(),
{
    if pairs.len() == 0 {
        None
    } else {
        match position(pairs.drop_last(), name) {
            Some(i) => Some(i),
            None => if pairs.last().0 == name {
                Some(pairs.len() - 1)
            } else {
                None
            },
        }
    }
}

/// The path that goes with the first occurrence of `name` in `pairs`.
pub open spec fn lookup(pairs: Seq<(Seq<char>, Seq<char>)>, name: Seq<char>) -> Option<Seq<char>> {
    match position(pairs, name) {
        Some(i) => Some(pairs[i].1),
        None => None,
    }
}

/// `pairs` with `path` as the path of `name`: in the place of the path it
/// had, or at the end where it had none.
pub open spec fn inserted(
    pairs: Seq<(Seq<char>, Seq<char>)>,
    name: Seq<char>,
    path: Seq<char>,
) -> Seq<(Seq<char>, Seq<char>)> {
    match position(pairs, name) {
        Some(i) => pairs.update(i, (name, path)),
        None => pairs.push((name, path)),
    }
}

/// Whether no name stands twice in `pairs`.
pub open spec fn distinct(pairs: Seq<(Seq<char>, Seq<char>)>) -> bool {
    forall|i: int, j: int|
        0 <= i < j < pairs.len() ==> (#[trigger] pairs[i]).0 != (#[trigger] pairs[j]).0
}

/// The names in `pairs`.
pub open spec fn names(pairs: Seq<(Seq<char>, Seq<char>)>) -> Set<Seq<char>> {
    Set::new(|name: Seq<char>| position(pairs, name) is Some)
}

/// `position` gives the first place of the name, and none only where the
/// name stands nowhere.
pub proof fn lemma_position(pairs: Seq<(Seq<char>, Seq<char>)>, name: Seq<char>)
    ensures
        match position(pairs, name) {
            Some(i) => 0 <= i < pairs.len() && pairs[i].0 == name && forall|j: int|
                0 <= j < i ==> (#[trigger] pairs[j]).0 != name,
            None => forall|j: int| 0 <= j < pairs.len() ==> (#[trigger] pairs[j]).0 != name,
        },
    decreases pairs.len(),
{
    if pairs.len() > 0 {
        lemma_position(pairs.drop_last(), name);
        match position(pairs.drop_last(), name) {
            Some(i) => {
                assert(pairs.drop_last()[i] == pairs[i]);
                assert forall|j: int| 0 <= j < i implies (#[trigger] pairs[j]).0 != name by {
                    assert(pairs.drop_last()[j] == pairs[j]);
                }
            },
            None => {
                assert forall|j: int| 0 <= j < pairs.len() - 1 implies (#[trigger] pairs[j]).0
                    != name by {
                    assert(pairs.drop_last()[j] == pairs[j]);
                }
            },
        }
    }
}

/// Inserting keeps the names distinct, adds the name to the names, and
/// makes the path the one that is found under the name.
pub proof fn lemma_inserted(pairs: Seq<(Seq<char>, Seq<char>)>, name: Seq<char>, path: Seq<char>)
    requires
        distinct(pairs),
    ensures
        distinct(inserted(pairs, name, path)),
        names(inserted(pairs, name, path)) == names(pairs).insert(name),
        lookup(inserted(pairs, name, path), name) == Some(path),
        forall|other: Seq<char>|
            other != name ==> lookup(inserted(pairs, name, path), other) == lookup(pairs, other),
{
    let after = inserted(pairs, name, path);
    lemma_position(pairs, name);
    lemma_position(after, name);
    assert forall|other: Seq<char>| position(after, other) is Some <==> (position(pairs, other)
        is Some || other == name) by {
        lemma_position(pairs, other);
        lemma_position(after, other);
        match position(pairs, name) {
            Some(i) => {
                if let Some(k) = position(pairs, other) {
                    assert(after[k].0 == other);
                }
                if let Some(k) = position(after, other) {
                    if other != name {
                        assert(pairs[k].0 == other);
                    }
                }
            },
            None => {
                if let Some(k) = position(pairs, other) {
                    assert(after[k].0 == other);
                }
                if let Some(k) = position(after, other) {
                    if k < pairs.len() {
                        assert(pairs[k].0 == other);
                    }
                }
                assert(after[pairs.len() as int].0 == name);
            },
        }
    }
    assert(names(after) =~= names(pairs).insert(name));
    assert forall|other: Seq<char>| other != name implies lookup(after, other) == lookup(
        pairs,
        other,
    ) by {
        lemma_position(pairs, other);
        lemma_position(after, other);
        if let Some(k) = position(pairs, other) {
            assert(after[k].0 == other);
            assert(after[k] == pairs[k]);
            let m = position(after, other)->0;
            if m < k {
                assert(pairs[m].0 == other);
            }
            if k < m {
                assert(after[k].0 == other);
            }
        }
    }
    match position(pairs, name) {
        Some(i) => {
            assert(after[i].0 == name);
            let m = position(after, name)->0;
            if m < i {
                assert(pairs[m].0 == name);
            }
        },
        None => {
            assert(after[pairs.len() as int].0 == name);
            let m = position(after, name)->0;
            if m < pairs.len() {
                assert(pairs[m].0 == name);
            }
        },
    }
}

/// Paths by name, in the order in which the names came: a name that is set
/// again keeps its place and gets the new path.
#[derive(Debug)]
pub struct PathIndex {
    entries: Vec<Located>,
}

impl View for PathIndex {
    type V = Seq<(Seq<char>, Seq<char>)>;

    closed spec fn view(&self) -> Seq<(Seq<char>, Seq<char>)> {
        located_view(self.entries@)
    }
}

impl PathIndex {
    /// An index that holds nothing.
    pub fn new() -> (index: PathIndex)
        ensures
            index@ == Seq::<(Seq<char>, Seq<char>)>::empty(),
    {
        let index = PathIndex { entries: Vec::new() };
        assert(index@ =~= Seq::<(Seq<char>, Seq<char>)>::empty());
        index
    }

    /// Where `name` stands in the index.
    fn find(&self, name: &str) -> (at: Option<usize>)
        ensures
            match at {
                Some(i) => position(self@, name@) == Some(i as int) && i < self.entries.len(),
                None => position(self@, name@) is None,
            },
    {
        let wanted = String::from_str(name);
        let mut i: usize = 0;
        while i < self.entries.len()
            invariant
                i <= self.entries.len(),
                wanted@ == name@,
                forall|j: int| 0 <= j < i ==> (#[trigger] self@[j]).0 != name@,
            decreases self.entries.len() - i,
        {
            if self.entries[i].0 == wanted {
                proof {
                    assert(self@[i as int].0 == name@);
                    lemma_position(self@, name@);
                }
                return Some(i);
            }
            i += 1;
        }
        proof {
            lemma_position(self@, name@);
        }
        None
    }

    /// The path that goes with `name`.
    pub fn get(&self, name: &str) -> (path: Option<&String>)
        ensures
            match path {
                Some(p) => lookup(self@, name@) == Some(p@),
                None => lookup(self@, name@) is None,
            },
    {
        match self.find(name) {
            Some(i) => Some(&self.entries[i].1),
            None => None,
        }
    }

    /// Makes `path` the path that goes with `name`.
    pub fn insert(&mut self, name: String, path: String)
        ensures
            final(self)@ == inserted(old(self)@, name@, path@),
    {
        match self.find(name.as_str()) {
            Some(i) => {
                let ghost before = located_view(self.entries@);
                self.entries[i] = (name, path);
                assert(located_view(self.entries@) =~= before.update(i as int, (name@, path@)));
            },
            None => {
                let ghost before = located_view(self.entries@);
                self.entries.push((name, path));
                assert(located_view(self.entries@) =~= before.push((name@, path@)));
            },
        }
    }

    /// The number of names.
    pub fn len(&self) -> (n: usize)
        ensures
            n == self@.len(),
    {
        self.entries.len()
    }

    /// The names with their paths, in the order in which the names came.
    pub fn entries(&self) -> (entries: &Vec<Located>)
        ensures
            located_view(entries@) == self@,
    {
        &self.entries
    }
}

/// What a walk through a directory came by: the name of a file or directory
/// where it is valid Unicode, the path, and whether it is a regular file.
#[derive(Debug)]
pub struct WalkEntry {
    pub file_name: Option<String>,
    pub path: String,
    pub is_file: bool,
}

pub ghost struct WalkEntryView {
    pub file_name: Option<Seq<char>>,
    pub path: Seq<char>,
    pub is_file: bool,
}

impl View for WalkEntry {
    type V = WalkEntryView;

    open spec fn view(&self) -> WalkEntryView {
        WalkEntryView {
            file_name: match self.file_name {
                Some(n) => Some(n@),
                None => None,
            },
            path: self.path@,
            is_file: self.is_file,
        }
    }
}

pub open spec fn entries_view(entries: Seq<WalkEntry>) -> Seq<WalkEntryView> {
    entries.map_values(|e: WalkEntry| e@)
}

/// What an index is made of.
#[derive(Debug, Clone, Copy, PartialEq, Eq)]
pub enum Kind {
    Defconfig,
    Package,
}

/// Whether the entry is a preset: a regular file whose name ends as a
/// preset's does.
pub open spec fn spec_is_defconfig(entry: WalkEntryView) -> bool {
    entry.is_file && entry.file_name is Some && DEFCONFIG_SUFFIX@.is_suffix_of(entry.file_name->0)
}

/// Whether the entry is a package's descriptor: a regular file whose name
/// ends as a descriptor's does.
pub open spec fn spec_is_package(entry: WalkEntryView) -> bool {
    entry.is_file && entry.file_name is Some && PACKAGE_SUFFIX@.is_suffix_of(entry.file_name->0)
}

/// The name under which an entry is indexed, if it is of the kind: a preset
/// under its file's name, a package under its file's name without the
/// suffix.
pub open spec fn key(kind: Kind, entry: WalkEntryView) -> Option<Seq<char>> {
    match kind {
        Kind::Defconfig => if spec_is_defconfig(entry) {
            Some(entry.file_name->0)
        } else {
            None
        },
        Kind::Package => if spec_is_package(entry) {
            Some(
                entry.file_name->0.subrange(
                    0,
                    entry.file_name->0.len() - PACKAGE_SUFFIX@.len(),
                ),
            )
        } else {
            None
        },
    }
}

/// The index of the entries of a kind: each under its name with its path, a
/// later entry taking the place of an earlier one of the same name.
pub open spec fn indexed(kind: Kind, entries: Seq<WalkEntryView>) -> Seq<(Seq<char>, Seq<char>)>
    decreases entries.len(),
{
    if entries.len() == 0 {
        Seq::empty()
    } else {
        let before = indexed(kind, entries.drop_last());
        match key(kind, entries.last()) {
            Some(name) => inserted(before, name, entries.last().path),
            None => before,
        }
    }
}

/// No name stands twice in an index.
pub proof fn lemma_indexed_distinct(kind: Kind, entries: Seq<WalkEntryView>)
    ensures
        distinct(indexed(kind, entries)),
    decreases entries.len(),
{
    if entries.len() > 0 {
        lemma_indexed_distinct(kind, entries.drop_last());
        if let Some(name) = key(kind, entries.last()) {
            lemma_inserted(indexed(kind, entries.drop_last()), name, entries.last().path);
        }
    }
}

/// Whether the entry is a preset.
pub fn is_defconfig(entry: &WalkEntry) -> (b: bool)
    ensures
        b == spec_is_defconfig(entry@),
{
    match &entry.file_name {
        Some(name) => entry.is_file && ends_with(name.as_str(), DEFCONFIG_SUFFIX),
        None => false,
    }
}

/// Whether the entry is a package's descriptor.
pub fn is_package(entry: &WalkEntry) -> (b: bool)
    ensures
        b == spec_is_package(entry@),
{
    match &entry.file_name {
        Some(name) => entry.is_file && ends_with(name.as_str(), PACKAGE_SUFFIX),
        None => false,
    }
}

/// The name under which an entry is indexed, if it is of the kind.
pub fn key_of(kind: Kind, entry: &WalkEntry) -> (name: Option<String>)
    ensures
        match name {
            Some(n) => key(kind, entry@) == Some(n@),
            None => key(kind, entry@) is None,
        },
{
    match kind {
        Kind::Defconfig => {
            if is_defconfig(entry) {
                match &entry.file_name {
                    Some(name) => Some(name.clone()),
                    None => None,
                }
            } else {
                None
            }
        },
        Kind::Package => {
            if is_package(entry) {
                match &entry.file_name {
                    Some(name) => {
                        let chars = to_chars(name.as_str());
                        let suffix = to_chars(PACKAGE_SUFFIX);
                        Some(substring(&chars, 0, chars.len() - suffix.len()))
                    },
                    None => None,
                }
            } else {
                None
            }
        },
    }
}

/// The index of the entries of a kind.
pub fn collect(kind: Kind, entries: &Vec<WalkEntry>) -> (index: PathIndex)
    ensures
        index@ == indexed(kind, entries_view(entries@)),
        distinct(index@),
{
    let mut index = PathIndex::new();
    let mut i: usize = 0;
    proof {
        assert(entries_view(entries@).take(0).len() == 0);
    }
    while i < entries.len()
        invariant
            i <= entries.len(),
            index@ == indexed(kind, entries_view(entries@).take(i as int)),
        decreases entries.len() - i,
    {
        proof {
            let next = entries_view(entries@).take(i + 1);
            assert(next.drop_last() == entries_view(entries@).take(i as int));
            assert(next.last() == entries@[i as int]@);
        }
        match key_of(kind, &entries[i]) {
            Some(name) => {
                index.insert(name, entries[i].path.clone());
            },
            None => {},
        }
        i += 1;
    }
    proof {
        assert(entries_view(entries@).take(i as int) == entries_view(entries@));
        lemma_indexed_distinct(kind, entries_view(entries@));
    }
    index
}

/// Errors reported when processing a Buildroot environment.
#[derive(Debug)]
pub enum Error {
    /// A preset could not be read.
    Defconfig(defconfig::Error),
    /// A directory could not be walked through.
    DirectoryTraversal(String),
    /// The manifest of an external tree, at this path, is missing or is not
    /// a manifest.
    InvalidExternalTreeManifest(String),
    /// The tree at this path lacks a directory that a Buildroot tree has.
    InvalidBuildrootTree(String),
    /// A package's descriptor could not be read or rewritten.
    Package(package::Error),
    /// No tree holds a preset of this name.
    UnknownDefconfig(String),
    /// No tree holds a package of this name.
    UnknownPackage(String),
}

pub ghost enum ErrorView {
    Defconfig(defconfig::ErrorView),
    DirectoryTraversal(Seq<char>),
    InvalidExternalTreeManifest(Seq<char>),
    InvalidBuildrootTree(Seq<char>),
    Package(package::ErrorView),
    UnknownDefconfig(Seq<char>),
    UnknownPackage(Seq<char>),
}

impl View for Error {
    type V = ErrorView;

    open spec fn view(&self) -> ErrorView {
        match self {
            Error::Defconfig(e) => ErrorView::Defconfig(e@),
            Error::DirectoryTraversal(s) => ErrorView::DirectoryTraversal(s@),
            Error::InvalidExternalTreeManifest(s) => ErrorView::InvalidExternalTreeManifest(s@),
            Error::InvalidBuildrootTree(s) => ErrorView::InvalidBuildrootTree(s@),
            Error::Package(e) => ErrorView::Package(e@),
            Error::UnknownDefconfig(s) => ErrorView::UnknownDefconfig(s@),
            Error::UnknownPackage(s) => ErrorView::UnknownPackage(s@),
        }
    }
}

pub const BOARD_DIR: &'static str = "board";

pub const BOOT_DIR: &'static str = "boot";

/// The directory of a tree that holds its presets.
pub const CONFIGS_DIR: &'static str = "configs";

pub const FS_DIR: &'static str = "fs";

pub const LINUX_DIR: &'static str = "linux";

/// The directory of a tree that holds its packages.
pub const PACKAGE_DIR: &'static str = "package";

pub const TOOLCHAIN_DIR: &'static str = "toolchain";

pub const UTILS_DIR: &'static str = "utils";

/// The file of an external tree that holds its manifest.
pub const MANIFEST_FILE: &'static str = "external.desc";

/// The key of the manifest's line that names the tree.
pub const MANIFEST_NAME: &'static str = "name";

/// The key of the manifest's line that describes the tree.
pub const MANIFEST_DESC: &'static str = "desc";

/// The directories that the main tree must hold.
pub open spec fn subdirs() -> Seq<Seq<char>> {
    seq![
        BOARD_DIR@,
        BOOT_DIR@,
        CONFIGS_DIR@,
        FS_DIR@,
        LINUX_DIR@,
        PACKAGE_DIR@,
        TOOLCHAIN_DIR@,
        UTILS_DIR@,
    ]
}

/// The directories that the main tree must hold.
pub fn buildroot_subdirs() -> (dirs: Vec<String>)
    ensures
        texts(dirs@) == subdirs(),
{
    let mut dirs: Vec<String> = Vec::new();
    dirs.push(String::from_str(BOARD_DIR));
    dirs.push(String::from_str(BOOT_DIR));
    dirs.push(String::from_str(CONFIGS_DIR));
    dirs.push(String::from_str(FS_DIR));
    dirs.push(String::from_str(LINUX_DIR));
    dirs.push(String::from_str(PACKAGE_DIR));
    dirs.push(String::from_str(TOOLCHAIN_DIR));
    dirs.push(String::from_str(UTILS_DIR));
    assert(texts(dirs@) =~= subdirs());
    dirs
}

/// Whether all the directories of a main tree are among `directories`.
pub open spec fn has_layout(directories: Seq<Seq<char>>) -> bool {
    forall|i: int| 0 <= i < subdirs().len() ==> directories.contains(#[trigger] subdirs()[i])
}

/// Whether `name` is one of `list`.
pub fn contains(list: &Vec<String>, name: &str) -> (b: bool)
    ensures
        b == texts(list@).contains(name@),
{
    let mut i: usize = 0;
    while i < list.len()
        invariant
            i <= list.len(),
            forall|j: int| 0 <= j < i ==> texts(list@)[j] != name@,
        decreases list.len() - i,
    {
        if same(list[i].as_str(), name) {
            assert(texts(list@)[i as int] == name@);
            return true;
        }
        i += 1;
    }
    false
}

/// What was seen of a tree on disk: its path, the directories found right
/// below it, the text of its manifest where one could be read, and what one
/// walk through the whole of the tree came by. A walk that failed is the
/// message of its failure.
#[derive(Debug)]
pub struct TreeSnapshot {
    pub path: String,
    pub directories: Vec<String>,
    pub manifest: Option<String>,
    pub entries: Result<Vec<WalkEntry>, String>,
}

pub ghost struct TreeSnapshotView {
    pub path: Seq<char>,
    pub directories: Seq<Seq<char>>,
    pub manifest: Option<Seq<char>>,
    pub entries: Result<Seq<WalkEntryView>, Seq<char>>,
}

pub open spec fn walk_view(walk: Result<Vec<WalkEntry>, String>) -> Result<
    Seq<WalkEntryView>,
    Seq<char>,
> {
    match walk {
        Ok(entries) => Ok(entries_view(entries@)),
        Err(message) => Err(message@),
    }
}

impl View for TreeSnapshot {
    type V = TreeSnapshotView;

    open spec fn view(&self) -> TreeSnapshotView {
        TreeSnapshotView {
            path: self.path@,
            directories: texts(self.directories@),
            manifest: match self.manifest {
                Some(text) => Some(text@),
                None => None,
            },
            entries: walk_view(self.entries),
        }
    }
}

/// Information about a Buildroot external tree: what its manifest says.
#[derive(Debug)]
pub struct ExternalTreeInfo {
    pub name: String,
    pub desc: String,
}

pub ghost struct ExternalTreeInfoView {
    pub name: Seq<char>,
    pub desc: Seq<char>,
}

impl View for ExternalTreeInfo {
    type V = ExternalTreeInfoView;

    open spec fn view(&self) -> ExternalTreeInfoView {
        ExternalTreeInfoView { name: self.name@, desc: self.desc@ }
    }
}

/// What a line of a manifest says: whether it names or describes the tree,
/// and the value. The line holds one `:`, in front of it one of the two
/// keys, behind it the value with white space around it; no other line is a
/// line of a manifest.
pub open spec fn manifest_line(line: Seq<char>) -> Option<(bool, Seq<char>)> {
    let parts = fields(line, ':');
    if parts.len() != 2 {
        None
    } else if parts[0] == MANIFEST_NAME@ {
        Some((true, trimmed(parts[1])))
    } else if parts[0] == MANIFEST_DESC@ {
        Some((false, trimmed(parts[1])))
    } else {
        None
    }
}

/// What a manifest says: it has two lines, one that names the tree and one
/// that describes it, in either order.
pub open spec fn info_of(text: Seq<char>) -> Option<ExternalTreeInfoView> {
    let lines = lines_of(text);
    if lines.len() != 2 {
        None
    } else {
        match (manifest_line(lines[0]), manifest_line(lines[1])) {
            (Some((true, name)), Some((false, desc))) => Some(ExternalTreeInfoView { name, desc }),
            (Some((false, desc)), Some((true, name))) => Some(ExternalTreeInfoView { name, desc }),
            _ => None,
        }
    }
}

/// What the manifest at `path` says, where `manifest` is its text if it
/// could be read; a tree without a manifest is no external tree.
pub open spec fn info_at(path: Seq<char>, manifest: Option<Seq<char>>) -> Result<
    ExternalTreeInfoView,
    ErrorView,
> {
    match manifest {
        Some(text) => match info_of(text) {
            Some(info) => Ok(info),
            None => Err(ErrorView::InvalidExternalTreeManifest(path)),
        },
        None => Err(ErrorView::InvalidExternalTreeManifest(path)),
    }
}

pub open spec fn info_result_view(r: Result<ExternalTreeInfo, Error>) -> Result<
    ExternalTreeInfoView,
    ErrorView,
> {
    match r {
        Ok(v) => Ok(v@),
        Err(e) => Err(e@),
    }
}

impl ExternalTreeInfo {
    /// What a line of a manifest says.
    fn line(line: &str) -> (r: Option<(bool, String)>)
        ensures
            match r {
                Some((names, value)) => manifest_line(line@) == Some((names, value@)),
                None => manifest_line(line@) is None,
            },
    {
        let parts = split(line, ':');
        if parts.len() != 2 {
            return None;
        }
        assert(texts(parts@)[0] == parts@[0]@);
        assert(texts(parts@)[1] == parts@[1]@);
        let value = trim(parts[1].as_str());
        if same(parts[0].as_str(), MANIFEST_NAME) {
            Some((true, value))
        } else if same(parts[0].as_str(), MANIFEST_DESC) {
            Some((false, value))
        } else {
            None
        }
    }

    /// Build information about Buildroot external tree from the text of
    /// its manifest, the file at `path`.
    pub fn from_path(path: &str, manifest: &Option<String>) -> (r: Result<ExternalTreeInfo, Error>)
        ensures
            info_result_view(r) == info_at(
                path@,
                match manifest {
                    Some(text) => Some(text@),
                    None => None,
                },
            ),
    {
        let text = match manifest {
            Some(text) => text,
            None => {
                return Err(Error::InvalidExternalTreeManifest(String::from_str(path)));
            },
        };
        let all = lines(text.as_str());
        if all.len() != 2 {
            return Err(Error::InvalidExternalTreeManifest(String::from_str(path)));
        }
        assert(texts(all@)[0] == all@[0]@);
        assert(texts(all@)[1] == all@[1]@);
        let first = ExternalTreeInfo::line(all[0].as_str());
        let second = ExternalTreeInfo::line(all[1].as_str());
        match (first, second) {
            (Some((true, name)), Some((false, desc))) => Ok(ExternalTreeInfo { name, desc }),
            (Some((false, desc)), Some((true, name))) => Ok(ExternalTreeInfo { name, desc }),
            _ => Err(Error::InvalidExternalTreeManifest(String::from_str(path))),
        }
    }
}

/// What a tree holds: its path, and its presets and its packages by name.
#[derive(Debug)]
pub struct BuildrootBaseTree {
    path: String,
    defconfigs: PathIndex,
    packages: PathIndex,
}

pub ghost struct BaseTreeView {
    pub path: Seq<char>,
    pub defconfigs: Seq<(Seq<char>, Seq<char>)>,
    pub packages: Seq<(Seq<char>, Seq<char>)>,
}

impl BaseTreeView {
    /// The index of a kind.
    pub open spec fn index(self, kind: Kind) -> Seq<(Seq<char>, Seq<char>)> {
        match kind {
            Kind::Defconfig => self.defconfigs,
            Kind::Package => self.packages,
        }
    }
}

impl View for BuildrootBaseTree {
    type V = BaseTreeView;

    closed spec fn view(&self) -> BaseTreeView {
        BaseTreeView { path: self.path@, defconfigs: self.defconfigs@, packages: self.packages@ }
    }
}

/// What a tree holds, given what was seen of it: each regular file that the
/// walk came by is indexed by the end of its name, as a preset or as a
/// package. A walk that failed is an error.
pub open spec fn base_tree_of(seen: TreeSnapshotView) -> Result<BaseTreeView, ErrorView> {
    match seen.entries {
        Err(message) => Err(ErrorView::DirectoryTraversal(message)),
        Ok(entries) => Ok(
            BaseTreeView {
                path: seen.path,
                defconfigs: indexed(Kind::Defconfig, entries),
                packages: indexed(Kind::Package, entries),
            },
        ),
    }
}

pub open spec fn base_result_view(r: Result<BuildrootBaseTree, Error>) -> Result<
    BaseTreeView,
    ErrorView,
> {
    match r {
        Ok(v) => Ok(v@),
        Err(e) => Err(e@),
    }
}

pub open spec fn index_result_view(r: Result<PathIndex, Error>) -> Result<
    Seq<(Seq<char>, Seq<char>)>,
    ErrorView,
> {
    match r {
        Ok(v) => Ok(v@),
        Err(e) => Err(e@),
    }
}

/// The index of a kind that a walk shows, or the error of a walk that failed.
pub open spec fn collected(kind: Kind, walk: Result<Seq<WalkEntryView>, Seq<char>>) -> Result<
    Seq<(Seq<char>, Seq<char>)>,
    ErrorView,
> {
    match walk {
        Ok(entries) => Ok(indexed(kind, entries)),
        Err(message) => Err(ErrorView::DirectoryTraversal(message)),
    }
}

impl BuildrootBaseTree {
    /// What the tree holds, given what was seen of it.
    pub fn from_path(seen: &TreeSnapshot) -> (r: Result<BuildrootBaseTree, Error>)
        ensures
            base_result_view(r) == base_tree_of(seen@),
    {
        let defconfigs = match BuildrootBaseTree::collect_defconfigs(&seen.entries) {
            Ok(index) => index,
            Err(e) => {
                return Err(e);
            },
        };
        let packages = match BuildrootBaseTree::collect_packages(&seen.entries) {
            Ok(index) => index,
            Err(e) => {
                return Err(e);
            },
        };
        Ok(BuildrootBaseTree { path: seen.path.clone(), defconfigs, packages })
    }

    /// The presets that a walk shows.
    pub fn collect_defconfigs(walk: &Result<Vec<WalkEntry>, String>) -> (r: Result<PathIndex, Error>)
        ensures
            index_result_view(r) == collected(Kind::Defconfig, walk_view(*walk)),
    {
        match walk {
            Ok(entries) => Ok(collect(Kind::Defconfig, entries)),
            Err(message) => Err(Error::DirectoryTraversal(message.clone())),
        }
    }

    /// The packages that a walk shows.
    pub fn collect_packages(walk: &Result<Vec<WalkEntry>, String>) -> (r: Result<PathIndex, Error>)
        ensures
            index_result_view(r) == collected(Kind::Package, walk_view(*walk)),
    {
        match walk {
            Ok(entries) => Ok(collect(Kind::Package, entries)),
            Err(message) => Err(Error::DirectoryTraversal(message.clone())),
        }
    }

    /// The path of the tree.
    pub fn path(&self) -> (path: &str)
        ensures
            path@ == self@.path,
    {
        self.path.as_str()
    }

    /// The index of a kind.
    pub fn index(&self, kind: Kind) -> (index: &PathIndex)
        ensures
            index@ == self@.index(kind),
    {
        match kind {
            Kind::Defconfig => &self.defconfigs,
            Kind::Package => &self.packages,
        }
    }
}

/// A tree: the main one, or an external one with its name.
#[derive(Debug)]
pub enum BuildrootTree {
    Main(BuildrootBaseTree),
    External(String, BuildrootBaseTree),
}

pub ghost struct TreeView {
    /// The name of an external tree; the main tree has none.
    pub external: Option<Seq<char>>,
    pub tree: BaseTreeView,
}

impl View for BuildrootTree {
    type V = TreeView;

    open spec fn view(&self) -> TreeView {
        match self {
            BuildrootTree::Main(tree) => TreeView { external: None, tree: tree@ },
            BuildrootTree::External(name, tree) => TreeView { external: Some(name@), tree: tree@ },
        }
    }
}

pub open spec fn tree_result_view(r: Result<BuildrootTree, Error>) -> Result<TreeView, ErrorView> {
    match r {
        Ok(v) => Ok(v@),
        Err(e) => Err(e@),
    }
}

/// The main tree, given what was seen of it: it must hold every directory
/// of a Buildroot tree.
pub open spec fn main_tree_of(seen: TreeSnapshotView) -> Result<TreeView, ErrorView> {
    if !has_layout(seen.directories) {
        Err(ErrorView::InvalidBuildrootTree(seen.path))
    } else {
        match base_tree_of(seen) {
            Ok(tree) => Ok(TreeView { external: None, tree }),
            Err(e) => Err(e),
        }
    }
}

/// An external tree, given what was seen of it: it must have a manifest,
/// which names it.
pub open spec fn external_tree_of(seen: TreeSnapshotView) -> Result<TreeView, ErrorView> {
    match info_at(joined_path(seen.path, MANIFEST_FILE@), seen.manifest) {
        Err(e) => Err(e),
        Ok(info) => match base_tree_of(seen) {
            Ok(tree) => Ok(TreeView { external: Some(info.name), tree }),
            Err(e) => Err(e),
        },
    }
}

impl BuildrootTree {
    /// An external tree, given what was seen of it.
    pub fn external_from_path(seen: &TreeSnapshot) -> (r: Result<BuildrootTree, Error>)
        ensures
            tree_result_view(r) == external_tree_of(seen@),
    {
        let manifest = join(seen.path.as_str(), MANIFEST_FILE);
        let info = match ExternalTreeInfo::from_path(manifest.as_str(), &seen.manifest) {
            Ok(info) => info,
            Err(e) => {
                return Err(e);
            },
        };
        match BuildrootBaseTree::from_path(seen) {
            Ok(tree) => Ok(BuildrootTree::External(info.name, tree)),
            Err(e) => Err(e),
        }
    }

    /// The main tree, given what was seen of it.
    pub fn main_from_path(seen: &TreeSnapshot) -> (r: Result<BuildrootTree, Error>)
        ensures
            tree_result_view(r) == main_tree_of(seen@),
    {
        let required = buildroot_subdirs();
        let mut i: usize = 0;
        while i < required.len()
            invariant
                i <= required.len(),
                texts(required@) == subdirs(),
                forall|j: int|
                    0 <= j < i ==> texts(seen.directories@).contains(#[trigger] subdirs()[j]),
            decreases required.len() - i,
        {
            assert(texts(required@)[i as int] == required@[i as int]@);
            if !contains(&seen.directories, required[i].as_str()) {
                return Err(Error::InvalidBuildrootTree(seen.path.clone()));
            }
            i += 1;
        }
        match BuildrootBaseTree::from_path(seen) {
            Ok(tree) => Ok(BuildrootTree::Main(tree)),
            Err(e) => Err(e),
        }
    }

    /// What the tree holds.
    pub fn base(&self) -> (tree: &BuildrootBaseTree)
        ensures
            tree@ == self@.tree,
    {
        match self {
            BuildrootTree::Main(tree) => tree,
            BuildrootTree::External(_, tree) => tree,
        }
    }
}

pub open spec fn trees_view(trees: Seq<BuildrootTree>) -> Seq<TreeView> {
    trees.map_values(|t: BuildrootTree| t@)
}

/// Whether the trees are those of an environment: the main tree first,
/// then external trees only.
pub open spec fn is_environment(trees: Seq<TreeView>) -> bool {
    &&& trees.len() >= 1
    &&& trees[0].external is None
    &&& forall|i: int| 1 <= i < trees.len() ==> (#[trigger] trees[i]).external is Some
}

/// The names of a kind with their paths, tree after tree.
pub open spec fn listed(kind: Kind, trees: Seq<TreeView>) -> Seq<(Seq<char>, Seq<char>)>
    decreases trees.len(),
{
    if trees.len() == 0 {
        Seq::empty()
    } else {
        listed(kind, trees.drop_last()) + trees.last().tree.index(kind)
    }
}

/// The path under `name` in the first tree that holds the name.
pub open spec fn found(kind: Kind, trees: Seq<TreeView>, name: Seq<char>) -> Option<Seq<char>>
    decreases trees.len(),
{
    if trees.len() == 0 {
        None
    } else {
        match found(kind, trees.drop_last(), name) {
            Some(path) => Some(path),
            None => lookup(trees.last().tree.index(kind), name),
        }
    }
}

/// What is found among the first trees is found among all of them.
pub proof fn lemma_found_prefix(kind: Kind, trees: Seq<TreeView>, name: Seq<char>, n: int)
    requires
        0 <= n <= trees.len(),
        found(kind, trees.take(n), name) is Some,
    ensures
        found(kind, trees, name) == found(kind, trees.take(n), name),
    decreases trees.len() - n,
{
    if n == trees.len() {
        assert(trees.take(n) == trees);
    } else {
        assert(trees.take(n + 1).drop_last() == trees.take(n));
        lemma_found_prefix(kind, trees, name, n + 1);
    }
}

/// A name that the main tree holds is found there, whatever the external
/// trees hold: the first tree that holds a name decides.
pub proof fn lemma_first_tree_wins(kind: Kind, trees: Seq<TreeView>, name: Seq<char>)
    requires
        trees.len() >= 1,
        lookup(trees[0].tree.index(kind), name) is Some,
    ensures
        found(kind, trees, name) == lookup(trees[0].tree.index(kind), name),
{
    assert(trees.take(1).drop_last() == Seq::<TreeView>::empty());
    assert(trees.take(1).last() == trees[0]);
    assert(found(kind, trees.take(1).drop_last(), name) is None);
    lemma_found_prefix(kind, trees, name, 1);
}

/// The paths of the external trees of an environment.
pub open spec fn external_paths(trees: Seq<TreeView>) -> Seq<Seq<char>> {
    trees.skip(1).map_values(|t: TreeView| t.tree.path)
}

/// The builder for the preset `name`, building in `output`.
pub open spec fn builder_for(trees: Seq<TreeView>, name: Seq<char>, output: Seq<char>) -> Result<
    BuilderView,
    ErrorView,
> {
    match found(Kind::Defconfig, trees, name) {
        Some(path) => Ok(
            BuilderView {
                defconfig: path,
                output,
                main: trees[0].tree.path,
                externals: external_paths(trees),
            },
        ),
        None => Err(ErrorView::UnknownDefconfig(name)),
    }
}

/// The path of the thing of a kind that is named `name`.
pub open spec fn path_for(kind: Kind, trees: Seq<TreeView>, name: Seq<char>) -> Result<
    Seq<char>,
    ErrorView,
> {
    match found(kind, trees, name) {
        Some(path) => Ok(path),
        None => Err(
            match kind {
                Kind::Defconfig => ErrorView::UnknownDefconfig(name),
                Kind::Package => ErrorView::UnknownPackage(name),
            },
        ),
    }
}

/// The version of the package `name`, where `text` is the text of its
/// descriptor.
pub open spec fn version_of(trees: Seq<TreeView>, name: Seq<char>, text: Seq<char>) -> Result<
    Seq<char>,
    ErrorView,
> {
    match found(Kind::Package, trees, name) {
        None => Err(ErrorView::UnknownPackage(name)),
        Some(path) => match package_at(path, text) {
            Ok(info) => Ok(info.properties[Property::Version]),
            Err(e) => Err(ErrorView::Package(e)),
        },
    }
}

/// The new text of the descriptor of the package `name` for the version
/// `version`, where `text` is the text of that descriptor.
pub open spec fn version_change(
    trees: Seq<TreeView>,
    name: Seq<char>,
    text: Seq<char>,
    version: Seq<char>,
) -> Result<Seq<char>, ErrorView> {
    match found(Kind::Package, trees, name) {
        None => Err(ErrorView::UnknownPackage(name)),
        Some(path) => match version_set(path, text, version) {
            Ok(new_text) => Ok(new_text),
            Err(e) => Err(ErrorView::Package(e)),
        },
    }
}

/// The preset `name`, where `text` is the text of its file.
pub open spec fn defconfig_of(trees: Seq<TreeView>, name: Seq<char>, text: Seq<char>) -> Result<
    Seq<SymbolView>,
    ErrorView,
> {
    match found(Kind::Defconfig, trees, name) {
        None => Err(ErrorView::UnknownDefconfig(name)),
        Some(_) => match symbols_of(lines_of(text)) {
            Ok(symbols) => Ok(symbols),
            Err(e) => Err(ErrorView::Defconfig(e)),
        },
    }
}

pub open spec fn text_result_view(r: Result<String, Error>) -> Result<Seq<char>, ErrorView> {
    match r {
        Ok(v) => Ok(v@),
        Err(e) => Err(e@),
    }
}

pub open spec fn builder_result_view(r: Result<Builder, Error>) -> Result<BuilderView, ErrorView> {
    match r {
        Ok(v) => Ok(v@),
        Err(e) => Err(e@),
    }
}

pub open spec fn run_result_view(r: Result<StepRun, Error>) -> Result<StepRunView, ErrorView> {
    match r {
        Ok(v) => Ok(v@),
        Err(e) => Err(e@),
    }
}

pub open spec fn defconfig_result_view(r: Result<Defconfig, Error>) -> Result<
    Seq<SymbolView>,
    ErrorView,
> {
    match r {
        Ok(v) => Ok(v@),
        Err(e) => Err(e@),
    }
}

/// Represent a Buildroot environment, with all defconfigs and packages: the
/// main tree first, then the external trees.
#[derive(Debug)]
pub struct Buildroot {
    trees: Vec<BuildrootTree>,
}

impl View for Buildroot {
    type V = Seq<TreeView>;

    closed spec fn view(&self) -> Seq<TreeView> {
        trees_view(self.trees@)
    }
}

impl Buildroot {
    #[verifier::type_invariant]
    spec fn main_tree_first(self) -> bool {
        is_environment(trees_view(self.trees@))
    }

    /// The names of a kind with their paths, tree after tree.
    fn list(&self, kind: Kind) -> (all: Vec<Located>)
        ensures
            located_view(all@) == listed(kind, self@),
    {
        let mut all: Vec<Located> = Vec::new();
        let mut i: usize = 0;
        proof {
            assert(self@.take(0).len() == 0);
            assert(located_view(all@) =~= listed(kind, self@.take(0)));
        }
        while i < self.trees.len()
            invariant
                i <= self.trees.len(),
                located_view(all@) == listed(kind, self@.take(i as int)),
            decreases self.trees.len() - i,
        {
            let entries = self.trees[i].base().index(kind).entries();
            let ghost before = located_view(all@);
            let mut k: usize = 0;
            proof {
                assert(self@.take(i + 1).drop_last() == self@.take(i as int));
                assert(self@.take(i + 1).last() == self.trees@[i as int]@);
                assert(before + located_view(entries@).take(0) =~= before);
            }
            while k < entries.len()
                invariant
                    k <= entries.len(),
                    located_view(all@) == before + located_view(entries@).take(k as int),
                decreases entries.len() - k,
            {
                proof {
                    assert(located_view(entries@).take(k + 1) =~= located_view(entries@).take(
                        k as int,
                    ).push((entries@[k as int].0@, entries@[k as int].1@)));
                    assert(located_view(
                        all@.push((entries@[k as int].0, entries@[k as int].1)),
                    ) =~= located_view(all@).push((entries@[k as int].0@, entries@[k as int].1@)));
                }
                all.push((entries[k].0.clone(), entries[k].1.clone()));
                k += 1;
            }
            proof {
                assert(located_view(entries@).take(entries.len() as int) == located_view(entries@));
            }
            i += 1;
        }
        proof {
            assert(self@.take(self.trees.len() as int) == self@);
        }
        all
    }

    /// The path under `name` in the first tree that holds the name.
    fn path_of(&self, kind: Kind, name: &str) -> (path: Option<&String>)
        ensures
            match path {
                Some(p) => found(kind, self@, name@) == Some(p@),
                None => found(kind, self@, name@) is None,
            },
    {
        let mut i: usize = 0;
        proof {
            assert(self@.take(0).len() == 0);
        }
        while i < self.trees.len()
            invariant
                i <= self.trees.len(),
                found(kind, self@.take(i as int), name@) is None,
            decreases self.trees.len() - i,
        {
            proof {
                assert(self@.take(i + 1).drop_last() == self@.take(i as int));
                assert(self@.take(i + 1).last() == self.trees@[i as int]@);
            }
            match self.trees[i].base().index(kind).get(name) {
                Some(path) => {
                    proof {
                        lemma_found_prefix(kind, self@, name@, i + 1);
                    }
                    return Some(path);
                },
                None => {},
            }
            i += 1;
        }
        proof {
            assert(self@.take(self.trees.len() as int) == self@);
        }
        None
    }

    /// Return the name and the path of each defconfig file, tree after
    /// tree.
    pub fn defconfigs(&self) -> (all: Vec<Located>)
        ensures
            located_view(all@) == listed(Kind::Defconfig, self@),
    {
        self.list(Kind::Defconfig)
    }

    /// Return the name and the path of each package file, tree after tree.
    pub fn packages(&self) -> (all: Vec<Located>)
        ensures
            located_view(all@) == listed(Kind::Package, self@),
    {
        self.list(Kind::Package)
    }

    /// Return the path of the defconfig named `name`, in the first tree
    /// that holds one.
    pub fn defconfig_path(&self, name: &str) -> (r: Result<String, Error>)
        ensures
            text_result_view(r) == path_for(Kind::Defconfig, self@, name@),
    {
        match self.path_of(Kind::Defconfig, name) {
            Some(path) => Ok(path.clone()),
            None => Err(Error::UnknownDefconfig(String::from_str(name))),
        }
    }

    /// Return the path of the descriptor of the package named `name`, in
    /// the first tree that holds one.
    pub fn package_path(&self, name: &str) -> (r: Result<String, Error>)
        ensures
            text_result_view(r) == path_for(Kind::Package, self@, name@),
    {
        match self.path_of(Kind::Package, name) {
            Some(path) => Ok(path.clone()),
            None => Err(Error::UnknownPackage(String::from_str(name))),
        }
    }

    /// Return the version of a package named `name`, where `text` is the
    /// text of the descriptor at `package_path(name)`.
    pub fn get_package_version(&self, name: &str, text: &str) -> (r: Result<String, Error>)
        ensures
            text_result_view(r) == version_of(self@, name@, text@),
    {
        let path = match self.path_of(Kind::Package, name) {
            Some(path) => path,
            None => {
                return Err(Error::UnknownPackage(String::from_str(name)));
            },
        };
        match PackageInfo::from_path(path.as_str(), text) {
            Ok(info) => Ok(String::from_str(info.version())),
            Err(e) => Err(Error::Package(e)),
        }
    }

    /// Set the version of the package named `name` to `version`, where
    /// `text` is the text of the descriptor at `package_path(name)`:
    /// returns the text to write back there.
    pub fn set_package_version(&self, name: &str, text: &str, version: &str) -> (r: Result<
        String,
        Error,
    >)
        ensures
            text_result_view(r) == version_change(self@, name@, text@, version@),
    {
        let path = match self.path_of(Kind::Package, name) {
            Some(path) => path,
            None => {
                return Err(Error::UnknownPackage(String::from_str(name)));
            },
        };
        match package::set_package_version(path.as_str(), text, version) {
            Ok(new_text) => Ok(new_text),
            Err(e) => Err(Error::Package(e)),
        }
    }

    /// Return information from a defconfig named `name`, where `text` is
    /// the text of the file at `defconfig_path(name)`.
    pub fn get_defconfig(&self, name: &str, text: &str) -> (r: Result<Defconfig, Error>)
        ensures
            defconfig_result_view(r) == defconfig_of(self@, name@, text@),
    {
        if self.path_of(Kind::Defconfig, name).is_none() {
            return Err(Error::UnknownDefconfig(String::from_str(name)));
        }
        match Defconfig::from_reader(text) {
            Ok(defconfig) => Ok(defconfig),
            Err(e) => Err(Error::Defconfig(e)),
        }
    }

    /// Create a builder for a given defconfig
    pub fn create_builder(&self, name: &str, output: &str) -> (r: Result<Builder, Error>)
        ensures
            builder_result_view(r) == builder_for(self@, name@, output@),
    {
        let defconfig = match self.path_of(Kind::Defconfig, name) {
            Some(path) => path.clone(),
            None => {
                return Err(Error::UnknownDefconfig(String::from_str(name)));
            },
        };
        proof {
            use_type_invariant(self);
        }
        let main = String::from_str(self.main_tree_path());
        let mut externals: Vec<String> = Vec::new();
        let mut i: usize = 1;
        proof {
            assert(texts(externals@) =~= external_paths(self@).take(0));
        }
        while i < self.trees.len()
            invariant
                1 <= i <= self.trees.len(),
                texts(externals@) == external_paths(self@).take(i - 1),
            decreases self.trees.len() - i,
        {
            proof {
                assert(external_paths(self@).take(i as int) =~= external_paths(self@).take(
                    i - 1,
                ).push(self.trees@[i as int]@.tree.path));
            }
            let path = String::from_str(self.trees[i].base().path());
            assert(texts(externals@.push(path)) =~= texts(externals@).push(path@));
            externals.push(path);
            i += 1;
        }
        proof {
            assert(external_paths(self@).take(self.trees.len() - 1) == external_paths(self@));
        }
        Ok(Builder::new(defconfig, String::from_str(output), main, externals))
    }

    /// Build an embedded firmware: the run of the step for the preset
    /// `name`, building in `output`.
    pub fn build(&self, name: &str, output: &str, step: BuildStep) -> (r: Result<StepRun, Error>)
        ensures
            run_result_view(r) == match builder_for(self@, name@, output@) {
                Ok(builder) => Ok(
                    StepRunView {
                        commands: crate::builder::plan(builder, step),
                        done: 0,
                        failed: false,
                    },
                ),
                Err(e) => Err(e),
            },
    {
        match self.create_builder(name, output) {
            Ok(builder) => Ok(builder.run_step(step)),
            Err(e) => Err(e),
        }
    }

    /// Return the path to the main tree
    pub fn main_tree_path(&self) -> (path: &str)
        ensures
            self@.len() >= 1,
            path@ == self@[0].tree.path,
    {
        proof {
            use_type_invariant(self);
        }
        self.trees[0].base().path()
    }
}

pub open spec fn snapshots_view(seen: Seq<TreeSnapshot>) -> Seq<TreeSnapshotView> {
    seen.map_values(|s: TreeSnapshot| s@)
}

/// The external trees, given what was seen of each, in order; the error of
/// the first that is no external tree.
pub open spec fn external_trees_of(seen: Seq<TreeSnapshotView>) -> Result<Seq<TreeView>, ErrorView>
    decreases seen.len(),
{
    if seen.len() == 0 {
        Ok(Seq::empty())
    } else {
        match external_trees_of(seen.drop_last()) {
            Err(e) => Err(e),
            Ok(trees) => match external_tree_of(seen.last()) {
                Ok(tree) => Ok(trees.push(tree)),
                Err(e) => Err(e),
            },
        }
    }
}

/// The environment, given what was seen of the main tree and of the
/// external trees: the trees in that order, or the error of the first that
/// is not what it should be.
pub open spec fn environment_of(main: TreeSnapshotView, externals: Seq<TreeSnapshotView>) -> Result<
    Seq<TreeView>,
    ErrorView,
> {
    match main_tree_of(main) {
        Err(e) => Err(e),
        Ok(tree) => match external_trees_of(externals) {
            Ok(trees) => Ok(seq![tree] + trees),
            Err(e) => Err(e),
        },
    }
}

pub open spec fn environment_result_view(r: Result<Buildroot, Error>) -> Result<
    Seq<TreeView>,
    ErrorView,
> {
    match r {
        Ok(v) => Ok(v@),
        Err(e) => Err(e@),
    }
}

/// The trees that were made of what was seen are external trees, as many
/// as were seen.
pub proof fn lemma_external_trees(seen: Seq<TreeSnapshotView>)
    ensures
        external_trees_of(seen) matches Ok(trees) ==> trees.len() == seen.len() && forall|i: int|
            0 <= i < trees.len() ==> (#[trigger] trees[i]).external is Some,
    decreases seen.len(),
{
    if seen.len() > 0 {
        lemma_external_trees(seen.drop_last());
    }
}

/// A `Buildroot` builder, taking external source trees into account: it
/// gathers what was seen of the trees.
#[derive(Debug)]
pub struct BuildrootExplorer {
    main: TreeSnapshot,
    externals: Vec<TreeSnapshot>,
}

pub ghost struct ExplorerView {
    pub main: TreeSnapshotView,
    pub externals: Seq<TreeSnapshotView>,
}

impl View for BuildrootExplorer {
    type V = ExplorerView;

    closed spec fn view(&self) -> ExplorerView {
        ExplorerView { main: self.main@, externals: snapshots_view(self.externals@) }
    }
}

impl BuildrootExplorer {
    /// Construct a new `BuildrootExplorer` using what was seen at `path` as
    /// the main Buildroot directory.
    pub fn new(path: TreeSnapshot) -> (explorer: BuildrootExplorer)
        ensures
            explorer@ == (ExplorerView { main: path@, externals: Seq::empty() }),
    {
        let explorer = BuildrootExplorer { main: path, externals: Vec::new() };
        assert(explorer@.externals =~= Seq::<TreeSnapshotView>::empty());
        explorer
    }

    /// Add what was seen at `path` as an external source tree to be
    /// explored.
    pub fn external_tree(&mut self, path: TreeSnapshot) -> (explorer: &mut Self)
        ensures
            explorer@ == (ExplorerView {
                main: old(self)@.main,
                externals: old(self)@.externals.push(path@),
            }),
            *final(self) == *final(explorer),
    {
        let ghost before = snapshots_view(self.externals@);
        self.externals.push(path);
        assert(snapshots_view(self.externals@) =~= before.push(path@));
        self
    }

    /// Explore all the source trees and consume the `BuildrootExplorer`,
    /// providing a `Buildroot` in return.
    pub fn explore(self) -> (r: Result<Buildroot, Error>)
        ensures
            environment_result_view(r) == environment_of(self@.main, self@.externals),
            r matches Ok(buildroot) ==> is_environment(buildroot@),
    {
        let mut trees: Vec<BuildrootTree> = Vec::new();
        let main = match BuildrootTree::main_from_path(&self.main) {
            Ok(tree) => tree,
            Err(e) => {
                return Err(e);
            },
        };
        trees.push(main);
        let ghost first = trees@[0]@;
        let mut i: usize = 0;
        proof {
            assert(snapshots_view(self.externals@).take(0).len() == 0);
            assert(trees_view(trees@) =~= seq![first] + Seq::<TreeView>::empty());
        }
        while i < self.externals.len()
            invariant
                i <= self.externals.len(),
                main_tree_of(self.main@) == Ok::<TreeView, ErrorView>(first),
                external_trees_of(snapshots_view(self.externals@).take(i as int)) is Ok,
                trees_view(trees@) == seq![first] + external_trees_of(
                    snapshots_view(self.externals@).take(i as int),
                )->Ok_0,
            decreases self.externals.len() - i,
        {
            proof {
                let next = snapshots_view(self.externals@).take(i + 1);
                assert(next.drop_last() == snapshots_view(self.externals@).take(i as int));
                assert(next.last() == self.externals@[i as int]@);
                lemma_external_prefix(snapshots_view(self.externals@), i + 1);
            }
            match BuildrootTree::external_from_path(&self.externals[i]) {
                Ok(tree) => {
                    proof {
                        let before = external_trees_of(
                            snapshots_view(self.externals@).take(i as int),
                        )->Ok_0;
                        assert(trees_view(trees@.push(tree)) =~= trees_view(trees@).push(tree@));
                        assert((seq![first] + before).push(tree@) =~= seq![first] + before.push(
                            tree@,
                        ));
                    }
                    trees.push(tree);
                },
                Err(e) => {
                    return Err(e);
                },
            }
            i += 1;
        }
        proof {
            assert(snapshots_view(self.externals@).take(i as int) == snapshots_view(
                self.externals@,
            ));
            lemma_external_trees(snapshots_view(self.externals@));
        }
        Ok(Buildroot { trees })
    }
}

/// An error among the first external trees is the error of all of them.
pub proof fn lemma_external_prefix(seen: Seq<TreeSnapshotView>, n: int)
    requires
        0 <= n <= seen.len(),
    ensures
        external_trees_of(seen.take(n)) matches Err(e) ==> external_trees_of(seen) == Err::<
            Seq<TreeView>,
            ErrorView,
        >(e),
    decreases seen.len() - n,
{
    if n == seen.len() {
        assert(seen.take(n) == seen);
    } else {
        assert(seen.take(n + 1).drop_last() == seen.take(n));
        lemma_external_prefix(seen, n + 1);
    }
}

/// A main tree that lacks one of the directories of a Buildroot tree makes
/// no environment, whatever else was seen of it and of the external trees.
pub proof fn lemma_missing_directory(
    main: TreeSnapshotView,
    externals: Seq<TreeSnapshotView>,
    directory: Seq<char>,
)
    requires
        subdirs().contains(directory),
        !main.directories.contains(directory),
    ensures
        environment_of(main, externals) == Err::<Seq<TreeView>, ErrorView>(
            ErrorView::InvalidBuildrootTree(main.path),
        ),
{
    let i = choose|i: int| 0 <= i < subdirs().len() && subdirs()[i] == directory;
    assert(!main.directories.contains(subdirs()[i]));
}

/// The version of a package that the main tree holds is read from the main
/// tree's descriptor, whatever the external trees hold under that name.
pub proof fn lemma_main_tree_version(trees: Seq<TreeView>, name: Seq<char>, text: Seq<char>)
    requires
        trees.len() >= 1,
        lookup(trees[0].tree.packages, name) is Some,
    ensures
        version_of(trees, name, text) == version_of(seq![trees[0]], name, text),
{
    lemma_first_tree_wins(Kind::Package, trees, name);
    lemma_first_tree_wins(Kind::Package, seq![trees[0]], name);
}

/// The names that a walk gives to an index of a kind: those under which one
/// of its entries is indexed.
pub open spec fn keys(kind: Kind, entries: Seq<WalkEntryView>) -> Set<Seq<char>> {
    Set::new(
        |name: Seq<char>|
            exists|i: int| 0 <= i < entries.len() && key(kind, #[trigger] entries[i]) == Some(name),
    )
}

/// The names in an index are those under which an entry of the walk is
/// indexed.
pub proof fn lemma_indexed_names(kind: Kind, entries: Seq<WalkEntryView>)
    ensures
        names(indexed(kind, entries)) == keys(kind, entries),
    decreases entries.len(),
{
    if entries.len() == 0 {
        assert(names(indexed(kind, entries)) =~= keys(kind, entries));
    } else {
        let before = entries.drop_last();
        lemma_indexed_names(kind, before);
        lemma_indexed_distinct(kind, before);
        assert forall|name: Seq<char>| keys(kind, entries).contains(name) <==> (keys(
            kind,
            before,
        ).contains(name) || key(kind, entries.last()) == Some(name)) by {
            if keys(kind, entries).contains(name) {
                let i = choose|i: int|
                    0 <= i < entries.len() && key(kind, #[trigger] entries[i]) == Some(name);
                if i < before.len() {
                    assert(before[i] == entries[i]);
                }
            }
            if keys(kind, before).contains(name) {
                let i = choose|i: int|
                    0 <= i < before.len() && key(kind, #[trigger] before[i]) == Some(name);
                assert(entries[i] == before[i]);
            }
            if key(kind, entries.last()) == Some(name) {
                assert(entries[entries.len() - 1] == entries.last());
            }
        }
        match key(kind, entries.last()) {
            Some(name) => {
                lemma_inserted(indexed(kind, before), name, entries.last().path);
                assert(names(indexed(kind, entries)) =~= keys(kind, entries));
            },
            None => {
                assert(names(indexed(kind, entries)) =~= keys(kind, entries));
            },
        }
    }
}

/// Two walks that come by the same entries, in whatever order and however
/// often, give the same names to an index: walking a tree that has not
/// changed gives the names it gave before.
pub proof fn lemma_same_entries_same_names(
    kind: Kind,
    first: Seq<WalkEntryView>,
    second: Seq<WalkEntryView>,
)
    requires
        forall|entry: WalkEntryView| first.contains(entry) <==> second.contains(entry),
    ensures
        names(indexed(kind, first)) == names(indexed(kind, second)),
{
    lemma_indexed_names(kind, first);
    lemma_indexed_names(kind, second);
    assert forall|name: Seq<char>| keys(kind, first).contains(name) <==> keys(
        kind,
        second,
    ).contains(name) by {
        if keys(kind, first).contains(name) {
            let i = choose|i: int|
                0 <= i < first.len() && key(kind, #[trigger] first[i]) == Some(name);
            assert(first.contains(first[i]));
            let j = choose|j: int| 0 <= j < second.len() && second[j] == first[i];
            assert(key(kind, second[j]) == Some(name));
        }
        if keys(kind, second).contains(name) {
            let i = choose|i: int|
                0 <= i < second.len() && key(kind, #[trigger] second[i]) == Some(name);
            assert(second.contains(second[i]));
            let j = choose|j: int| 0 <= j < first.len() && first[j] == second[i];
            assert(key(kind, first[j]) == Some(name));
        }
    }
    assert(keys(kind, first) =~= keys(kind, second));
}

/// Of the entries that are indexed under one name, the last that the walk
/// came by gives the path.
pub proof fn lemma_last_entry_wins(kind: Kind, entries: Seq<WalkEntryView>, i: int)
    requires
        0 <= i < entries.len(),
        key(kind, entries[i]) is Some,
        forall|j: int| i < j < entries.len() ==> key(kind, #[trigger] entries[j]) != key(
            kind,
            entries[i],
        ),
    ensures
        lookup(indexed(kind, entries), key(kind, entries[i])->0) == Some(entries[i].path),
    decreases entries.len(),
{
    let before = entries.drop_last();
    let name = key(kind, entries[i])->0;
    lemma_indexed_distinct(kind, before);
    if i == entries.len() - 1 {
        lemma_inserted(indexed(kind, before), name, entries.last().path);
    } else {
        assert(before[i] == entries[i]);
        assert forall|j: int| i < j < before.len() implies key(kind, #[trigger] before[j]) != key(
            kind,
            before[i],
        ) by {
            assert(before[j] == entries[j]);
        }
        lemma_last_entry_wins(kind, before, i);
        assert(entries[entries.len() - 1] == entries.last());
        if let Some(other) = key(kind, entries.last()) {
            lemma_inserted(indexed(kind, before), other, entries.last().path);
        }
    }
}

/// Looking a name up in two lists, one after the other, finds what the
/// first holds under the name, and what the second holds where the first
/// holds nothing.
pub proof fn lemma_lookup_in_both(
    first: Seq<(Seq<char>, Seq<char>)>,
    second: Seq<(Seq<char>, Seq<char>)>,
    name: Seq<char>,
)
    ensures
        lookup(first + second, name) == match lookup(first, name) {
            Some(path) => Some(path),
            None => lookup(second, name),
        },
{
    let both = first + second;
    lemma_position(first, name);
    lemma_position(second, name);
    lemma_position(both, name);
    match position(first, name) {
        Some(i) => {
            assert(both[i] == first[i]);
            let k = position(both, name)->0;
            if k < i {
                assert(first[k] == both[k]);
            }
        },
        None => {
            match position(second, name) {
                Some(i) => {
                    assert(both[first.len() + i] == second[i]);
                    let k = position(both, name)->0;
                    if k < first.len() {
                        assert(first[k] == both[k]);
                    } else if k < first.len() + i {
                        assert(second[k - first.len()] == both[k]);
                    }
                },
                None => {
                    if let Some(k) = position(both, name) {
                        if k < first.len() {
                            assert(first[k] == both[k]);
                        } else {
                            assert(second[k - first.len()] == both[k]);
                        }
                    }
                },
            }
        },
    }
}

/// What is found under a name is the first of what is listed under it: the
/// trees are searched in order.
pub proof fn lemma_found_is_first_listed(kind: Kind, trees: Seq<TreeView>, name: Seq<char>)
    ensures
        found(kind, trees, name) == lookup(listed(kind, trees), name),
    decreases trees.len(),
{
    if trees.len() > 0 {
        lemma_found_is_first_listed(kind, trees.drop_last(), name);
        lemma_lookup_in_both(listed(kind, trees.drop_last()), trees.last().tree.index(kind), name);
    }
}

/// Every entry of a kind that the walk came by is found in the index under
/// its name, wherever in the tree it stands.
pub proof fn lemma_every_entry_indexed(kind: Kind, entries: Seq<WalkEntryView>, i: int)
    requires
        0 <= i < entries.len(),
        key(kind, entries[i]) is Some,
    ensures
        lookup(indexed(kind, entries), key(kind, entries[i])->0) is Some,
{
    lemma_indexed_names(kind, entries);
    assert(keys(kind, entries).contains(key(kind, entries[i])->0));
    assert(names(indexed(kind, entries)).contains(key(kind, entries[i])->0));
}

} // verus!
