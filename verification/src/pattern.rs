//! Searching a text for a regular expression.

use vstd::prelude::*;

verus! {

/// What a group of a match matched, cut out of the text: the text in front
/// of the group, the group's own text, and the text behind it.
#[derive(Debug, PartialEq, Eq)]
pub struct Group {
    pub before: String,
    pub text: String,
    pub after: String,
}

/// The first match of a pattern in a text: its groups, the whole match
/// first; `None` for a group that took no part in the match.
#[derive(Debug, PartialEq, Eq)]
pub struct Captures {
    pub groups: Vec<Option<Group>>,
}

/// The outcome of searching a text for a pattern.
#[derive(Debug, PartialEq, Eq)]
pub enum Search {
    /// The pattern is not a regular expression that can be compiled.
    Invalid,
    /// The pattern matches nowhere in the text.
    Absent,
    /// The leftmost match.
    Found(Captures),
}

pub ghost struct GroupView {
    pub before: Seq<char>,
    pub text: Seq<char>,
    pub after: Seq<char>,
}

pub ghost struct CapturesView {
    pub groups: Seq<Option<GroupView>>,
}

pub ghost enum SearchView {
    Invalid,
    Absent,
    Found(CapturesView),
}

impl View for Group {
    type V = GroupView;

    open spec fn view(&self) -> GroupView {
        GroupView { before: self.before@, text: self.text@, after: self.after@ }
    }
}

pub open spec fn groups_view(groups: Seq<Option<Group>>) -> Seq<Option<GroupView>> {
    Seq::new(
        groups.len(),
        |i: int|
            match groups[i] {
                Some(g) => Some(g@),
                None => None,
            },
    )
}

impl View for Captures {
    type V = CapturesView;

    open spec fn view(&self) -> CapturesView {
        CapturesView { groups: groups_view(self.groups@) }
    }
}

impl View for Search {
    type V = SearchView;

    open spec fn view(&self) -> SearchView {
        match self {
            Search::Invalid => SearchView::Invalid,
            Search::Absent => SearchView::Absent,
            Search::Found(c) => SearchView::Found(c@),
        }
    }
}

impl GroupView {
    /// The group is cut out of `text`: it stands between `before` and
    /// `after`.
    pub open spec fn cut_from(self, text: Seq<char>) -> bool {
        self.before + self.text + self.after == text
    }
}

impl CapturesView {
    /// Group `i`, if that group exists and took part in the match.
    pub open spec fn group(self, i: int) -> Option<GroupView> {
        if 0 <= i < self.groups.len() {
            self.groups[i]
        } else {
            None
        }
    }

    /// The groups are cut out of `text`, and the whole match is among them.
    pub open spec fn cut_from(self, text: Seq<char>) -> bool {
        &&& self.groups.len() > 0
        &&& self.groups[0] is Some
        &&& forall|i: int|
            0 <= i < self.groups.len() && (#[trigger] self.groups[i]) is Some
                ==> self.groups[i]->0.cut_from(text)
    }
}

/// Whether `regex::Regex::new` accepts the pattern.
pub uninterp spec fn regex_compiles(pattern: Seq<char>) -> bool;

/// What `regex::Regex::captures` reports for the compiled pattern and the
/// text: for each group of the leftmost match the text in front of the
/// group, the group's text and the text behind it.
pub uninterp spec fn regex_captures(pattern: Seq<char>, text: Seq<char>) -> Option<
    Seq<Option<(Seq<char>, Seq<char>, Seq<char>)>>,
>;

/// The groups as the three texts of each.
pub open spec fn parts(groups: Seq<Option<GroupView>>) -> Seq<
    Option<(Seq<char>, Seq<char>, Seq<char>)>,
> {
    Seq::new(
        groups.len(),
        |i: int|
            match groups[i] {
                Some(g) => Some((g.before, g.text, g.after)),
                None => None,
            },
    )
}

/// The groups that the three texts of each make.
pub open spec fn groups_of(parts: Seq<Option<(Seq<char>, Seq<char>, Seq<char>)>>) -> Seq<
    Option<GroupView>,
> {
    Seq::new(
        parts.len(),
        |i: int|
            match parts[i] {
                Some((before, text, after)) => Some(GroupView { before, text, after }),
                None => None,
            },
    )
}

/// The outcome of a search, over the two names above.
pub open spec fn search_of(pattern: Seq<char>, text: Seq<char>) -> SearchView {
    if !regex_compiles(pattern) {
        SearchView::Invalid
    } else {
        match regex_captures(pattern, text) {
            None => SearchView::Absent,
            Some(parts) => SearchView::Found(CapturesView { groups: groups_of(parts) }),
        }
    }
}

/// Compiles `pattern` with `regex::Regex::new` and searches `text` with
/// `regex::Regex::captures`.
///
/// Not proved: that the outcome is the one the two names stand for, and that
/// each group of a match is cut out of `text` at the place where it was
/// found, group 0 being the whole match.
#[verifier::external_body]
pub(crate) fn search(pattern: &str, text: &str) -> (found: Search)
    ensures
        found is Invalid <==> !regex_compiles(pattern@),
        found is Absent ==> regex_captures(pattern@, text@) is None,
        found matches Search::Found(c) ==> c@.cut_from(text@) && regex_captures(pattern@, text@)
            == Some(parts(c@.groups)),
{
    let compiled = match regex::Regex::new(pattern) {
        Ok(compiled) => compiled,
        Err(_) => return Search::Invalid,
    };
    let cut = |m: regex::Match| Group {
        before: text[..m.start()].to_string(),
        text: m.as_str().to_string(),
        after: text[m.end()..].to_string(),
    };
    match compiled.captures(text) {
        None => Search::Absent,
        Some(caps) => Search::Found(Captures { groups: caps.iter().map(|g| g.map(cut)).collect() }),
    }
}

/// Searches `text` for `pattern`.
pub fn find(pattern: &str, text: &str) -> (found: Search)
    ensures
        found@ == search_of(pattern@, text@),
        found matches Search::Found(c) ==> c@.cut_from(text@),
{
    let found = search(pattern, text);
    proof {
        if let SearchView::Found(c) = found@ {
            assert(groups_of(parts(c.groups)) =~= c.groups);
        }
    }
    found
}

impl Captures {
    /// Group `i`, if that group exists and took part in the match.
    pub fn group(&self, i: usize) -> (group: Option<&Group>)
        ensures
            match group {
                Some(g) => self@.group(i as int) == Some(g@),
                None => self@.group(i as int) is None,
            },
    {
        if i < self.groups.len() {
            self.groups[i].as_ref()
        } else {
            None
        }
    }
}

} // verus!
