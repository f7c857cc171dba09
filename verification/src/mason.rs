//! Build definitions kept by name in a directory.

use crate::paths::{extended_path, extension, extension_of, file_stem, join, joined_path, stem_of, with_extension};
use crate::text::{same, texts};
use vstd::prelude::*;

verus! {

/// The extension of the file that holds a build definition.
pub const DEFINITION_EXTENSION: &'static str = "toml";

/// Manages builds: knows where the build definitions are kept.
#[derive(Debug)]
pub struct Mason {
    storage: String,
}

impl View for Mason {
    type V = Seq<char>;

    closed spec fn view(&self) -> Seq<char> {
        self.storage@
    }
}

/// The path of the definition `name` in the directory `storage`: the file
/// of that name there, with the extension of a definition.
pub open spec fn definition_path(storage: Seq<char>, name: Seq<char>) -> Seq<char> {
    extended_path(joined_path(storage, name), DEFINITION_EXTENSION@)
}

/// The name of the definition that the file at `path` holds, if it holds
/// one: the stem of its name, where its extension is that of a definition.
pub open spec fn definition_name(path: Seq<char>) -> Option<Seq<char>> {
    if extension_of(path) == Some(DEFINITION_EXTENSION@) {
        stem_of(path)
    } else {
        None
    }
}

/// The names of the definitions that the files hold, in the order of the
/// files.
pub open spec fn definitions(files: Seq<Seq<char>>) -> Seq<Seq<char>>
    decreases files.len(),
{
    if files.len() == 0 {
        Seq::empty()
    } else {
        match definition_name(files.last()) {
            Some(name) => definitions(files.drop_last()).push(name),
            None => definitions(files.drop_last()),
        }
    }
}

impl Mason {
    /// Create a new mason, using `storage` as location for build definitions.
    pub fn new(storage: &str) -> (mason: Mason)
        ensures
            mason@ == storage@,
    {
        Mason { storage: String::from_str(storage) }
    }

    /// The location of the build definitions.
    pub fn storage(&self) -> (storage: &str)
        ensures
            storage@ == self@,
    {
        self.storage.as_str()
    }

    /// The path of the file that holds the build definition `name`.
    pub fn build_definition_path(&self, name: &str) -> (path: String)
        ensures
            path@ == definition_path(self@, name@),
    {
        let path = join(self.storage.as_str(), name);
        proof {
            reveal_strlit("toml");
        }
        with_extension(path.as_str(), DEFINITION_EXTENSION)
    }

    /// List all available build definitions, given the paths of the files
    /// in the location for build definitions.
    pub fn list(&self, files: &Vec<String>) -> (names: Vec<String>)
        ensures
            texts(names@) == definitions(texts(files@)),
    {
        let mut names: Vec<String> = Vec::new();
        let mut i: usize = 0;
        proof {
            assert(texts(files@).take(0).len() == 0);
            assert(texts(names@) =~= definitions(texts(files@).take(0)));
        }
        while i < files.len()
            invariant
                i <= files.len(),
                texts(names@) == definitions(texts(files@).take(i as int)),
            decreases files.len() - i,
        {
            proof {
                let next = texts(files@).take(i + 1);
                assert(next.drop_last() == texts(files@).take(i as int));
                assert(next.last() == files@[i as int]@);
            }
            let is_definition = match extension(files[i].as_str()) {
                Some(e) => same(e.as_str(), DEFINITION_EXTENSION),
                None => false,
            };
            if is_definition {
                match file_stem(files[i].as_str()) {
                    Some(name) => {
                        assert(texts(names@.push(name)) =~= texts(names@).push(name@));
                        names.push(name);
                    },
                    None => {},
                }
            }
            i += 1;
        }
        proof {
            assert(texts(files@).take(files.len() as int) == texts(files@));
        }
        names
    }
}

} // verus!
