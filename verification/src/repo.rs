//! A repository: a directory tree of recipe files, read into a table of
//! recipes keyed by recipe name.
use vstd::prelude::*;
use crate::names::NameMap;
use crate::recipe::Recipe;
use crate::text::str_equal;
use vstd::string::*;

verus! {

#[verifier::external_type_specification]
#[verifier::external_body]
pub struct ExIoError(std::io::Error);

#[verifier::external_type_specification]
#[verifier::external_body]
pub struct ExPathBuf(std::path::PathBuf);

/// Why a repository could not be read.
#[derive(Debug)]
pub enum RepoLoadError {
    StdIoError(std::io::Error),
}

/// A repository of recipes.
#[derive(Debug)]
pub struct Repo {
    /// Canonical absolute path in the local filesystem where this repo is
    /// available.
    path: std::path::PathBuf,
    /// All recipes of this repo, keyed by recipe name.
    recipes: NameMap<Recipe>,
}

impl Repo {
    /// The repository's path.
    pub closed spec fn spec_path(&self) -> std::path::PathBuf {
        self.path
    }

    /// The repository's recipes, keyed by recipe name.
    pub closed spec fn recipes(&self) -> NameMap<Recipe> {
        self.recipes
    }

    /// A repository at `path` that holds no recipes yet.
    pub fn with_path(path: std::path::PathBuf) -> (r: Repo)
        ensures
            r.spec_path() == path,
            r.recipes().keys() == Seq::<Seq<char>>::empty(),
            r.recipes().values() == Seq::<Recipe>::empty(),
    {
        Repo { path, recipes: NameMap::new() }
    }

    /// Adds `recipe` under `name`, in place of a recipe of that name
    /// already there.
    pub fn add_recipe(&mut self, name: String, recipe: Recipe)
        ensures
            final(self).spec_path() == old(self).spec_path(),
            final(self).recipes()@ == old(self).recipes()@.insert(name@, recipe),
            final(self).recipes().spec_get(name@) == Some(recipe),
            forall|other: Seq<char>|
                other != name@ ==> final(self).recipes().spec_get(other) == old(
                    self,
                ).recipes().spec_get(other),
            old(self).recipes().keys().contains(name@) ==> {
                &&& final(self).recipes().keys() == old(self).recipes().keys()
                &&& final(self).recipes().values() == old(self).recipes().values().update(
                    old(self).recipes().keys().index_of(name@),
                    recipe,
                )
            },
            !old(self).recipes().keys().contains(name@) ==> {
                &&& final(self).recipes().keys() == old(self).recipes().keys().push(name@)
                &&& final(self).recipes().values() == old(self).recipes().values().push(recipe)
            },
    {
        self.recipes.insert(name, recipe);
    }

    /// The recipe called `recipe_name`, if this repository has one.
    pub fn get_recipe(&self, recipe_name: &str) -> (r: Option<&Recipe>)
        ensures
            match r {
                Some(recipe) => self.recipes().spec_get(recipe_name@) == Some(*recipe),
                None => self.recipes().spec_get(recipe_name@) is None,
            },
    {
        self.recipes.get(recipe_name)
    }

    /// The repository's path.
    pub fn get_path(&self) -> (r: &std::path::PathBuf)
        ensures
            *r == self.spec_path(),
    {
        &self.path
    }

    /// The number of recipes in the repository.
    pub fn len(&self) -> (r: usize)
        ensures
            r == self.recipes().keys().len(),
    {
        self.recipes.len()
    }
}

/// The extension of recipe files.
pub open spec fn recipe_extension() -> Seq<char> {
    seq!['t', 'o', 'm', 'l']
}

/// The name under which a file found in a repository's directory tree is
/// read as a recipe, from the file's extension and stem: a file with the
/// extension `toml` is the recipe named by its stem; any other file is
/// skipped.
pub fn recipe_file_key(extension: Option<&str>, file_stem: Option<String>) -> (r: Option<String>)
    ensures
        r is Some <==> (extension matches Some(e) && e@ == recipe_extension() && file_stem is Some),
        r matches Some(k) ==> file_stem matches Some(s) && k@ == s@,
{
    let is_recipe = match extension {
        Some(e) => {
            let r = str_equal(e, "toml");
            proof {
                reveal_strlit("toml");
                assert("toml"@ =~= recipe_extension());
            }
            r
        },
        None => false,
    };
    if is_recipe {
        file_stem
    } else {
        None
    }
}

} // verus!
