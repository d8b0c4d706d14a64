//! All repositories in use, keyed by repository name, and lookup of recipes
//! by `[repo:]recipe` names across them.
use vstd::prelude::*;
use crate::names::NameMap;
use crate::recipe::Recipe;
use crate::recipe_id::{
    law_parse_plain_name, law_parse_qualified_name, spec_parse_recipe_id, RecipeId,
    RecipeIdParseError,
};
use crate::repo::{Repo, RepoLoadError};

verus! {

/// Why a recipe lookup failed.
#[derive(Debug, PartialEq)]
pub enum RecipeLookupError {
    RecipeIdParseError(RecipeIdParseError),
    RecipeNotFound(String),
    RepoNotFound(String),
}

/// A failed lookup, with the names it reports.
pub enum LookupFailure {
    /// The name has more than one `:`.
    BadName(Seq<char>),
    RecipeNotFound(Seq<char>),
    RepoNotFound(Seq<char>),
}

impl View for RecipeLookupError {
    type V = LookupFailure;

    open spec fn view(&self) -> LookupFailure {
        match self {
            RecipeLookupError::RecipeIdParseError(RecipeIdParseError::SyntaxError(s)) => {
                LookupFailure::BadName(s@)
            },
            RecipeLookupError::RecipeNotFound(s) => LookupFailure::RecipeNotFound(s@),
            RecipeLookupError::RepoNotFound(s) => LookupFailure::RepoNotFound(s@),
        }
    }
}

impl From<RecipeIdParseError> for RecipeLookupError {
    fn from(val: RecipeIdParseError) -> (r: Self) {
        RecipeLookupError::RecipeIdParseError(val)
    }
}

impl vstd::std_specs::convert::FromSpecImpl<RecipeIdParseError> for RecipeLookupError {
    open spec fn obeys_from_spec() -> bool {
        true
    }

    open spec fn from_spec(val: RecipeIdParseError) -> Self {
        RecipeLookupError::RecipeIdParseError(val)
    }
}

/// Why a repository could not be added.
#[derive(Debug)]
pub enum AddRepoError {
    RepoLoadError(RepoLoadError),
    InvalidRepoName(String),
}

/// Why a build graph could not be drawn.
#[derive(Debug)]
pub enum RecipeCompileError {
    RecipeLookupError(RecipeLookupError),
    StdIoError(std::io::Error),
    /// The vitamin of this name has no capital input.
    VitaminLacksCapital(String),
    /// The capital of the vitamin of this name is not in US dollars.
    VitaminCapitalHasWrongUnit(String),
    /// The input of this name produces no output.
    InputProducesNoOutput(String),
}

/// All repositories in use, keyed by repository name.
pub struct Repos {
    repos: NameMap<Repo>,
}

impl Default for Repos {
    /// No repositories.
    fn default() -> (r: Self)
        ensures
            r.repos().keys() == Seq::<Seq<char>>::empty(),
            r.repos().values() == Seq::<Repo>::empty(),
    {
        Repos { repos: NameMap::new() }
    }
}

/// The recipe called `name` in the first of `repos` that has one.
pub open spec fn first_recipe_in(repos: Seq<Repo>, name: Seq<char>) -> Option<Recipe>
    decreases repos.len(),
{
    if repos.len() == 0 {
        None
    } else {
        match repos[0].recipes().spec_get(name) {
            Some(recipe) => Some(recipe),
            None => first_recipe_in(repos.drop_first(), name),
        }
    }
}

impl Repos {
    /// The repositories, keyed by repository name.
    pub closed spec fn repos(&self) -> NameMap<Repo> {
        self.repos
    }

    /// What looking up `name` gives.
    ///
    /// A name `repo:recipe` is looked up in the repository `repo` alone; a
    /// plain name is looked up in every repository, and the first that has
    /// it (in the order the repositories were added) gives it.
    pub open spec fn spec_get_recipe(&self, name: Seq<char>) -> Result<Recipe, LookupFailure> {
        match spec_parse_recipe_id(name) {
            Err(whole) => Err(LookupFailure::BadName(whole)),
            Ok((Some(repo_name), recipe_name)) => match self.repos().spec_get(repo_name) {
                None => Err(LookupFailure::RepoNotFound(repo_name)),
                Some(repo) => match repo.recipes().spec_get(recipe_name) {
                    Some(recipe) => Ok(recipe),
                    None => Err(LookupFailure::RecipeNotFound(name)),
                },
            },
            Ok((None, _)) => match first_recipe_in(self.repos().values(), name) {
                Some(recipe) => Ok(recipe),
                None => Err(LookupFailure::RecipeNotFound(name)),
            },
        }
    }

    /// Adds `repo` under the name `repo_name`, in place of a repository of
    /// that name already there.
    pub fn insert_repo(&mut self, repo_name: String, repo: Repo)
        ensures
            final(self).repos()@ == old(self).repos()@.insert(repo_name@, repo),
            final(self).repos().spec_get(repo_name@) == Some(repo),
            forall|other: Seq<char>|
                other != repo_name@ ==> final(self).repos().spec_get(other) == old(
                    self,
                ).repos().spec_get(other),
            old(self).repos().keys().contains(repo_name@) ==> {
                &&& final(self).repos().keys() == old(self).repos().keys()
                &&& final(self).repos().values() == old(self).repos().values().update(
                    old(self).repos().keys().index_of(repo_name@),
                    repo,
                )
            },
            !old(self).repos().keys().contains(repo_name@) ==> {
                &&& final(self).repos().keys() == old(self).repos().keys().push(repo_name@)
                &&& final(self).repos().values() == old(self).repos().values().push(repo)
            },
    {
        self.repos.insert(repo_name, repo);
    }

    /// The number of repositories.
    pub fn len(&self) -> (r: usize)
        ensures
            r == self.repos().keys().len(),
    {
        self.repos.len()
    }

    /// The repository called `repo_name`, if there is one.
    pub fn get_repo(&self, repo_name: &str) -> (r: Option<&Repo>)
        ensures
            match r {
                Some(repo) => self.repos().spec_get(repo_name@) == Some(*repo),
                None => self.repos().spec_get(repo_name@) is None,
            },
    {
        self.repos.get(repo_name)
    }

    /// Looks up a recipe by a name of the form `[repo:]recipe`.
    ///
    /// With a repo, looks only in that repo; without one, searches all
    /// repos.
    pub fn get_recipe(&self, recipe_name: &str) -> (r: Result<&Recipe, RecipeLookupError>)
        ensures
            match r {
                Ok(recipe) => self.spec_get_recipe(recipe_name@) == Ok::<
                    Recipe,
                    LookupFailure,
                >(*recipe),
                Err(e) => self.spec_get_recipe(recipe_name@) == Err::<Recipe, LookupFailure>(
                    e@,
                ),
            },
    {
        let recipe_id = match RecipeId::parse(recipe_name) {
            Ok(id) => id,
            Err(e) => return Err(RecipeLookupError::RecipeIdParseError(e)),
        };
        match recipe_id.repo {
            Some(repo) => {
                let found = match self.repos.get(repo.as_str()) {
                    Some(found) => found,
                    None => return Err(RecipeLookupError::RepoNotFound(repo)),
                };
                match found.get_recipe(recipe_id.recipe.as_str()) {
                    Some(recipe) => Ok(recipe),
                    None => Err(RecipeLookupError::RecipeNotFound(String::from_str(recipe_name))),
                }
            },
            None => {
                let n = self.repos.len();
                assert(self.repos().values().skip(0) =~= self.repos().values());
                for i in 0..n
                    invariant
                        n == self.repos().values().len(),
                        n == self.repos().keys().len(),
                        spec_parse_recipe_id(recipe_name@) matches Ok((None, _)),
                        first_recipe_in(self.repos().values(), recipe_name@) == first_recipe_in(
                            self.repos().values().skip(i as int),
                            recipe_name@,
                        ),
                {
                    proof {
                        assert(self.repos().values().skip(i as int).drop_first()
                            =~= self.repos().values().skip(i + 1));
                    }
                    let repo = self.repos.value_at(i);
                    assert(self.repos().values().skip(i as int)[0] == *repo);
                    if let Some(recipe) = repo.get_recipe(recipe_name) {
                        return Ok(recipe);
                    }
                }
                Err(RecipeLookupError::RecipeNotFound(String::from_str(recipe_name)))
            },
        }
    }
}


/// Looking for a plain name in `repos` finds a recipe exactly when one of
/// them holds one of that name, and what it finds is held by one of them
/// under that name.
pub proof fn lemma_first_recipe_in(repos: Seq<Repo>, name: Seq<char>)
    ensures
        first_recipe_in(repos, name) is Some <==> exists|i: int|
            0 <= i < repos.len() && (#[trigger] repos[i].recipes().spec_get(name)) is Some,
        first_recipe_in(repos, name) matches Some(recipe) ==> exists|i: int|
            0 <= i < repos.len() && #[trigger] repos[i].recipes().spec_get(name) == Some(recipe),
    decreases repos.len(),
{
    if repos.len() > 0 {
        let rest = repos.drop_first();
        lemma_first_recipe_in(rest, name);
        if repos[0].recipes().spec_get(name) is None {
            if exists|i: int|
                0 <= i < repos.len() && (#[trigger] repos[i].recipes().spec_get(name)) is Some {
                let i = choose|i: int|
                    0 <= i < repos.len() && (#[trigger] repos[i].recipes().spec_get(name)) is Some;
                assert(rest[i - 1] == repos[i]);
            }
            if let Some(recipe) = first_recipe_in(rest, name) {
                let i = choose|i: int|
                    0 <= i < rest.len() && #[trigger] rest[i].recipes().spec_get(name) == Some(recipe);
                assert(repos[i + 1] == rest[i]);
            }
            if first_recipe_in(rest, name) is Some {
                let i = choose|i: int|
                    0 <= i < rest.len() && (#[trigger] rest[i].recipes().spec_get(name)) is Some;
                assert(repos[i + 1] == rest[i]);
            }
        }
    }
}

/// A plain name (no `:`) is found exactly when some repository holds a
/// recipe of that name, and then the recipe found is one such; otherwise
/// the lookup reports the name as not found.
pub proof fn law_plain_lookup(repos: Repos, name: Seq<char>)
    requires
        !name.contains(':'),
    ensures
        repos.spec_get_recipe(name) is Ok <==> exists|i: int|
            0 <= i < repos.repos().values().len() && (
            #[trigger] repos.repos().values()[i].recipes().spec_get(name)) is Some,
        repos.spec_get_recipe(name) matches Ok(recipe) ==> exists|i: int|
            0 <= i < repos.repos().values().len()
                && #[trigger] repos.repos().values()[i].recipes().spec_get(name) == Some(recipe),
        repos.spec_get_recipe(name) matches Err(f) ==> f == LookupFailure::RecipeNotFound(name),
{
    law_parse_plain_name(name);
    lemma_first_recipe_in(repos.repos().values(), name);
}

/// `repo:recipe` is looked up in the repository `repo` alone: it is found
/// exactly when that repository holds `recipe`.
pub proof fn law_qualified_lookup(repos: Repos, repo: Seq<char>, recipe: Seq<char>)
    requires
        !repo.contains(':'),
        !recipe.contains(':'),
    ensures
        repos.spec_get_recipe(repo + seq![':'] + recipe) == match repos.repos().spec_get(repo) {
            None => Err(LookupFailure::RepoNotFound(repo)),
            Some(r) => match r.recipes().spec_get(recipe) {
                Some(found) => Ok(found),
                None => Err(LookupFailure::RecipeNotFound(repo + seq![':'] + recipe)),
            },
        },
{
    law_parse_qualified_name(repo, recipe);
}

/// After a repository is added under `repo_name`, `repo_name:recipe`
/// finds exactly the recipes of that repository.
pub proof fn law_lookup_in_added_repo(
    repos: Repos,
    repo_name: Seq<char>,
    repo: Repo,
    recipe: Seq<char>,
)
    requires
        repos.repos().spec_get(repo_name) == Some(repo),
        !repo_name.contains(':'),
        !recipe.contains(':'),
    ensures
        repos.spec_get_recipe(repo_name + seq![':'] + recipe) == match repo.recipes().spec_get(
            recipe,
        ) {
            Some(found) => Ok(found),
            None => Err(LookupFailure::RecipeNotFound(repo_name + seq![':'] + recipe)),
        },
{
    law_qualified_lookup(repos, repo_name, recipe);
}

} // verus!
