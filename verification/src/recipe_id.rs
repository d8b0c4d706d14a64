//! Recipe identifiers of the form `[repo:]recipe`.
use vstd::prelude::*;
use vstd::string::*;

verus! {

/// A recipe name, optionally qualified by the name of the repo it is in.
#[derive(Debug, PartialEq)]
pub struct RecipeId {
    pub repo: Option<String>,
    pub recipe: String,
}

/// Why a recipe identifier could not be parsed.
#[derive(Debug, PartialEq)]
pub enum RecipeIdParseError {
    /// The identifier holds more than one `:`; it is given back whole.
    SyntaxError(String),
}

/// The number of `:` characters in `s`.
pub open spec fn colon_count(s: Seq<char>) -> nat {
    s.filter(|c: char| c == ':').len()
}

/// What parsing `s` gives: the repo part and the recipe part, or, when `s`
/// has more than one `:`, the error.
///
/// With no `:`, the whole of `s` names the recipe. With one `:`, what stands
/// before it names the repo and what stands after it the recipe.
pub open spec fn spec_parse_recipe_id(s: Seq<char>) -> Result<
    (Option<Seq<char>>, Seq<char>),
    Seq<char>,
> {
    if colon_count(s) == 0 {
        Ok((None, s))
    } else if colon_count(s) == 1 {
        let p = s.index_of(':');
        Ok((Some(s.take(p)), s.skip(p + 1)))
    } else {
        Err(s)
    }
}

proof fn lemma_filter_push(s: Seq<char>, c: char)
    ensures
        s.push(c).filter(|x: char| x == ':') == if c == ':' {
            s.filter(|x: char| x == ':').push(c)
        } else {
            s.filter(|x: char| x == ':')
        },
{
    reveal_with_fuel(Seq::<_>::filter, 1);
    assert(s.push(c).drop_last() =~= s);
}


/// A name has no `:` exactly when it counts none.
pub proof fn lemma_colon_count_zero(s: Seq<char>)
    ensures
        colon_count(s) == 0 <==> !s.contains(':'),
{
    let pred = |x: char| x == ':';
    if s.contains(':') {
        let i = choose|i: int| 0 <= i < s.len() && s[i] == ':';
        s.lemma_filter_contains_rev(pred, ':');
    } else {
        assert(s.all(|x: char| !pred(x)));
        s.lemma_all_neg_filter_empty(pred);
    }
}

/// A name without `:` names a recipe and no repo.
pub proof fn law_parse_plain_name(name: Seq<char>)
    requires
        !name.contains(':'),
    ensures
        spec_parse_recipe_id(name) == Ok::<(Option<Seq<char>>, Seq<char>), Seq<char>>(
            (None, name),
        ),
{
    lemma_colon_count_zero(name);
}

/// `repo:recipe` parses back into `repo` and `recipe` when neither holds a
/// `:`.
pub proof fn law_parse_qualified_name(repo: Seq<char>, recipe: Seq<char>)
    requires
        !repo.contains(':'),
        !recipe.contains(':'),
    ensures
        spec_parse_recipe_id(repo + seq![':'] + recipe) == Ok::<
            (Option<Seq<char>>, Seq<char>),
            Seq<char>,
        >((Some(repo), recipe)),
{
    let s = repo + seq![':'] + recipe;
    let pred = |x: char| x == ':';
    lemma_colon_count_zero(repo);
    lemma_colon_count_zero(recipe);
    Seq::filter_distributes_over_add(repo + seq![':'], recipe, pred);
    Seq::filter_distributes_over_add(repo, seq![':'], pred);
    reveal_with_fuel(Seq::<_>::filter, 2);
    assert(seq![':'].filter(pred) =~= seq![':']) by {
        assert(seq![':'].drop_last() =~= Seq::<char>::empty());
    }
    assert(colon_count(s) == 1);
    let p = repo.len() as int;
    assert(s[p] == ':');
    assert(s.contains(':'));
    let q = s.index_of(':');
    assert(q == p) by {
        if q < p {
            assert(repo[q] == s[q]);
        } else if q > p {
            assert(recipe[q - p - 1] == s[q]);
        }
    }
    assert(s.take(p) =~= repo);
    assert(s.skip(p + 1) =~= recipe);
}

impl RecipeId {
    /// Parses an identifier of the form `[repo:]recipe`.
    pub fn parse(recipe_id: &str) -> (r: Result<RecipeId, RecipeIdParseError>)
        ensures
            match (r, spec_parse_recipe_id(recipe_id@)) {
                (Ok(id), Ok((repo, recipe))) => {
                    &&& id.recipe@ == recipe
                    &&& match id.repo {
                        Some(name) => repo == Some(name@),
                        None => repo is None,
                    }
                },
                (Err(RecipeIdParseError::SyntaxError(text)), Err(whole)) => text@ == whole,
                _ => false,
            },
    {
        let n = recipe_id.unicode_len();
        let ghost s = recipe_id@;
        let mut colons: usize = 0;
        let mut first: usize = 0;
        let mut i: usize = 0;
        assert(s.take(0).filter(|x: char| x == ':') =~= Seq::<char>::empty());
        while i < n
            invariant
                n == s.len(),
                s == recipe_id@,
                i <= n,
                colons == colon_count(s.take(i as int)),
                colons <= i,
                colons == 0 ==> !s.take(i as int).contains(':'),
                colons > 0 ==> first < i && s[first as int] == ':' && !s.take(
                    first as int,
                ).contains(':'),
                colons == 1 ==> forall|k: int| 0 <= k < i && #[trigger] s[k] == ':' ==> k == first,
            decreases n - i,
        {
            let c = recipe_id.get_char(i);
            proof {
                assert(s.take(i + 1) =~= s.take(i as int).push(c));
                lemma_filter_push(s.take(i as int), c);
            }
            if c == ':' {
                if colons == 0 {
                    first = i;
                    assert(s.take(first as int) == s.take(i as int));
                    assert forall|k: int| 0 <= k < i && #[trigger] s[k] == ':' implies k == first by {
                        assert(s.take(i as int)[k] == s[k]);
                    }
                }
                colons = colons + 1;
            } else {
                proof {
                    if colons == 0 {
                        assert forall|k: int| 0 <= k < i + 1 implies #[trigger] s.take(i + 1)[k] != ':' by {
                            if k < i {
                                assert(s.take(i as int)[k] == s.take(i + 1)[k]);
                            }
                        }
                    }
                }
            }
            i = i + 1;
        }
        assert(s.take(n as int) =~= s);
        if colons == 0 {
            Ok(RecipeId { repo: None, recipe: String::from_str(recipe_id) })
        } else if colons == 1 {
            proof {
                assert(s.contains(':'));
                s.index_of_first_ensures(':');
                let p = s.index_of(':');
                assert(s[p] == ':');
                assert(p == first);
            }
            let repo = recipe_id.substring_char(0, first);
            let recipe = recipe_id.substring_char(first + 1, n);
            Ok(
                RecipeId {
                    repo: Some(String::from_str(repo)),
                    recipe: String::from_str(recipe),
                },
            )
        } else {
            Err(RecipeIdParseError::SyntaxError(String::from_str(recipe_id)))
        }
    }
}

impl std::str::FromStr for RecipeId {
    type Err = RecipeIdParseError;

    /// Parses an identifier of the form `[repo:]recipe`; see `RecipeId::parse`.
    fn from_str(recipe_id: &str) -> (r: Result<RecipeId, RecipeIdParseError>)
        ensures
            match (r, spec_parse_recipe_id(recipe_id@)) {
                (Ok(id), Ok((repo, recipe))) => {
                    &&& id.recipe@ == recipe
                    &&& match id.repo {
                        Some(name) => repo == Some(name@),
                        None => repo is None,
                    }
                },
                (Err(RecipeIdParseError::SyntaxError(text)), Err(whole)) => text@ == whole,
                _ => false,
            },
    {
        RecipeId::parse(recipe_id)
    }
}

} // verus!
