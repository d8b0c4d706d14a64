//! The simpler recipe format of the recipe loader: a named recipe with
//! tables of inputs, outputs and dependencies, and the collection of all
//! recipes found in a repository directory.
use vstd::prelude::*;
use vstd::string::*;
use crate::names::NameMap;
use crate::text::{sort_seq, string_views};

verus! {

/// An input of a loader recipe.
#[derive(Debug, PartialEq, Eq, Hash)]
pub struct Input {}

/// An output of a loader recipe.
#[derive(Debug, PartialEq, Eq, Hash)]
pub struct Output {}

/// A dependency of a loader recipe.
#[derive(Debug, PartialEq, Eq, Hash)]
pub struct Dependency {}

/// The configuration of a loader recipe.
#[derive(Debug, PartialEq, Eq, Hash)]
pub struct Config {}

/// A recipe which can get read out of a TOML file.
#[derive(Debug)]
pub struct TomlRecipe {
    name: String,
    inputs: NameMap<Input>,
    outputs: NameMap<Output>,
    dependencies: NameMap<Dependency>,
    config: Config,
}

/// The lines that describe one loader recipe: its name, then its inputs,
/// outputs and dependencies, each under a heading, in order of name.
pub open spec fn spec_recipe_lines(
    name: Seq<char>,
    inputs: Seq<Seq<char>>,
    outputs: Seq<Seq<char>>,
    dependencies: Seq<Seq<char>>,
) -> Seq<Seq<char>> {
    seq![name + " ---------------"@, " INPUTS"@] + bullets(sort_seq(inputs)) + seq![
        Seq::<char>::empty(),
        " OUTPUTS"@,
    ] + bullets(sort_seq(outputs)) + seq![Seq::<char>::empty(), " DEPENDENCIES"@] + bullets(
        sort_seq(dependencies),
    )
}

/// Each name as a bullet line.
pub open spec fn bullets(names: Seq<Seq<char>>) -> Seq<Seq<char>> {
    names.map_values(|n: Seq<char>| " * "@ + n)
}

/// A line of its own.
fn line(text: &str) -> (r: String)
    ensures
        r@ == text@,
{
    String::from_str(text)
}

/// Bullet lines for `names`, in order.
fn bullet_lines(names: &Vec<String>, out: &mut Vec<String>)
    ensures
        string_views(final(out)@) == string_views(old(out)@) + bullets(string_views(names@)),
{
    let ghost start = string_views(out@);
    let n = names.len();
    for k in 0..n
        invariant
            n == names@.len(),
            string_views(out@) == start + bullets(string_views(names@)).take(k as int),
    {
        let mut l = String::from_str(" * ");
        l.append(names[k].as_str());
        let ghost before = string_views(out@);
        out.push(l);
        assert(string_views(out@) =~= before.push(" * "@ + names@[k as int]@));
        assert(string_views(out@) =~= start + bullets(string_views(names@)).take(k + 1));
    }
    assert(bullets(string_views(names@)).take(n as int) =~= bullets(string_views(names@)));
}

impl TomlRecipe {
    /// The recipe's name.
    pub closed spec fn spec_name(&self) -> Seq<char> {
        self.name@
    }

    /// The names of its inputs, outputs and dependencies.
    pub closed spec fn input_names(&self) -> Seq<Seq<char>> {
        self.inputs.keys()
    }

    pub closed spec fn output_names(&self) -> Seq<Seq<char>> {
        self.outputs.keys()
    }

    pub closed spec fn dependency_names(&self) -> Seq<Seq<char>> {
        self.dependencies.keys()
    }

    /// A recipe with no name and nothing in it.
    pub fn default() -> (r: TomlRecipe)
        ensures
            r.spec_name() == Seq::<char>::empty(),
            r.input_names() == Seq::<Seq<char>>::empty(),
            r.output_names() == Seq::<Seq<char>>::empty(),
            r.dependency_names() == Seq::<Seq<char>>::empty(),
    {
        TomlRecipe {
            name: String::new(),
            inputs: NameMap::new(),
            outputs: NameMap::new(),
            dependencies: NameMap::new(),
            config: Config {},
        }
    }

    /// A recipe with the given name and tables.
    pub fn from_parts(
        name: String,
        inputs: NameMap<Input>,
        outputs: NameMap<Output>,
        dependencies: NameMap<Dependency>,
        config: Config,
    ) -> (r: TomlRecipe)
        ensures
            r.spec_name() == name@,
            r.input_names() == inputs.keys(),
            r.output_names() == outputs.keys(),
            r.dependency_names() == dependencies.keys(),
    {
        TomlRecipe { name, inputs, outputs, dependencies, config }
    }

    /// The lines that describe this recipe.
    pub fn report_lines(&self) -> (r: Vec<String>)
        ensures
            string_views(r@) == spec_recipe_lines(
                self.spec_name(),
                self.input_names(),
                self.output_names(),
                self.dependency_names(),
            ),
    {
        let mut out: Vec<String> = Vec::new();
        let mut title = self.name.clone();
        title.append(" ---------------");
        out.push(title);
        out.push(line(" INPUTS"));
        let ghost s0 = string_views(out@);
        assert(s0 =~= seq![self.spec_name() + " ---------------"@, " INPUTS"@]);
        let names = self.inputs.sorted_keys();
        bullet_lines(&names, &mut out);
        let ghost s1 = string_views(out@);
        out.push(String::new());
        out.push(line(" OUTPUTS"));
        let ghost s2 = string_views(out@);
        assert(s2 =~= s1 + seq![Seq::<char>::empty(), " OUTPUTS"@]);
        let names = self.outputs.sorted_keys();
        bullet_lines(&names, &mut out);
        let ghost s3 = string_views(out@);
        out.push(String::new());
        out.push(line(" DEPENDENCIES"));
        let ghost s4 = string_views(out@);
        assert(s4 =~= s3 + seq![Seq::<char>::empty(), " DEPENDENCIES"@]);
        let names = self.dependencies.sorted_keys();
        bullet_lines(&names, &mut out);
        assert(string_views(out@) =~= spec_recipe_lines(
            self.spec_name(),
            self.input_names(),
            self.output_names(),
            self.dependency_names(),
        ));
        out
    }
}

/// All loader recipes read from a repository.
pub struct LoadedEnvironment {
    recipes: Vec<TomlRecipe>,
}

impl LoadedEnvironment {
    /// The recipes, in the order they were added.
    pub closed spec fn spec_recipes(&self) -> Seq<TomlRecipe> {
        self.recipes@
    }

    /// No recipes.
    pub fn default() -> (r: LoadedEnvironment)
        ensures
            r.spec_recipes() == Seq::<TomlRecipe>::empty(),
    {
        LoadedEnvironment { recipes: Vec::new() }
    }

    /// Adds a recipe after the others.
    pub fn add(&mut self, recipe: TomlRecipe)
        ensures
            final(self).spec_recipes() == old(self).spec_recipes().push(recipe),
    {
        self.recipes.push(recipe);
    }

    /// The lines that describe all recipes, in order, each recipe's lines
    /// followed by an empty line.
    pub fn report_lines(&self) -> (r: Vec<String>)
        ensures
            string_views(r@) == spec_environment_lines(self.spec_recipes()),
    {
        let mut out: Vec<String> = Vec::new();
        let n = self.recipes.len();
        for k in 0..n
            invariant
                n == self.spec_recipes().len(),
                string_views(out@) == spec_environment_lines(self.spec_recipes().take(k as int)),
        {
            let lines = self.recipes[k].report_lines();
            let ghost before = string_views(out@);
            let mut j: usize = 0;
            let m = lines.len();
            while j < m
                invariant
                    m == lines@.len(),
                    j <= m,
                    string_views(out@) == before + string_views(lines@).take(j as int),
                decreases m - j,
            {
                let ghost prev = out@;
                let copy = lines[j].clone();
                assert(copy@ == string_views(lines@)[j as int]);
                out.push(copy);
                assert(string_views(out@) =~= string_views(prev).push(copy@));
                assert(string_views(out@) =~= before + string_views(lines@).take(j + 1));
                j = j + 1;
            }
            out.push(String::new());
            proof {
                let t = self.spec_recipes().take(k + 1);
                assert(t.drop_last() =~= self.spec_recipes().take(k as int));
                assert(string_views(lines@).take(m as int) =~= string_views(lines@));
                assert(string_views(out@) =~= spec_environment_lines(t));
            }
        }
        assert(self.spec_recipes().take(n as int) =~= self.spec_recipes());
        out
    }
}

/// The lines that describe `recipes`, each recipe's lines followed by an
/// empty line.
pub open spec fn spec_environment_lines(recipes: Seq<TomlRecipe>) -> Seq<Seq<char>>
    decreases recipes.len(),
{
    if recipes.len() == 0 {
        Seq::empty()
    } else {
        let r = recipes.last();
        spec_environment_lines(recipes.drop_last()) + spec_recipe_lines(
            r.spec_name(),
            r.input_names(),
            r.output_names(),
            r.dependency_names(),
        ) + seq![Seq::<char>::empty()]
    }
}

} // verus!
