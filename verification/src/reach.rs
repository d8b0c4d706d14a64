//! The names a catalog of recipes can reach, and deciding before drawing a
//! build graph whether drawing it ends: the recipes must not nest in a
//! cycle, and every vitamin reached must produce exactly one output.
use vstd::prelude::*;
use vstd::string::*;
use crate::graph::{
    law_graph_depth_independent, spec_graph, spec_walk_from, walk_ends_well, graph_drawable,
    Catalog,
};
use crate::build_plan::{
    chapters_end_well_at, chapters_plannable, law_chapters_depth_independent, spec_all_chapters,
    spec_chapters, BuildPlan,
};
use crate::recipe::{Action, Recipe};
use crate::repo::Repo;
use crate::repos::{lemma_first_recipe_in, Repos};
use crate::recipe_id::spec_parse_recipe_id;
use crate::text::{contains_str, lemma_sort_seq, pushed, sort_seq, string_views};

verus! {

broadcast use {vstd::set::group_set_axioms, vstd::seq_lib::seq_to_set_is_finite};

/// Every name that one of `recipes` lists as an input.
pub open spec fn input_names_of(recipes: Seq<Recipe>) -> Set<Seq<char>>
    decreases recipes.len(),
{
    if recipes.len() == 0 {
        Set::empty()
    } else {
        input_names_of(recipes.drop_last()).union(recipes.last().inputs.keys().to_set())
    }
}

/// Every name that a recipe of one of `repos` lists as an input.
pub open spec fn input_names_of_repos(repos: Seq<Repo>) -> Set<Seq<char>>
    decreases repos.len(),
{
    if repos.len() == 0 {
        Set::empty()
    } else {
        input_names_of_repos(repos.drop_last()).union(
            input_names_of(repos.last().recipes().values()),
        )
    }
}

/// There are finitely many names among the inputs of `recipes`, and they
/// include every input of the `j`-th of them.
pub proof fn lemma_input_names_of(recipes: Seq<Recipe>, j: int)
    ensures
        input_names_of(recipes).finite(),
        0 <= j < recipes.len() ==> forall|n: Seq<char>|
            #[trigger] recipes[j].inputs.keys().contains(n) ==> input_names_of(recipes).contains(n),
    decreases recipes.len(),
{
    if recipes.len() > 0 {
        let init = recipes.drop_last();
        lemma_input_names_of(init, j);
        if 0 <= j < recipes.len() - 1 {
            assert(init[j] == recipes[j]);
        }
    }
}

/// There are finitely many names among the inputs of the recipes of
/// `repos`, and they include every input of the `q`-th recipe of the
/// `j`-th of them.
pub proof fn lemma_input_names_of_repos(repos: Seq<Repo>, j: int, q: int)
    ensures
        input_names_of_repos(repos).finite(),
        0 <= j < repos.len() && 0 <= q < repos[j].recipes().values().len() ==> forall|n: Seq<char>|
            #[trigger] repos[j].recipes().values()[q].inputs.keys().contains(n)
                ==> input_names_of_repos(repos).contains(n),
    decreases repos.len(),
{
    if repos.len() > 0 {
        let init = repos.drop_last();
        lemma_input_names_of_repos(init, j, q);
        lemma_input_names_of(repos.last().recipes().values(), q);
        if 0 <= j < repos.len() - 1 {
            assert(init[j] == repos[j]);
        }
    }
}

impl<'a> Catalog<'a> {
    /// Every name that a recipe of the catalog lists as an input.
    pub open spec fn input_names(self) -> Set<Seq<char>> {
        match self {
            Catalog::Repo(repo) => input_names_of(repo.recipes().values()),
            Catalog::Repos(repos) => input_names_of_repos(repos.repos().values()),
        }
    }

    /// There are finitely many input names, and a recipe that a lookup
    /// finds lists only input names of the catalog.
    pub proof fn lemma_input_names(self, name: Seq<char>)
        ensures
            self.input_names().finite(),
            self.spec_lookup(name) matches Ok(recipe) ==> forall|n: Seq<char>|
                #[trigger] recipe.inputs.keys().contains(n) ==> self.input_names().contains(n),
    {
        match self {
            Catalog::Repo(repo) => {
                let m = repo.recipes();
                m.lemma_lengths();
                lemma_input_names_of(m.values(), m.keys().index_of(name));
            },
            Catalog::Repos(repos) => {
                let rs = repos.repos();
                rs.lemma_lengths();
                lemma_input_names_of_repos(rs.values(), 0, 0);
                match spec_parse_recipe_id(name) {
                    Err(_) => {},
                    Ok((Some(repo_name), recipe_name)) => {
                        if let Some(repo) = rs.spec_get(repo_name) {
                            let j = rs.keys().index_of(repo_name);
                            repo.recipes().lemma_lengths();
                            let q = repo.recipes().keys().index_of(recipe_name);
                            lemma_input_names_of_repos(rs.values(), j, q);
                        }
                    },
                    Ok((None, _)) => {
                        lemma_first_recipe_in(rs.values(), name);
                        if let Some(recipe) = crate::repos::first_recipe_in(rs.values(), name) {
                            let j = choose|j: int|
                                0 <= j < rs.values().len() && #[trigger] rs.values()[j].recipes().spec_get(
                                    name,
                                ) == Some(recipe);
                            let m = rs.values()[j].recipes();
                            m.lemma_lengths();
                            lemma_input_names_of_repos(rs.values(), j, m.keys().index_of(name));
                        }
                    },
                }
            },
        }
    }
}

/// What a walk of the inputs of a recipe comes to, as far as ending goes.
enum Probe {
    /// With enough depth, every input is drawn.
    Complete,
    /// With enough depth, the walk stops at an error.
    Failed,
    /// The walk below the first recipe of the path never ends well.
    Stuck,
}

/// Whenever the walk below `a` (reached as `pa`) ends well, the walk below
/// `r` (reached as `pr`) ends well with no more depth.
pub open spec fn leads_to(cat: Catalog, pa: Seq<char>, a: Recipe, pr: Seq<char>, r: Recipe) -> bool {
    forall|f: nat| #[trigger]
        walk_ends_well(cat, pa, a, 0, f) ==> exists|g: nat|
            g <= f && #[trigger] walk_ends_well(cat, pr, r, 0, g)
}

/// A walk that, whenever it ends well, also ends well with strictly less
/// depth, never ends well.
proof fn lemma_no_descent(cat: Catalog, p: Seq<char>, a: Recipe, f: nat)
    requires
        forall|g: nat| #[trigger]
            walk_ends_well(cat, p, a, 0, g) ==> exists|h: nat|
                h < g && #[trigger] walk_ends_well(cat, p, a, 0, h),
    ensures
        !walk_ends_well(cat, p, a, 0, f),
    decreases f,
{
    if walk_ends_well(cat, p, a, 0, f) {
        let h = choose|h: nat| h < f && #[trigger] walk_ends_well(cat, p, a, 0, h);
        lemma_no_descent(cat, p, a, h);
    }
}

/// Two depths with which a walk ends well give the same walk.
pub proof fn lemma_well_ending_walks_agree(
    cat: Catalog,
    p: Seq<char>,
    r: Recipe,
    i: int,
    f: nat,
    g: nat,
)
    requires
        walk_ends_well(cat, p, r, i, f),
        walk_ends_well(cat, p, r, i, g),
    ensures
        spec_walk_from(cat, p, r, i, f) == spec_walk_from(cat, p, r, i, g),
{
    if f <= g {
        law_graph_depth_independent(cat, p, r, i, f, (g - f) as nat);
    } else {
        law_graph_depth_independent(cat, p, r, i, g, (f - g) as nat);
    }
}

/// Walks the inputs of `recipe` (the recipe for `parent`, the last of
/// `path`) as drawing the graph would, keeping the names of the assemblies
/// being expanded on `path`, to find out whether the walk below the first
/// of them ends well. An assembly reached again while it is being expanded
/// means the recipes nest in a cycle.
fn probe(
    cat: &Catalog,
    parent: &str,
    recipe: &Recipe,
    path: &Vec<String>,
    Ghost(recipes): Ghost<Seq<Recipe>>,
) -> (p: Probe)
    requires
        string_views(path@).len() == recipes.len(),
        recipes.len() >= 1,
        string_views(path@).last() == parent@,
        recipes.last() == *recipe,
        forall|j: int|
            0 <= j < recipes.len() ==> cat.spec_lookup(#[trigger] string_views(path@)[j])
                == Ok::<Recipe, crate::repos::LookupFailure>(recipes[j]),
        forall|j: int|
            0 <= j < recipes.len() ==> leads_to(
                *cat,
                string_views(path@)[j],
                #[trigger] recipes[j],
                parent@,
                *recipe,
            ),
    ensures
        p is Complete ==> exists|f: nat|
            (#[trigger] spec_walk_from(*cat, parent@, *recipe, 0, f)).1 is Complete,
        p is Failed ==> exists|f: nat|
            (#[trigger] spec_walk_from(*cat, parent@, *recipe, 0, f)).1 is Failed,
        p is Stuck ==> forall|f: nat|
            !#[trigger] walk_ends_well(*cat, string_views(path@)[0], recipes[0], 0, f),
    decreases cat.input_names().difference(string_views(path@).to_set()).len(),
{
    let ghost ps = string_views(path@);
    let ghost root_p = ps[0];
    let ghost root = recipes[0];
    proof {
        cat.lemma_input_names(parent@);
        assert(cat.spec_lookup(ps[ps.len() - 1]) == Ok::<Recipe, crate::repos::LookupFailure>(
            recipes[recipes.len() - 1],
        ));
    }
    let ghost mut f0: nat = 0;
    let n = recipe.inputs.len();
    let mut i: usize = 0;
    while i < n
        invariant
            n == recipe.inputs.keys().len(),
            n == recipe.inputs.values().len(),
            i <= n,
            ps == string_views(path@),
            ps.len() == recipes.len(),
            recipes.len() >= 1,
            root_p == ps[0],
            root == recipes[0],
            forall|j: int|
                0 <= j < recipes.len() ==> cat.spec_lookup(#[trigger] ps[j]) == Ok::<
                    Recipe,
                    crate::repos::LookupFailure,
                >(recipes[j]),
            forall|j: int|
                0 <= j < recipes.len() ==> leads_to(*cat, ps[j], #[trigger] recipes[j], parent@, *recipe),
            cat.input_names().finite(),
            forall|m: Seq<char>| #[trigger]
                recipe.inputs.keys().contains(m) ==> cat.input_names().contains(m),
            forall|f: nat| #[trigger]
                walk_ends_well(*cat, parent@, *recipe, 0, f) ==> spec_walk_from(
                    *cat,
                    parent@,
                    *recipe,
                    i as int,
                    f,
                ).1 == spec_walk_from(*cat, parent@, *recipe, 0, f).1,
            forall|f: nat|
                f >= f0 ==> (#[trigger] spec_walk_from(*cat, parent@, *recipe, 0, f)).1
                    == spec_walk_from(*cat, parent@, *recipe, i as int, f).1,
        decreases n - i,
    {
        let name = recipe.inputs.key_at(i);
        let found = match cat.lookup(name.as_str()) {
            Ok(found) => found,
            Err(_) => {
                proof {
                    assert(spec_walk_from(*cat, parent@, *recipe, i as int, f0).1 is Failed);
                    assert(spec_walk_from(*cat, parent@, *recipe, 0, f0).1 is Failed);
                }
                return Probe::Failed;
            },
        };
        if found.is_vitamin() {
            let capital = found.inputs.value_at(0);
            if !capital.quantity.is_dollars() {
                proof {
                    assert(spec_walk_from(*cat, parent@, *recipe, i as int, f0).1 is Failed);
                    assert(spec_walk_from(*cat, parent@, *recipe, 0, f0).1 is Failed);
                }
                return Probe::Failed;
            }
            let one_output = match &found.outputs {
                None => {
                    proof {
                        assert(spec_walk_from(*cat, parent@, *recipe, i as int, f0).1 is Failed);
                        assert(spec_walk_from(*cat, parent@, *recipe, 0, f0).1 is Failed);
                    }
                    return Probe::Failed;
                },
                Some(outputs) => outputs.len() == 1,
            };
            if !one_output {
                proof {
                    assert forall|f: nat| !#[trigger] walk_ends_well(*cat, root_p, root, 0, f) by {
                        if walk_ends_well(*cat, root_p, root, 0, f) {
                            assert(leads_to(*cat, ps[0], recipes[0], parent@, *recipe));
                            let g = choose|g: nat|
                                g <= f && #[trigger] walk_ends_well(*cat, parent@, *recipe, 0, g);
                            assert(spec_walk_from(*cat, parent@, *recipe, i as int, g).1 is VitaminOutputCount);
                        }
                    }
                }
                return Probe::Stuck;
            }
            proof {
                assert forall|f: nat|
                    spec_walk_from(*cat, parent@, *recipe, i as int, f).1 == #[trigger] spec_walk_from(
                        *cat,
                        parent@,
                        *recipe,
                        i + 1,
                        f,
                    ).1 by {}
            }
        } else {
            proof {
                assert forall|g: nat| #[trigger]
                    walk_ends_well(*cat, parent@, *recipe, 0, g) implies g > 0 && walk_ends_well(
                    *cat,
                    name@,
                    *found,
                    0,
                    (g - 1) as nat,
                ) by {
                    assert(spec_walk_from(*cat, parent@, *recipe, i as int, g).1 == spec_walk_from(
                        *cat,
                        parent@,
                        *recipe,
                        0,
                        g,
                    ).1);
                }
            }
            if contains_str(path, name.as_str()) {
                proof {
                    let j = choose|j: int| 0 <= j < ps.len() && ps[j] == name@;
                    assert(cat.spec_lookup(ps[j]) == Ok::<Recipe, crate::repos::LookupFailure>(
                        recipes[j],
                    ));
                    assert(leads_to(*cat, ps[j], recipes[j], parent@, *recipe));
                    assert forall|f: nat| #[trigger]
                        walk_ends_well(*cat, name@, *found, 0, f) implies exists|h: nat|
                        h < f && #[trigger] walk_ends_well(*cat, name@, *found, 0, h) by {
                        let g = choose|g: nat|
                            g <= f && #[trigger] walk_ends_well(*cat, parent@, *recipe, 0, g);
                        assert(walk_ends_well(*cat, name@, *found, 0, (g - 1) as nat));
                    }
                    assert forall|f: nat| !#[trigger] walk_ends_well(*cat, root_p, root, 0, f) by {
                        if walk_ends_well(*cat, root_p, root, 0, f) {
                            assert(leads_to(*cat, ps[0], recipes[0], parent@, *recipe));
                            let g = choose|g: nat|
                                g <= f && #[trigger] walk_ends_well(*cat, parent@, *recipe, 0, g);
                            lemma_no_descent(*cat, name@, *found, (g - 1) as nat);
                        }
                    }
                }
                return Probe::Stuck;
            }
            let child = pushed(path, name.as_str());
            let ghost cs = string_views(child@);
            let ghost child_recipes = recipes.push(*found);
            proof {
                let u = cat.input_names();
                assert(recipe.inputs.keys()[i as int] == name@);
                assert(recipe.inputs.keys().contains(name@));
                ps.lemma_push_to_set_commute(name@);
                assert(cs == ps.push(name@));
                assert(u.difference(cs.to_set()) =~= u.difference(ps.to_set()).remove(name@));
                assert forall|j: int| 0 <= j < child_recipes.len() implies cat.spec_lookup(
                    #[trigger] cs[j],
                ) == Ok::<Recipe, crate::repos::LookupFailure>(child_recipes[j]) by {
                    if j < recipes.len() {
                        assert(cs[j] == ps[j]);
                    }
                }
                assert forall|j: int| 0 <= j < child_recipes.len() implies leads_to(
                    *cat,
                    cs[j],
                    #[trigger] child_recipes[j],
                    name@,
                    *found,
                ) by {
                    if j < recipes.len() {
                        assert(cs[j] == ps[j]);
                        assert(leads_to(*cat, ps[j], recipes[j], parent@, *recipe));
                        assert forall|f: nat| #[trigger]
                            walk_ends_well(*cat, ps[j], recipes[j], 0, f) implies exists|g: nat|
                            g <= f && #[trigger] walk_ends_well(*cat, name@, *found, 0, g) by {
                            let g = choose|g: nat|
                                g <= f && #[trigger] walk_ends_well(*cat, parent@, *recipe, 0, g);
                            assert(walk_ends_well(*cat, name@, *found, 0, (g - 1) as nat));
                        }
                    } else {
                        assert forall|f: nat| #[trigger]
                            walk_ends_well(*cat, name@, *found, 0, f) implies exists|g: nat|
                            g <= f && #[trigger] walk_ends_well(*cat, name@, *found, 0, g) by {
                            assert(walk_ends_well(*cat, name@, *found, 0, f));
                        }
                    }
                }
            }
            match probe(cat, name.as_str(), found, &child, Ghost(child_recipes)) {
                Probe::Stuck => {
                    assert(cs[0] == ps[0]);
                    return Probe::Stuck;
                },
                Probe::Failed => {
                    proof {
                        let f1 = choose|f: nat|
                            (#[trigger] spec_walk_from(*cat, name@, *found, 0, f)).1 is Failed;
                        let f: nat = if f0 > f1 + 1 {
                            f0
                        } else {
                            f1 + 1
                        };
                        law_graph_depth_independent(*cat, name@, *found, 0, f1, (f - 1 - f1) as nat);
                        assert(spec_walk_from(*cat, parent@, *recipe, i as int, f).1 is Failed);
                        assert(spec_walk_from(*cat, parent@, *recipe, 0, f).1 is Failed);
                    }
                    return Probe::Failed;
                },
                Probe::Complete => {
                    proof {
                        let f1 = choose|f: nat|
                            (#[trigger] spec_walk_from(*cat, name@, *found, 0, f)).1 is Complete;
                        let next: nat = if f0 > f1 + 1 {
                            f0
                        } else {
                            f1 + 1
                        };
                        assert forall|f: nat| f >= next implies (#[trigger] spec_walk_from(
                            *cat,
                            parent@,
                            *recipe,
                            0,
                            f,
                        )).1 == spec_walk_from(*cat, parent@, *recipe, i + 1, f).1 by {
                            law_graph_depth_independent(
                                *cat,
                                name@,
                                *found,
                                0,
                                f1,
                                (f - 1 - f1) as nat,
                            );
                            assert(spec_walk_from(*cat, parent@, *recipe, 0, f).1 == spec_walk_from(
                                *cat,
                                parent@,
                                *recipe,
                                i as int,
                                f,
                            ).1);
                        }
                        assert forall|f: nat| #[trigger]
                            walk_ends_well(*cat, parent@, *recipe, 0, f) implies spec_walk_from(
                            *cat,
                            parent@,
                            *recipe,
                            i + 1,
                            f,
                        ).1 == spec_walk_from(*cat, parent@, *recipe, 0, f).1 by {
                            assert(spec_walk_from(*cat, parent@, *recipe, i as int, f).1 == spec_walk_from(
                                *cat,
                                parent@,
                                *recipe,
                                0,
                                f,
                            ).1);
                            lemma_well_ending_walks_agree(*cat, name@, *found, 0, f1, (f - 1) as nat);
                        }
                        f0 = next;
                    }
                },
            }
        }
        i = i + 1;
    }
    proof {
        assert(spec_walk_from(*cat, parent@, *recipe, n as int, f0).1 is Complete);
        assert(spec_walk_from(*cat, parent@, *recipe, 0, f0).1 is Complete);
    }
    Probe::Complete
}

/// Whether the build graph below `recipe`, the recipe that `target` looks
/// up, can be drawn.
fn drawable(cat: &Catalog, target: &str, recipe: &Recipe) -> (r: bool)
    requires
        cat.spec_lookup(target@) == Ok::<Recipe, crate::repos::LookupFailure>(*recipe),
    ensures
        r == graph_drawable(*cat, target@, *recipe),
{
    let mut path: Vec<String> = Vec::new();
    path.push(String::from_str(target));
    let ghost ps = string_views(path@);
    let ghost recipes = seq![*recipe];
    proof {
        assert(ps =~= seq![target@]);
        assert forall|f: nat| #[trigger]
            walk_ends_well(*cat, target@, *recipe, 0, f) implies exists|g: nat|
            g <= f && #[trigger] walk_ends_well(*cat, target@, *recipe, 0, g) by {
            assert(walk_ends_well(*cat, target@, *recipe, 0, f));
        }
        assert(leads_to(*cat, ps[0], recipes[0], target@, *recipe));
    }
    match probe(cat, target, recipe, &path, Ghost(recipes)) {
        Probe::Stuck => false,
        Probe::Complete => {
            proof {
                let f = choose|f: nat|
                    (#[trigger] spec_walk_from(*cat, target@, *recipe, 0, f)).1 is Complete;
                assert(walk_ends_well(*cat, target@, *recipe, 0, f));
            }
            true
        },
        Probe::Failed => {
            proof {
                let f = choose|f: nat|
                    (#[trigger] spec_walk_from(*cat, target@, *recipe, 0, f)).1 is Failed;
                assert(walk_ends_well(*cat, target@, *recipe, 0, f));
            }
            true
        },
    }
}

impl Repos {
    /// Whether the build graph of `target` can be drawn with
    /// `compile_graph`: the recipes below it do not nest in a cycle, and
    /// every vitamin reached produces exactly one output. A target that
    /// cannot be looked up can be asked for: `compile_graph` reports it.
    pub fn graph_is_drawable(&self, target: &str) -> (r: bool)
        ensures
            r == (self.spec_get_recipe(target@) matches Ok(recipe) ==> graph_drawable(
                Catalog::Repos(self),
                target@,
                recipe,
            )),
    {
        let cat = Catalog::Repos(self);
        match self.get_recipe(target) {
            Err(_) => true,
            Ok(recipe) => drawable(&cat, target, recipe),
        }
    }
}

impl Repo {
    /// Whether the build graph of `target` can be drawn with
    /// `compile_graph`: the recipes below it do not nest in a cycle, and
    /// every vitamin reached produces exactly one output. A target the
    /// repository does not hold can be asked for: `compile_graph` reports
    /// it.
    pub fn graph_is_drawable(&self, target: &str) -> (r: bool)
        ensures
            r == (self.recipes().spec_get(target@) matches Some(recipe) ==> graph_drawable(
                Catalog::Repo(self),
                target@,
                recipe,
            )),
    {
        let cat = Catalog::Repo(self);
        match self.get_recipe(target) {
            None => true,
            Some(recipe) => drawable(&cat, target, recipe),
        }
    }
}

/// Whenever the chapters for `a` end well, the chapters for `b` end well
/// with no more depth.
pub open spec fn chapters_lead_to(repos: Repos, a: Seq<Seq<char>>, b: Seq<Seq<char>>) -> bool {
    forall|f: nat| #[trigger]
        chapters_end_well_at(repos, a, f) ==> exists|g: nat|
            g <= f && #[trigger] chapters_end_well_at(repos, b, g)
}

/// Chapters that, whenever they end well, also end well with strictly less
/// depth, never end well.
proof fn lemma_no_chapter_descent(repos: Repos, a: Seq<Seq<char>>, f: nat)
    requires
        forall|g: nat| #[trigger]
            chapters_end_well_at(repos, a, g) ==> exists|h: nat|
                h < g && #[trigger] chapters_end_well_at(repos, a, h),
    ensures
        !chapters_end_well_at(repos, a, f),
    decreases f,
{
    if chapters_end_well_at(repos, a, f) {
        let h = choose|h: nat| h < f && #[trigger] chapters_end_well_at(repos, a, h);
        lemma_no_chapter_descent(repos, a, h);
    }
}

/// Two depths with which the chapters end well give the same chapters.
pub proof fn lemma_well_ending_chapters_agree(repos: Repos, names: Seq<Seq<char>>, f: nat, g: nat)
    requires
        chapters_end_well_at(repos, names, f),
        chapters_end_well_at(repos, names, g),
    ensures
        spec_chapters(repos, names, f) == spec_chapters(repos, names, g),
{
    if f <= g {
        law_chapters_depth_independent(repos, names, f, (g - f) as nat);
    } else {
        law_chapters_depth_independent(repos, names, g, (f - g) as nat);
    }
}

/// The names the chapter walk goes through below the assembly `name`: its
/// inputs, sorted.
pub open spec fn sorted_inputs(repos: Repos, name: Seq<char>) -> Seq<Seq<char>> {
    sort_seq(repos.spec_get_recipe(name)->Ok_0.inputs.keys())
}

/// Walks `names` as planning the chapters would, keeping the assemblies
/// being expanded on `path` (`lists` holds the names walked at each level,
/// the first being where the walk began), to find out whether the walk
/// from the first level ends well. An assembly reached again while it is
/// being expanded means the recipes nest in a cycle.
fn probe_chapters(
    repos: &Repos,
    names: &Vec<String>,
    path: &Vec<String>,
    Ghost(lists): Ghost<Seq<Seq<Seq<char>>>>,
) -> (p: Probe)
    requires
        lists.len() == string_views(path@).len() + 1,
        lists.last() == string_views(names@),
        forall|j: int|
            0 <= j < string_views(path@).len() ==> repos.spec_get_recipe(
                #[trigger] string_views(path@)[j],
            ) is Ok && lists[j + 1] == sorted_inputs(*repos, string_views(path@)[j]),
        forall|j: int|
            0 <= j < lists.len() ==> chapters_lead_to(
                *repos,
                #[trigger] lists[j],
                string_views(names@),
            ),
        forall|m: Seq<char>| #[trigger]
            string_views(names@).contains(m) ==> Catalog::Repos(repos).input_names().union(
                lists[0].to_set(),
            ).contains(m),
    ensures
        p is Complete ==> exists|f: nat|
            (#[trigger] spec_chapters(*repos, string_views(names@), f)).1 is Complete,
        p is Failed ==> exists|f: nat|
            (#[trigger] spec_chapters(*repos, string_views(names@), f)).1 is Failed,
        p is Stuck ==> forall|f: nat| !#[trigger] chapters_end_well_at(*repos, lists[0], f),
    decreases Catalog::Repos(repos).input_names().union(lists[0].to_set()).difference(
        string_views(path@).to_set(),
    ).len(),
{
    let ghost ns = string_views(names@);
    let ghost ps = string_views(path@);
    let ghost top = lists[0];
    let ghost u = Catalog::Repos(repos).input_names().union(top.to_set());
    proof {
        Catalog::Repos(repos).lemma_input_names(Seq::empty());
        assert(ns.skip(0) =~= ns);
    }
    let ghost mut f0: nat = 0;
    let n = names.len();
    let mut k: usize = 0;
    while k < n
        invariant
            n == names@.len(),
            k <= n,
            ns == string_views(names@),
            ps == string_views(path@),
            lists.len() == ps.len() + 1,
            lists.last() == ns,
            top == lists[0],
            u == Catalog::Repos(repos).input_names().union(top.to_set()),
            u.finite(),
            forall|j: int|
                0 <= j < ps.len() ==> repos.spec_get_recipe(#[trigger] ps[j]) is Ok && lists[j + 1]
                    == sorted_inputs(*repos, ps[j]),
            forall|j: int| 0 <= j < lists.len() ==> chapters_lead_to(*repos, #[trigger] lists[j], ns),
            forall|m: Seq<char>| #[trigger] ns.contains(m) ==> u.contains(m),
            forall|f: nat| #[trigger]
                chapters_end_well_at(*repos, ns, f) ==> spec_chapters(
                    *repos,
                    ns.skip(k as int),
                    f,
                ).1 == spec_chapters(*repos, ns, f).1,
            forall|f: nat|
                f >= f0 ==> (#[trigger] spec_chapters(*repos, ns, f)).1 == spec_chapters(
                    *repos,
                    ns.skip(k as int),
                    f,
                ).1,
        decreases n - k,
    {
        let ghost here = ns.skip(k as int);
        proof {
            assert(here[0] == ns[k as int]);
            assert(here.drop_first() =~= ns.skip(k + 1));
        }
        let name = &names[k];
        assert(name@ == ns[k as int]);
        let recipe = match repos.get_recipe(name.as_str()) {
            Ok(recipe) => recipe,
            Err(_) => {
                proof {
                    assert(spec_chapters(*repos, here, f0).1 is Failed);
                    assert(spec_chapters(*repos, ns, f0).1 is Failed);
                }
                return Probe::Failed;
            },
        };
        if recipe.is_vitamin() || recipe.is_print() {
            proof {
                assert forall|f: nat|
                    spec_chapters(*repos, here, f).1 == #[trigger] spec_chapters(
                        *repos,
                        ns.skip(k + 1),
                        f,
                    ).1 by {}
            }
        } else {
            let inputs = recipe.inputs.sorted_keys();
            let ghost c = string_views(inputs@);
            proof {
                assert(c == sorted_inputs(*repos, name@));
                assert forall|g: nat| #[trigger]
                    chapters_end_well_at(*repos, ns, g) implies g > 0 && chapters_end_well_at(
                    *repos,
                    c,
                    (g - 1) as nat,
                ) by {
                    assert(spec_chapters(*repos, here, g).1 == spec_chapters(*repos, ns, g).1);
                }
            }
            if contains_str(path, name.as_str()) {
                proof {
                    let j = choose|j: int| 0 <= j < ps.len() && ps[j] == name@;
                    assert(repos.spec_get_recipe(ps[j]) is Ok);
                    assert(lists[j + 1] == c);
                    assert(chapters_lead_to(*repos, lists[j + 1], ns));
                    assert forall|f: nat| #[trigger]
                        chapters_end_well_at(*repos, c, f) implies exists|h: nat|
                        h < f && #[trigger] chapters_end_well_at(*repos, c, h) by {
                        let g = choose|g: nat|
                            g <= f && #[trigger] chapters_end_well_at(*repos, ns, g);
                        assert(chapters_end_well_at(*repos, c, (g - 1) as nat));
                    }
                    assert forall|f: nat| !#[trigger] chapters_end_well_at(*repos, top, f) by {
                        if chapters_end_well_at(*repos, top, f) {
                            assert(chapters_lead_to(*repos, lists[0], ns));
                            let g = choose|g: nat|
                                g <= f && #[trigger] chapters_end_well_at(*repos, ns, g);
                            lemma_no_chapter_descent(*repos, c, (g - 1) as nat);
                        }
                    }
                }
                return Probe::Stuck;
            }
            let child = pushed(path, name.as_str());
            let ghost cs = string_views(child@);
            let ghost child_lists = lists.push(c);
            proof {
                ps.lemma_push_to_set_commute(name@);
                assert(cs == ps.push(name@));
                assert(ns.contains(ns[k as int]));
                assert(u.contains(name@));
                assert(u.difference(cs.to_set()) =~= u.difference(ps.to_set()).remove(name@));
                assert(child_lists[0] == top);
                assert forall|j: int| 0 <= j < cs.len() implies repos.spec_get_recipe(
                    #[trigger] cs[j],
                ) is Ok && child_lists[j + 1] == sorted_inputs(*repos, cs[j]) by {
                    if j < ps.len() {
                        assert(cs[j] == ps[j]);
                    }
                }
                assert forall|j: int| 0 <= j < child_lists.len() implies chapters_lead_to(
                    *repos,
                    #[trigger] child_lists[j],
                    c,
                ) by {
                    if j < lists.len() {
                        assert(chapters_lead_to(*repos, lists[j], ns));
                        assert forall|f: nat| #[trigger]
                            chapters_end_well_at(*repos, lists[j], f) implies exists|g: nat|
                            g <= f && #[trigger] chapters_end_well_at(*repos, c, g) by {
                            let g = choose|g: nat|
                                g <= f && #[trigger] chapters_end_well_at(*repos, ns, g);
                            assert(chapters_end_well_at(*repos, c, (g - 1) as nat));
                        }
                    } else {
                        assert forall|f: nat| #[trigger]
                            chapters_end_well_at(*repos, c, f) implies exists|g: nat|
                            g <= f && #[trigger] chapters_end_well_at(*repos, c, g) by {
                            assert(chapters_end_well_at(*repos, c, f));
                        }
                    }
                }
                Catalog::Repos(repos).lemma_input_names(name@);
                lemma_sort_seq(recipe.inputs.keys());
                assert forall|m: Seq<char>| #[trigger] c.contains(m) implies Catalog::Repos(
                    repos,
                ).input_names().union(child_lists[0].to_set()).contains(m) by {
                    assert(recipe.inputs.keys().contains(m));
                }
            }
            match probe_chapters(repos, &inputs, &child, Ghost(child_lists)) {
                Probe::Stuck => {
                    return Probe::Stuck;
                },
                Probe::Failed => {
                    proof {
                        let f1 = choose|f: nat| (#[trigger] spec_chapters(*repos, c, f)).1 is Failed;
                        let f: nat = if f0 > f1 + 1 {
                            f0
                        } else {
                            f1 + 1
                        };
                        law_chapters_depth_independent(*repos, c, f1, (f - 1 - f1) as nat);
                        assert(spec_chapters(*repos, here, f).1 is Failed);
                        assert(spec_chapters(*repos, ns, f).1 is Failed);
                    }
                    return Probe::Failed;
                },
                Probe::Complete => {
                    let ghost f1 = choose|f: nat|
                        (#[trigger] spec_chapters(*repos, c, f)).1 is Complete;
                    let is_process = match &recipe.action {
                        Action::process(_) => true,
                        _ => false,
                    };
                    if !is_process {
                        proof {
                            assert forall|f: nat| !#[trigger] chapters_end_well_at(*repos, top, f) by {
                                if chapters_end_well_at(*repos, top, f) {
                                    assert(chapters_lead_to(*repos, lists[0], ns));
                                    let g = choose|g: nat|
                                        g <= f && #[trigger] chapters_end_well_at(*repos, ns, g);
                                    assert(spec_chapters(*repos, here, g).1 == spec_chapters(
                                        *repos,
                                        ns,
                                        g,
                                    ).1);
                                    lemma_well_ending_chapters_agree(*repos, c, f1, (g - 1) as nat);
                                }
                            }
                        }
                        return Probe::Stuck;
                    }
                    proof {
                        let next: nat = if f0 > f1 + 1 {
                            f0
                        } else {
                            f1 + 1
                        };
                        assert forall|f: nat| f >= next implies (#[trigger] spec_chapters(
                            *repos,
                            ns,
                            f,
                        )).1 == spec_chapters(*repos, ns.skip(k + 1), f).1 by {
                            law_chapters_depth_independent(*repos, c, f1, (f - 1 - f1) as nat);
                            assert(spec_chapters(*repos, ns, f).1 == spec_chapters(*repos, here, f).1);
                        }
                        assert forall|f: nat| #[trigger]
                            chapters_end_well_at(*repos, ns, f) implies spec_chapters(
                            *repos,
                            ns.skip(k + 1),
                            f,
                        ).1 == spec_chapters(*repos, ns, f).1 by {
                            assert(spec_chapters(*repos, here, f).1 == spec_chapters(*repos, ns, f).1);
                            lemma_well_ending_chapters_agree(*repos, c, f1, (f - 1) as nat);
                        }
                        f0 = next;
                    }
                },
            }
        }
        k = k + 1;
    }
    proof {
        assert(ns.skip(n as int) =~= Seq::<Seq<char>>::empty());
        assert(spec_chapters(*repos, ns.skip(n as int), f0).1 is Complete);
        assert(spec_chapters(*repos, ns, f0).1 is Complete);
    }
    Probe::Complete
}

impl<'a> BuildPlan<'a> {
    /// Whether the chapters of the book can be planned with `chapters`:
    /// the recipes below the thing this plan builds do not nest in a cycle,
    /// and every assembly reached is made by a process.
    pub fn chapters_are_plannable(&self) -> (r: bool)
        ensures
            r == chapters_plannable(*self.repos, seq![self.name@]),
    {
        let ghost top = seq![self.name@];
        let mut names: Vec<String> = Vec::new();
        names.push(String::from_str(self.name));
        let path: Vec<String> = Vec::new();
        let ghost lists = seq![top];
        proof {
            assert(string_views(names@) =~= top);
            assert(string_views(path@) =~= Seq::<Seq<char>>::empty());
            assert forall|f: nat| #[trigger]
                chapters_end_well_at(*self.repos, top, f) implies exists|g: nat|
                g <= f && #[trigger] chapters_end_well_at(*self.repos, top, g) by {
                assert(chapters_end_well_at(*self.repos, top, f));
            }
            assert(chapters_lead_to(*self.repos, lists[0], top));
            assert forall|m: Seq<char>| #[trigger] top.contains(m) implies Catalog::Repos(
                self.repos,
            ).input_names().union(lists[0].to_set()).contains(m) by {}
        }
        match probe_chapters(self.repos, &names, &path, Ghost(lists)) {
            Probe::Stuck => false,
            Probe::Complete => {
                proof {
                    let f = choose|f: nat| (#[trigger] spec_chapters(*self.repos, top, f)).1 is Complete;
                    assert(chapters_end_well_at(*self.repos, top, f));
                }
                true
            },
            Probe::Failed => {
                proof {
                    let f = choose|f: nat| (#[trigger] spec_chapters(*self.repos, top, f)).1 is Failed;
                    assert(chapters_end_well_at(*self.repos, top, f));
                }
                true
            },
        }
    }
}

/// A build graph that the walk with some depth draws to a good end can be
/// drawn, is that walk, and ends with every input drawn or with an error.
pub proof fn law_graph_is_any_well_ending_walk(
    cat: Catalog,
    parent: Seq<char>,
    recipe: Recipe,
    f: nat,
)
    requires
        walk_ends_well(cat, parent, recipe, 0, f),
    ensures
        graph_drawable(cat, parent, recipe),
        spec_graph(cat, parent, recipe) == spec_walk_from(cat, parent, recipe, 0, f),
        spec_graph(cat, parent, recipe).1 is Complete || spec_graph(cat, parent, recipe).1 is Failed,
{
    let g = choose|g: nat| walk_ends_well(cat, parent, recipe, 0, g);
    lemma_well_ending_walks_agree(cat, parent, recipe, 0, f, g);
}

/// Chapters that the walk with some depth plans to a good end can be
/// planned, are that walk, and end with every chapter planned or with an
/// error.
pub proof fn law_chapters_are_any_well_ending_walk(repos: Repos, names: Seq<Seq<char>>, f: nat)
    requires
        chapters_end_well_at(repos, names, f),
    ensures
        chapters_plannable(repos, names),
        spec_all_chapters(repos, names) == spec_chapters(repos, names, f),
        spec_all_chapters(repos, names).1 is Complete || spec_all_chapters(repos, names).1 is Failed,
{
    let g = choose|g: nat| chapters_end_well_at(repos, names, g);
    lemma_well_ending_chapters_agree(repos, names, f, g);
}

} // verus!
