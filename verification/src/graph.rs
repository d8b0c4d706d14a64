//! The build graph of a recipe: for every input, transitively, an edge from
//! the thing being made to the input, with what it takes to get the input.
//! It is drawn as a PlantUML object diagram.
use vstd::prelude::*;
use vstd::string::*;
use crate::quantity::{Quantity, Unit};
use crate::recipe::{Action, PrintedPart, Recipe};
use crate::repo::Repo;
use crate::repos::{LookupFailure, RecipeCompileError, RecipeLookupError, Repos};

verus! {

/// Where the names of a build graph are looked up.
pub enum Catalog<'a> {
    /// One repository, by plain recipe name.
    Repo(&'a Repo),
    /// All repositories, by `[repo:]recipe` name.
    Repos(&'a Repos),
}

impl<'a> Catalog<'a> {
    /// What looking up `name` gives.
    pub open spec fn spec_lookup(self, name: Seq<char>) -> Result<Recipe, LookupFailure> {
        match self {
            Catalog::Repo(repo) => match repo.recipes().spec_get(name) {
                Some(recipe) => Ok(recipe),
                None => Err(LookupFailure::RecipeNotFound(name)),
            },
            Catalog::Repos(repos) => repos.spec_get_recipe(name),
        }
    }

    /// Looks up `name`.
    pub fn lookup(&self, name: &str) -> (r: Result<&'a Recipe, RecipeLookupError>)
        ensures
            match r {
                Ok(recipe) => self.spec_lookup(name@) == Ok::<Recipe, LookupFailure>(*recipe),
                Err(e) => self.spec_lookup(name@) == Err::<Recipe, LookupFailure>(e@),
            },
    {
        match self {
            Catalog::Repo(repo) => match repo.get_recipe(name) {
                Some(recipe) => Ok(recipe),
                None => Err(RecipeLookupError::RecipeNotFound(String::from_str(name))),
            },
            Catalog::Repos(repos) => repos.get_recipe(name),
        }
    }
}

/// How an input is boxed in the diagram.
#[derive(Debug)]
pub enum GraphObject {
    /// An assembled or printed thing, drawn once under its own name.
    Named(String),
    /// A vitamin: every use gets a box of its own, labelled with the name
    /// and identified by a fresh id.
    Leaf { label: String, id: String },
}

/// What is done to get an input.
#[derive(Debug)]
pub enum ActionLabel {
    /// It is assembled by this process.
    Process(String),
    /// It is printed.
    Print(PrintedPart),
    /// It is bought.
    Buy,
}

/// What the cost of a vitamin input is computed from: the unit cost is the
/// capital's amount divided by the output's amount, and the input costs
/// `needed`'s amount times that.
#[derive(Clone, Copy, Debug)]
pub struct CostTerms {
    pub capital: Quantity,
    pub output: Quantity,
    pub needed: Quantity,
}

/// One input in the build graph.
#[derive(Debug)]
pub struct GraphEdge {
    /// What the input goes into.
    pub parent: String,
    pub object: GraphObject,
    pub action: ActionLabel,
    /// For a vitamin, what its cost is computed from.
    pub cost: Option<CostTerms>,
    /// The quantity needed, unless it is exactly one with no unit.
    pub quantity: Option<Quantity>,
}

/// How a build graph ends.
#[derive(Debug)]
pub enum WalkEnd {
    /// Every input was drawn.
    Complete,
    /// An input could not be drawn.
    Failed(RecipeCompileError),
}

/// A box of the diagram, without the ids of vitamin boxes.
pub enum ObjectView {
    Named(Seq<char>),
    Leaf(Seq<char>),
}

/// What is done to get an input.
pub enum ActionView {
    Process(Seq<char>),
    Print(Seq<char>, Seq<char>),
    Buy,
}

/// One input in the build graph, without the ids of vitamin boxes.
pub struct EdgeView {
    pub parent: Seq<char>,
    pub object: ObjectView,
    pub action: ActionView,
    pub cost: Option<CostTerms>,
    pub quantity: Option<Quantity>,
}

/// Why a build graph could not be drawn.
pub enum CompileFailure {
    Lookup(LookupFailure),
    Io,
    VitaminLacksCapital(Seq<char>),
    VitaminCapitalHasWrongUnit(Seq<char>),
    InputProducesNoOutput(Seq<char>),
}

/// How a walk of the build graph ends.
pub enum EndView {
    Complete,
    Failed(CompileFailure),
    /// A vitamin of this name does not produce exactly one output: drawing
    /// the graph panics there.
    VitaminOutputCount(Seq<char>),
    /// The walk was given too little depth to finish.
    DepthExhausted,
}

impl View for RecipeCompileError {
    type V = CompileFailure;

    open spec fn view(&self) -> CompileFailure {
        match self {
            RecipeCompileError::RecipeLookupError(e) => CompileFailure::Lookup(e@),
            RecipeCompileError::StdIoError(_) => CompileFailure::Io,
            RecipeCompileError::VitaminLacksCapital(s) => CompileFailure::VitaminLacksCapital(s@),
            RecipeCompileError::VitaminCapitalHasWrongUnit(s) => {
                CompileFailure::VitaminCapitalHasWrongUnit(s@)
            },
            RecipeCompileError::InputProducesNoOutput(s) => CompileFailure::InputProducesNoOutput(
                s@,
            ),
        }
    }
}

impl View for WalkEnd {
    type V = EndView;

    open spec fn view(&self) -> EndView {
        match self {
            WalkEnd::Complete => EndView::Complete,
            WalkEnd::Failed(e) => EndView::Failed(e@),
        }
    }
}

impl View for GraphEdge {
    type V = EdgeView;

    open spec fn view(&self) -> EdgeView {
        EdgeView {
            parent: self.parent@,
            object: match self.object {
                GraphObject::Named(name) => ObjectView::Named(name@),
                GraphObject::Leaf { label, id } => ObjectView::Leaf(label@),
            },
            action: match self.action {
                ActionLabel::Process(p) => ActionView::Process(p@),
                ActionLabel::Print(part) => ActionView::Print(part.model@, part.profile@),
                ActionLabel::Buy => ActionView::Buy,
            },
            cost: self.cost,
            quantity: self.quantity,
        }
    }
}

/// The views of a sequence of edges.
pub open spec fn edges_view(edges: Seq<GraphEdge>) -> Seq<EdgeView> {
    edges.map_values(|e: GraphEdge| e@)
}

/// A lower-case hexadecimal digit.
pub open spec fn is_hex_digit(c: char) -> bool {
    seq!['0', '1', '2', '3', '4', '5', '6', '7', '8', '9', 'a', 'b', 'c', 'd', 'e', 'f'].contains(c)
}

/// The simple (hyphenless) text of a random (version 4) UUID: 32 lower-case
/// hex digits, of which the 13th is `4` and the 17th one of `8 9 a b`.
pub open spec fn is_simple_uuid_v4(s: Seq<char>) -> bool {
    &&& s.len() == 32
    &&& forall|i: int| 0 <= i < 32 ==> is_hex_digit(#[trigger] s[i])
    &&& s[12] == '4'
    &&& seq!['8', '9', 'a', 'b'].contains(s[16])
}

/// A vitamin box has a well-formed id.
pub open spec fn edge_id_ok(edge: GraphEdge) -> bool {
    match edge.object {
        GraphObject::Leaf { id, .. } => is_simple_uuid_v4(id@),
        GraphObject::Named(_) => true,
    }
}

/// Every vitamin box has a well-formed id.
pub open spec fn leaf_ids_ok(edges: Seq<GraphEdge>) -> bool {
    forall|i: int| 0 <= i < edges.len() ==> edge_id_ok(#[trigger] edges[i])
}

/// A fresh id for a vitamin box.
///
/// Calls `uuid::Uuid::new_v4` and formats it with `simple()`. The uuid
/// crate sets the version digit to 4 and the variant bits to `10`, and
/// formats the 16 bytes as 32 lower-case hex digits. The other digits come
/// from the operating system's random source: nothing more is known of them.
#[verifier::external_body]
fn fresh_object_id() -> (id: String)
    ensures
        is_simple_uuid_v4(id@),
{
    uuid::Uuid::new_v4().simple().to_string()
}

/// What is done to get a thing made by `action`.
pub open spec fn spec_action_view(action: Action) -> ActionView {
    match action {
        Action::process(p) => ActionView::Process(p@),
        Action::print(part) => ActionView::Print(part.model@, part.profile@),
        Action::purchase(_) => ActionView::Buy,
    }
}

/// The label an edge carries: none for exactly one with no unit.
pub open spec fn spec_quantity_label(q: Quantity) -> Option<Quantity> {
    if q.spec_is_plain_one() {
        None
    } else {
        Some(q)
    }
}

/// The build graph below `recipe` (the recipe for `parent`) from its input
/// `i` on, with at most `fuel` further levels of assemblies expanded: the
/// edges, and how it ends.
///
/// For each input in order: its recipe is looked up; for a vitamin, its
/// capital must be in US dollars and it must list outputs, exactly one of
/// them; then the input's edge follows, and for an assembly, its own
/// build graph, before the next input.
pub open spec fn spec_walk_from(
    cat: Catalog,
    parent: Seq<char>,
    recipe: Recipe,
    i: int,
    fuel: nat,
) -> (Seq<EdgeView>, EndView)
    decreases fuel, recipe.inputs.keys().len() - i,
{
    if i < 0 || i >= recipe.inputs.keys().len() {
        (Seq::empty(), EndView::Complete)
    } else {
        let name = recipe.inputs.keys()[i];
        let needed = recipe.inputs.values()[i].quantity;
        match cat.spec_lookup(name) {
            Err(f) => (Seq::empty(), EndView::Failed(CompileFailure::Lookup(f))),
            Ok(found) => if found.spec_is_vitamin() {
                let capital = found.inputs.values()[0].quantity;
                if capital.unit != Some(Unit::USDollar) {
                    (
                        Seq::empty(),
                        EndView::Failed(CompileFailure::VitaminCapitalHasWrongUnit(name)),
                    )
                } else {
                    match found.outputs {
                        None => (
                            Seq::empty(),
                            EndView::Failed(CompileFailure::InputProducesNoOutput(name)),
                        ),
                        Some(outputs) => if outputs.keys().len() != 1 {
                            (Seq::empty(), EndView::VitaminOutputCount(name))
                        } else {
                            let edge = EdgeView {
                                parent,
                                object: ObjectView::Leaf(name),
                                action: spec_action_view(found.action),
                                cost: Some(
                                    CostTerms {
                                        capital,
                                        output: outputs.values()[0].quantity,
                                        needed,
                                    },
                                ),
                                quantity: spec_quantity_label(needed),
                            };
                            let rest = spec_walk_from(cat, parent, recipe, i + 1, fuel);
                            (seq![edge] + rest.0, rest.1)
                        },
                    }
                }
            } else {
                let edge = EdgeView {
                    parent,
                    object: ObjectView::Named(name),
                    action: spec_action_view(found.action),
                    cost: None,
                    quantity: spec_quantity_label(needed),
                };
                if fuel == 0 {
                    (seq![edge], EndView::DepthExhausted)
                } else {
                    let sub = spec_walk_from(cat, name, found, 0, (fuel - 1) as nat);
                    if !(sub.1 is Complete) {
                        (seq![edge] + sub.0, sub.1)
                    } else {
                        let rest = spec_walk_from(cat, parent, recipe, i + 1, fuel);
                        (seq![edge] + sub.0 + rest.0, rest.1)
                    }
                }
            },
        }
    }
}

/// The walk ends with every input drawn or with an error: it was not cut
/// short for want of depth, nor stopped at a vitamin that does not produce
/// exactly one output.
pub open spec fn ends_well(e: EndView) -> bool {
    e is Complete || e is Failed
}

/// The walk below `recipe` from its input `i`, with `fuel` levels of
/// assemblies, ends well.
pub open spec fn walk_ends_well(
    cat: Catalog,
    parent: Seq<char>,
    recipe: Recipe,
    i: int,
    fuel: nat,
) -> bool {
    ends_well(spec_walk_from(cat, parent, recipe, i, fuel).1)
}

/// The build graph below `recipe` can be drawn: with enough depth the walk
/// ends well. Otherwise drawing it never ends (the recipes nest in a
/// cycle) or panics (at a vitamin that does not produce exactly one
/// output).
pub open spec fn graph_drawable(cat: Catalog, parent: Seq<char>, recipe: Recipe) -> bool {
    exists|f: nat| #[trigger] walk_ends_well(cat, parent, recipe, 0, f)
}

/// The build graph below `recipe` (the recipe for `parent`), when it can be
/// drawn: the walk with any depth that lets it end well.
pub open spec fn spec_graph(cat: Catalog, parent: Seq<char>, recipe: Recipe) -> (
    Seq<EdgeView>,
    EndView,
) {
    spec_walk_from(cat, parent, recipe, 0, choose|f: nat| walk_ends_well(cat, parent, recipe, 0, f))
}

/// What is done to get a thing made by `action`.
fn action_label(action: &Action) -> (r: ActionLabel)
    ensures
        (match r {
            ActionLabel::Process(p) => ActionView::Process(p@),
            ActionLabel::Print(part) => ActionView::Print(part.model@, part.profile@),
            ActionLabel::Buy => ActionView::Buy,
        }) == spec_action_view(*action),
{
    match action {
        Action::process(p) => ActionLabel::Process(p.clone()),
        Action::print(part) => ActionLabel::Print(part.duplicate()),
        Action::purchase(_) => ActionLabel::Buy,
    }
}

/// Appends the build graph below `recipe` (the recipe for `parent`) to
/// `out`. The walk with `fuel` levels of assemblies ends well, so it is
/// the whole graph.
fn walk_inputs(
    cat: &Catalog,
    parent: &str,
    recipe: &Recipe,
    Ghost(fuel): Ghost<nat>,
    out: &mut Vec<GraphEdge>,
) -> (end: WalkEnd)
    requires
        walk_ends_well(*cat, parent@, *recipe, 0, fuel),
    ensures
        edges_view(final(out)@) == edges_view(old(out)@) + spec_walk_from(
            *cat,
            parent@,
            *recipe,
            0,
            fuel,
        ).0,
        end@ == spec_walk_from(*cat, parent@, *recipe, 0, fuel).1,
        leaf_ids_ok(old(out)@) ==> leaf_ids_ok(final(out)@),
    decreases fuel,
{
    let ghost start = edges_view(out@);
    let ghost whole = spec_walk_from(*cat, parent@, *recipe, 0, fuel);
    let n = recipe.inputs.len();
    let mut i: usize = 0;
    while i < n
        invariant
            n == recipe.inputs.keys().len(),
            n == recipe.inputs.values().len(),
            i <= n,
            whole == spec_walk_from(*cat, parent@, *recipe, 0, fuel),
            ends_well(whole.1),
            edges_view(out@) + spec_walk_from(*cat, parent@, *recipe, i as int, fuel).0
                == start + whole.0,
            spec_walk_from(*cat, parent@, *recipe, i as int, fuel).1 == whole.1,
            start == edges_view(old(out)@),
            leaf_ids_ok(old(out)@) ==> leaf_ids_ok(out@),
        decreases n - i,
    {
        let ghost here = spec_walk_from(*cat, parent@, *recipe, i as int, fuel);
        let ghost before = out@;
        let name = recipe.inputs.key_at(i);
        let info = recipe.inputs.value_at(i);
        let found = match cat.lookup(name.as_str()) {
            Ok(found) => found,
            Err(e) => {
                proof {
                    assert(here.0 =~= Seq::<EdgeView>::empty());
                    assert(edges_view(out@) =~= edges_view(out@) + here.0);
                }
                return WalkEnd::Failed(RecipeCompileError::RecipeLookupError(e));
            },
        };
        let vitamin = found.is_vitamin();
        let quantity = if info.quantity.is_plain_one() {
            None
        } else {
            Some(info.quantity)
        };
        let edge = if vitamin {
            let capital = found.inputs.value_at(0);
            if !capital.quantity.is_dollars() {
                proof {
                    assert(edges_view(out@) =~= edges_view(out@) + here.0);
                }
                return WalkEnd::Failed(RecipeCompileError::VitaminCapitalHasWrongUnit(name.clone()));
            }
            let outputs = match &found.outputs {
                None => {
                    proof {
                        assert(edges_view(out@) =~= edges_view(out@) + here.0);
                    }
                    return WalkEnd::Failed(RecipeCompileError::InputProducesNoOutput(name.clone()));
                },
                Some(outputs) => outputs,
            };
            assert(outputs.keys().len() == 1);
            proof { outputs.lemma_lengths(); }
            let id = fresh_object_id();
            GraphEdge {
                parent: String::from_str(parent),
                object: GraphObject::Leaf { label: name.clone(), id },
                action: action_label(&found.action),
                cost: Some(
                    CostTerms {
                        capital: capital.quantity,
                        output: outputs.value_at(0).quantity,
                        needed: info.quantity,
                    },
                ),
                quantity,
            }
        } else {
            GraphEdge {
                parent: String::from_str(parent),
                object: GraphObject::Named(name.clone()),
                action: action_label(&found.action),
                cost: None,
                quantity,
            }
        };
        let ghost ev = edge@;
        out.push(edge);
        proof {
            assert(edges_view(out@) =~= edges_view(before).push(ev));
            assert forall|k: int| 0 <= k < out@.len() && leaf_ids_ok(old(out)@) implies edge_id_ok(
                #[trigger] out@[k],
            ) by {
                if k < before.len() {
                    assert(out@[k] == before[k]);
                }
            }
        }
        if !vitamin {
            assert(fuel > 0);
            let ghost sub = spec_walk_from(*cat, name@, *found, 0, (fuel - 1) as nat);
            assert(ends_well(sub.1));
            let end = walk_inputs(cat, name.as_str(), found, Ghost((fuel - 1) as nat), out);
            match end {
                WalkEnd::Complete => {},
                _ => {
                    proof {
                        assert(here.0 =~= seq![ev] + sub.0);
                        assert(edges_view(out@) =~= edges_view(before) + here.0);
                    }
                    return end;
                },
            }
            proof {
                let rest = spec_walk_from(*cat, parent@, *recipe, i + 1, fuel);
                assert(here.0 =~= seq![ev] + sub.0 + rest.0);
                assert(edges_view(out@) + rest.0 =~= edges_view(before) + here.0);
            }
        } else {
            proof {
                let rest = spec_walk_from(*cat, parent@, *recipe, i + 1, fuel);
                assert(here.0 =~= seq![ev] + rest.0);
                assert(edges_view(out@) + rest.0 =~= edges_view(before) + here.0);
            }
        }
        i = i + 1;
    }
    proof {
        assert(edges_view(out@) =~= edges_view(out@) + spec_walk_from(
            *cat,
            parent@,
            *recipe,
            i as int,
            fuel,
        ).0);
    }
    WalkEnd::Complete
}

/// Draws the whole build graph below `recipe`, the recipe for `target`.
fn draw_graph(cat: &Catalog, target: &str, recipe: &Recipe) -> (r: (Vec<GraphEdge>, WalkEnd))
    requires
        graph_drawable(*cat, target@, *recipe),
    ensures
        (edges_view(r.0@), r.1@) == spec_graph(*cat, target@, *recipe),
        leaf_ids_ok(r.0@),
{
    let ghost fuel = choose|f: nat| walk_ends_well(*cat, target@, *recipe, 0, f);
    let mut edges: Vec<GraphEdge> = Vec::new();
    let end = walk_inputs(cat, target, recipe, Ghost(fuel), &mut edges);
    proof {
        assert(edges_view(edges@) =~= edges_view(Seq::<GraphEdge>::empty()) + spec_walk_from(
            *cat,
            target@,
            *recipe,
            0,
            fuel,
        ).0);
    }
    (edges, end)
}

impl Repos {
    /// The build graph of `target`, looked up across all repositories.
    /// Fails, before anything is drawn, when `target` cannot be looked up.
    /// The graph must be drawable (see `graph_is_drawable`): drawing it
    /// otherwise panics or never ends.
    pub fn compile_graph(&self, target: &str) -> (r: Result<
        (Vec<GraphEdge>, WalkEnd),
        RecipeLookupError,
    >)
        requires
            self.spec_get_recipe(target@) matches Ok(recipe) ==> graph_drawable(
                Catalog::Repos(self),
                target@,
                recipe,
            ),
        ensures
            match r {
                Err(e) => self.spec_get_recipe(target@) == Err::<Recipe, LookupFailure>(e@),
                Ok((edges, end)) => {
                    &&& self.spec_get_recipe(target@) is Ok
                    &&& (edges_view(edges@), end@) == spec_graph(
                        Catalog::Repos(self),
                        target@,
                        self.spec_get_recipe(target@)->Ok_0,
                    )
                    &&& leaf_ids_ok(edges@)
                },
            },
    {
        let recipe = self.get_recipe(target)?;
        let cat = Catalog::Repos(self);
        Ok(draw_graph(&cat, target, recipe))
    }
}

impl Repo {
    /// The build graph of `target`, looked up in this repository; `None`
    /// when the repository has no recipe called `target`. The graph must be
    /// drawable (see `graph_is_drawable`): drawing it otherwise panics or
    /// never ends.
    pub fn compile_graph(&self, target: &str) -> (r: Option<(Vec<GraphEdge>, WalkEnd)>)
        requires
            self.recipes().spec_get(target@) matches Some(recipe) ==> graph_drawable(
                Catalog::Repo(self),
                target@,
                recipe,
            ),
        ensures
            match r {
                None => self.recipes().spec_get(target@) is None,
                Some((edges, end)) => {
                    &&& self.recipes().spec_get(target@) is Some
                    &&& (edges_view(edges@), end@) == spec_graph(
                        Catalog::Repo(self),
                        target@,
                        self.recipes().spec_get(target@)->0,
                    )
                    &&& leaf_ids_ok(edges@)
                },
            },
    {
        let recipe = match self.get_recipe(target) {
            Some(recipe) => recipe,
            None => return None,
        };
        let cat = Catalog::Repo(self);
        Some(draw_graph(&cat, target, recipe))
    }
}

/// A build graph that fits in a depth comes out the same with any larger
/// depth allowed: the depth only decides whether the drawing stops early.
pub proof fn law_graph_depth_independent(
    cat: Catalog,
    parent: Seq<char>,
    recipe: Recipe,
    i: int,
    fuel: nat,
    more: nat,
)
    requires
        !(spec_walk_from(cat, parent, recipe, i, fuel).1 is DepthExhausted),
    ensures
        spec_walk_from(cat, parent, recipe, i, fuel + more) == spec_walk_from(
            cat,
            parent,
            recipe,
            i,
            fuel,
        ),
    decreases fuel, recipe.inputs.keys().len() - i,
{
    if i < 0 || i >= recipe.inputs.keys().len() {
    } else {
        let name = recipe.inputs.keys()[i];
        match cat.spec_lookup(name) {
            Err(_) => {},
            Ok(found) => {
                if found.spec_is_vitamin() {
                    let rest = spec_walk_from(cat, parent, recipe, i + 1, fuel);
                    if found.inputs.values()[0].quantity.unit == Some(Unit::USDollar) {
                        if found.outputs matches Some(outputs) && outputs.keys().len() == 1 {
                            law_graph_depth_independent(cat, parent, recipe, i + 1, fuel, more);
                        }
                    }
                } else if fuel > 0 {
                    let sub = spec_walk_from(cat, name, found, 0, (fuel - 1) as nat);
                    law_graph_depth_independent(cat, name, found, 0, (fuel - 1) as nat, more);
                    assert((fuel + more - 1) as nat == (fuel - 1) as nat + more);
                    if sub.1 is Complete {
                        law_graph_depth_independent(cat, parent, recipe, i + 1, fuel, more);
                    }
                }
            },
        }
    }
}


/// The `j`-th edge hangs below `parent` or below an assembly drawn by an
/// earlier edge.
pub open spec fn hangs_below_drawn(edges: Seq<EdgeView>, parent: Seq<char>, j: int) -> bool {
    ||| edges[j].parent == parent
    ||| exists|k: int| 0 <= k < j && (#[trigger] edges[k]).object == ObjectView::Named(edges[j].parent)
}

/// Every edge hangs below the thing being drawn or below an assembly drawn
/// earlier under its own name: vitamins are leaves of the graph.
pub proof fn law_graph_edges_hang_below_drawn_assemblies(
    cat: Catalog,
    parent: Seq<char>,
    recipe: Recipe,
    i: int,
    fuel: nat,
)
    ensures
        forall|j: int|
            0 <= j < spec_walk_from(cat, parent, recipe, i, fuel).0.len() ==> #[trigger] hangs_below_drawn(
                spec_walk_from(cat, parent, recipe, i, fuel).0,
                parent,
                j,
            ),
    decreases fuel, recipe.inputs.keys().len() - i,
{
    if i < 0 || i >= recipe.inputs.keys().len() {
    } else {
        let name = recipe.inputs.keys()[i];
        let all = spec_walk_from(cat, parent, recipe, i, fuel).0;
        match cat.spec_lookup(name) {
            Err(_) => {},
            Ok(found) => {
                if found.spec_is_vitamin() {
                    if found.inputs.values()[0].quantity.unit == Some(Unit::USDollar) && (
                    found.outputs matches Some(outputs) && outputs.keys().len() == 1) {
                        let rest = spec_walk_from(cat, parent, recipe, i + 1, fuel).0;
                        law_graph_edges_hang_below_drawn_assemblies(cat, parent, recipe, i + 1, fuel);
                        assert(all == seq![all[0]] + rest);
                        assert forall|j: int| 0 <= j < all.len() implies hangs_below_drawn(all, parent, j) by {
                            if j > 0 {
                                assert(all[j] == rest[j - 1]);
                                assert(hangs_below_drawn(rest, parent, j - 1));
                                if rest[j - 1].parent != parent {
                                    let k = choose|k: int|
                                        0 <= k < j - 1 && (#[trigger] rest[k]).object == ObjectView::Named(
                                            rest[j - 1].parent,
                                        );
                                    assert(all[k + 1] == rest[k]);
                                }
                            }
                        }
                    }
                } else if fuel > 0 {
                    let sub = spec_walk_from(cat, name, found, 0, (fuel - 1) as nat);
                    let rest = spec_walk_from(cat, parent, recipe, i + 1, fuel).0;
                    law_graph_edges_hang_below_drawn_assemblies(cat, name, found, 0, (fuel - 1) as nat);
                    law_graph_edges_hang_below_drawn_assemblies(cat, parent, recipe, i + 1, fuel);
                    let s = sub.0.len() as int;
                    assert forall|j: int| 0 <= j < all.len() implies hangs_below_drawn(all, parent, j) by {
                        if j == 0 {
                        } else if j <= s {
                            assert(all[j] == sub.0[j - 1]);
                            assert(hangs_below_drawn(sub.0, name, j - 1));
                            if sub.0[j - 1].parent == name {
                                assert(all[0].object == ObjectView::Named(name));
                            } else {
                                let k = choose|k: int|
                                    0 <= k < j - 1 && (#[trigger] sub.0[k]).object == ObjectView::Named(
                                        sub.0[j - 1].parent,
                                    );
                                assert(all[k + 1] == sub.0[k]);
                            }
                        } else {
                            assert(sub.1 is Complete);
                            assert(all[j] == rest[j - 1 - s]);
                            assert(hangs_below_drawn(rest, parent, j - 1 - s));
                            if rest[j - 1 - s].parent != parent {
                                let k = choose|k: int|
                                    0 <= k < j - 1 - s && (#[trigger] rest[k]).object == ObjectView::Named(
                                        rest[j - 1 - s].parent,
                                    );
                                assert(all[k + 1 + s] == rest[k]);
                            }
                        }
                    }
                }
            },
        }
    }
}

/// The name of the input an edge draws.
pub open spec fn edge_input(e: EdgeView) -> Seq<char> {
    match e.object {
        ObjectView::Named(n) => n,
        ObjectView::Leaf(n) => n,
    }
}

/// The edge draws an input that `owner` lists, with what the catalog's
/// recipe for that input says:
/// - the quantity label is the input's quantity as `owner` lists it,
///   absent exactly when that is one with no unit;
/// - the action is the input's recipe's: its process, its model and
///   profile, or buying it;
/// - a vitamin gets a box of its own and its cost terms (its capital, its
///   one output, and the quantity needed); anything else is drawn under its
///   name, with no cost.
pub open spec fn edge_fits_input(cat: Catalog, e: EdgeView, owner: Recipe) -> bool {
    let n = edge_input(e);
    &&& exists|k: int|
        0 <= k < owner.inputs.keys().len() && #[trigger] owner.inputs.keys()[k] == n && {
            let q = owner.inputs.values()[k].quantity;
            &&& (q.spec_is_plain_one() ==> e.quantity is None)
            &&& (!q.spec_is_plain_one() ==> e.quantity == Some(q))
            &&& match cat.spec_lookup(n) {
                Ok(found) => found.spec_is_vitamin() ==> match found.outputs {
                    Some(outs) => e.cost == Some(
                        CostTerms {
                            capital: found.inputs.values()[0].quantity,
                            output: outs.values()[0].quantity,
                            needed: q,
                        },
                    ),
                    None => false,
                },
                Err(_) => true,
            }
        }
    &&& cat.spec_lookup(n) matches Ok(found) && {
        &&& (found.spec_is_vitamin() <==> e.object is Leaf)
        &&& (!found.spec_is_vitamin() ==> e.cost is None)
        &&& match found.action {
            Action::process(p) => e.action == ActionView::Process(p@),
            Action::print(part) => e.action == ActionView::Print(part.model@, part.profile@),
            Action::purchase(_) => e.action == ActionView::Buy,
        }
    }
}

/// Every edge of the build graph hangs below the thing drawn or below a
/// thing the catalog has a recipe for, and describes an input of that
/// recipe as `edge_fits_input` says: with the input's quantity, the
/// action of the input's own recipe, and for a vitamin its cost terms.
pub proof fn law_graph_edges_describe_their_inputs(
    cat: Catalog,
    parent: Seq<char>,
    recipe: Recipe,
    i: int,
    fuel: nat,
)
    ensures
        forall|j: int|
            0 <= j < spec_walk_from(cat, parent, recipe, i, fuel).0.len() ==> {
                let e = #[trigger] spec_walk_from(cat, parent, recipe, i, fuel).0[j];
                ||| e.parent == parent && edge_fits_input(cat, e, recipe)
                ||| cat.spec_lookup(e.parent) matches Ok(owner) && edge_fits_input(cat, e, owner)
            },
    decreases fuel, recipe.inputs.keys().len() - i,
{
    if i < 0 || i >= recipe.inputs.keys().len() {
    } else {
        let name = recipe.inputs.keys()[i];
        let all = spec_walk_from(cat, parent, recipe, i, fuel).0;
        match cat.spec_lookup(name) {
            Err(_) => {},
            Ok(found) => {
                if found.spec_is_vitamin() {
                    if found.inputs.values()[0].quantity.unit == Some(Unit::USDollar) && (
                    found.outputs matches Some(outputs) && outputs.keys().len() == 1) {
                        let rest = spec_walk_from(cat, parent, recipe, i + 1, fuel).0;
                        law_graph_edges_describe_their_inputs(cat, parent, recipe, i + 1, fuel);
                        assert(all == seq![all[0]] + rest);
                        assert(edge_fits_input(cat, all[0], recipe));
                        assert forall|j: int| 0 <= j < all.len() implies {
                            let e = #[trigger] all[j];
                            ||| e.parent == parent && edge_fits_input(cat, e, recipe)
                            ||| cat.spec_lookup(e.parent) matches Ok(owner) && edge_fits_input(
                                cat,
                                e,
                                owner,
                            )
                        } by {
                            if j > 0 {
                                assert(all[j] == rest[j - 1]);
                            }
                        }
                    }
                } else if fuel > 0 {
                    let sub = spec_walk_from(cat, name, found, 0, (fuel - 1) as nat);
                    let rest = spec_walk_from(cat, parent, recipe, i + 1, fuel).0;
                    law_graph_edges_describe_their_inputs(cat, name, found, 0, (fuel - 1) as nat);
                    law_graph_edges_describe_their_inputs(cat, parent, recipe, i + 1, fuel);
                    let s = sub.0.len() as int;
                    assert(edge_fits_input(cat, all[0], recipe));
                    assert forall|j: int| 0 <= j < all.len() implies {
                        let e = #[trigger] all[j];
                        ||| e.parent == parent && edge_fits_input(cat, e, recipe)
                        ||| cat.spec_lookup(e.parent) matches Ok(owner) && edge_fits_input(
                            cat,
                            e,
                            owner,
                        )
                    } by {
                        if j == 0 {
                        } else if j <= s {
                            assert(all[j] == sub.0[j - 1]);
                        } else {
                            assert(sub.1 is Complete);
                            assert(all[j] == rest[j - 1 - s]);
                        }
                    }
                } else {
                    assert(edge_fits_input(cat, all[0], recipe));
                }
            },
        }
    }
}

/// A build graph drawn to the end has an edge for each input of the thing
/// drawn, hanging below it.
pub proof fn law_complete_graph_draws_every_input(
    cat: Catalog,
    parent: Seq<char>,
    recipe: Recipe,
    i: int,
    fuel: nat,
)
    requires
        0 <= i,
        spec_walk_from(cat, parent, recipe, i, fuel).1 is Complete,
    ensures
        forall|k: int|
            i <= k < recipe.inputs.keys().len() ==> exists|j: int|
                0 <= j < spec_walk_from(cat, parent, recipe, i, fuel).0.len()
                    && spec_walk_from(cat, parent, recipe, i, fuel).0[j].parent == parent
                    && edge_input(spec_walk_from(cat, parent, recipe, i, fuel).0[j])
                    == #[trigger] recipe.inputs.keys()[k],
    decreases fuel, recipe.inputs.keys().len() - i,
{
    if i < recipe.inputs.keys().len() {
        let name = recipe.inputs.keys()[i];
        let all = spec_walk_from(cat, parent, recipe, i, fuel).0;
        let rest = spec_walk_from(cat, parent, recipe, i + 1, fuel).0;
        let found = cat.spec_lookup(name)->Ok_0;
        let off: int = if found.spec_is_vitamin() {
            1
        } else {
            1 + spec_walk_from(cat, name, found, 0, (fuel - 1) as nat).0.len() as int
        };
        law_complete_graph_draws_every_input(cat, parent, recipe, i + 1, fuel);
        if found.spec_is_vitamin() {
            assert(all == seq![all[0]] + rest);
        } else {
            let sub = spec_walk_from(cat, name, found, 0, (fuel - 1) as nat);
            assert(all == seq![all[0]] + sub.0 + rest);
        }
        assert forall|k: int| i <= k < recipe.inputs.keys().len() implies exists|j: int|
            0 <= j < all.len() && all[j].parent == parent && edge_input(all[j])
                == #[trigger] recipe.inputs.keys()[k] by {
            if k == i {
                assert(all[0].parent == parent && edge_input(all[0]) == name);
            } else {
                let j = choose|j: int|
                    0 <= j < rest.len() && rest[j].parent == parent && edge_input(rest[j])
                        == #[trigger] recipe.inputs.keys()[k];
                assert(all[j + off] == rest[j]);
            }
        }
    }
}

} // verus!
