//! A build plan: the path from starting points (vitamins) to a desired
//! output, and what a book about building it says.
use vstd::prelude::*;
use vstd::string::*;
use crate::names::{NameMap, NameSet};
use crate::quantity::Quantity;
use crate::recipe::{Action, PrintedPart, Recipe, VitaminError};
use crate::repos::{LookupFailure, RecipeLookupError, Repos};
use crate::text::{lemma_sort_seq, sort_seq, sort_strings, sorted_le, string_views};

verus! {

/// Something needed, and how much of it.
#[derive(Debug)]
pub struct Item {
    pub name: String,
    pub quantity: Quantity,
}

/// A build plan for one thing.
pub struct BuildPlan<'a> {
    /// The name of the thing this build plan builds.
    pub name: &'a str,
    /// Bill of materials needed to build it, keyed by item name.
    pub bom: NameMap<Item>,
    /// Printed parts needed to build it, keyed by item name.
    pub prints: NameMap<Item>,
    /// Tools needed to build it.
    pub tools: NameSet,
    /// Operator skills needed to build it.
    pub skills: NameSet,
    pub repos: &'a Repos,
}

/// Why a part of the book could not be planned.
#[derive(Debug)]
pub enum PlanError {
    /// An item that the plan lists is not in it.
    BuildPlanError(String),
    RecipeLookupError(RecipeLookupError),
    VitaminError(VitaminError),
}

/// Why a part of the book could not be planned.
pub enum PlanFailure {
    Missing(Seq<char>),
    Lookup(LookupFailure),
    Vitamin(VitaminError),
}

impl View for PlanError {
    type V = PlanFailure;

    open spec fn view(&self) -> PlanFailure {
        match self {
            PlanError::BuildPlanError(s) => PlanFailure::Missing(s@),
            PlanError::RecipeLookupError(e) => PlanFailure::Lookup(e@),
            PlanError::VitaminError(e) => PlanFailure::Vitamin(*e),
        }
    }
}

/// One line of the bill of materials.
#[derive(Debug)]
pub struct BomEntry {
    pub name: String,
    /// How much is needed.
    pub quantity: Quantity,
    /// The unit cost is `capital`'s amount divided by `output`'s amount.
    pub capital: Quantity,
    pub output: Quantity,
    /// Where to buy it.
    pub vendors: Vec<String>,
}

/// One line of the bill of materials.
pub struct BomView {
    pub name: Seq<char>,
    pub quantity: Quantity,
    pub capital: Quantity,
    pub output: Quantity,
    pub vendors: Seq<Seq<char>>,
}

impl View for BomEntry {
    type V = BomView;

    open spec fn view(&self) -> BomView {
        BomView {
            name: self.name@,
            quantity: self.quantity,
            capital: self.capital,
            output: self.output,
            vendors: string_views(self.vendors@),
        }
    }
}

/// One printed part.
#[derive(Debug)]
pub struct PrintEntry {
    pub name: String,
    pub quantity: Quantity,
    /// The model and print profile; `None` for a part whose recipe could
    /// not be looked up, which ends the list (its name and quantity are
    /// written before the lookup fails).
    pub part: Option<PrintedPart>,
}

/// One printed part.
pub struct PrintView {
    pub name: Seq<char>,
    pub quantity: Quantity,
    /// The model and the print profile.
    pub part: Option<(Seq<char>, Seq<char>)>,
}

impl View for PrintEntry {
    type V = PrintView;

    open spec fn view(&self) -> PrintView {
        PrintView {
            name: self.name@,
            quantity: self.quantity,
            part: match self.part {
                Some(p) => Some((p.model@, p.profile@)),
                None => None,
            },
        }
    }
}

/// How an input of a chapter is obtained.
#[derive(Clone, Copy, Debug, PartialEq, Eq, Structural)]
pub enum InputKind {
    Vitamin,
    Printed,
    Assembled,
}

/// One input of a chapter.
#[derive(Debug)]
pub struct ChapterInput {
    pub name: String,
    pub quantity: Quantity,
    pub kind: InputKind,
}

/// The chapter on assembling one thing.
#[derive(Debug)]
pub struct Chapter {
    pub name: String,
    /// The tools, sorted, if the recipe lists tools.
    pub tools: Option<Vec<String>>,
    /// The operator skills, sorted, if the recipe lists any.
    pub skills: Option<Vec<String>>,
    /// The inputs, sorted by name.
    pub inputs: Vec<ChapterInput>,
    /// The process by which it is assembled.
    pub process: String,
}

/// One input of a chapter.
pub struct ChapterInputView {
    pub name: Seq<char>,
    pub quantity: Quantity,
    pub kind: InputKind,
}

/// The chapter on assembling one thing.
pub struct ChapterView {
    pub name: Seq<char>,
    pub tools: Option<Seq<Seq<char>>>,
    pub skills: Option<Seq<Seq<char>>>,
    pub inputs: Seq<ChapterInputView>,
    /// The process, when the recipe's action is one.
    pub process: Option<Seq<char>>,
}

impl View for Chapter {
    type V = ChapterView;

    open spec fn view(&self) -> ChapterView {
        ChapterView {
            name: self.name@,
            tools: match self.tools {
                Some(t) => Some(string_views(t@)),
                None => None,
            },
            skills: match self.skills {
                Some(s) => Some(string_views(s@)),
                None => None,
            },
            inputs: chapter_input_views(self.inputs@),
            process: Some(self.process@),
        }
    }
}

/// How the chapters end.
#[derive(Debug)]
pub enum ChaptersEnd {
    /// Every chapter was planned.
    Complete,
    Failed(PlanError),
}

/// How a walk of the chapters ends.
pub enum ChaptersEndView {
    Complete,
    Failed(PlanFailure),
    /// The walk was given too little depth to finish.
    DepthExhausted,
    /// The assembly of this name has an action that is not a process:
    /// writing the book panics there, after the chapters of its inputs.
    ActionNotAProcess(Seq<char>),
}

impl View for ChaptersEnd {
    type V = ChaptersEndView;

    open spec fn view(&self) -> ChaptersEndView {
        match self {
            ChaptersEnd::Complete => ChaptersEndView::Complete,
            ChaptersEnd::Failed(e) => ChaptersEndView::Failed(e@),
        }
    }
}

/// The views of a sequence of bill-of-materials lines.
pub open spec fn bom_views(s: Seq<BomEntry>) -> Seq<BomView> {
    s.map_values(|e: BomEntry| e@)
}

/// The views of a sequence of printed parts.
pub open spec fn print_views(s: Seq<PrintEntry>) -> Seq<PrintView> {
    s.map_values(|e: PrintEntry| e@)
}

/// The views of a sequence of chapter inputs.
pub open spec fn chapter_input_views(s: Seq<ChapterInput>) -> Seq<ChapterInputView> {
    s.map_values(
        |i: ChapterInput| ChapterInputView { name: i.name@, quantity: i.quantity, kind: i.kind },
    )
}

/// The views of a sequence of chapters.
pub open spec fn chapter_views(s: Seq<Chapter>) -> Seq<ChapterView> {
    s.map_values(|c: Chapter| c@)
}

/// How an input made by `recipe` is obtained.
pub open spec fn spec_input_kind(recipe: Recipe) -> InputKind {
    if recipe.spec_is_vitamin() {
        InputKind::Vitamin
    } else if recipe.spec_is_print() {
        InputKind::Printed
    } else {
        InputKind::Assembled
    }
}

impl<'a> BuildPlan<'a> {
    /// An empty build plan for `target`, whose recipes are looked up in
    /// `repos`.
    pub fn new(target: &'a str, repos: &'a Repos) -> (r: Self)
        ensures
            r.name@ == target@,
            r.repos == repos,
            r.bom.keys().len() == 0,
            r.prints.keys().len() == 0,
            r.tools.elems().len() == 0,
            r.skills.elems().len() == 0,
    {
        BuildPlan {
            name: target,
            bom: NameMap::new(),
            prints: NameMap::new(),
            tools: NameSet::new(),
            skills: NameSet::new(),
            repos,
        }
    }

    /// The bill of materials from the `k`-th of `names` on.
    ///
    /// For each name: its item, its recipe, and the recipe's unit cost;
    /// the first of these that is missing ends the list with its error.
    pub open spec fn spec_bom_from(self, names: Seq<Seq<char>>, k: int) -> (
        Seq<BomView>,
        Result<(), PlanFailure>,
    )
        decreases names.len() - k,
    {
        if k < 0 || k >= names.len() {
            (Seq::empty(), Ok(()))
        } else {
            let name = names[k];
            match self.bom.spec_get(name) {
                None => (Seq::empty(), Err(PlanFailure::Missing(name))),
                Some(item) => match self.repos.spec_get_recipe(name) {
                    Err(f) => (Seq::empty(), Err(PlanFailure::Lookup(f))),
                    Ok(recipe) => match recipe.spec_unit_cost_terms() {
                        Err(v) => (Seq::empty(), Err(PlanFailure::Vitamin(v))),
                        Ok((capital, output)) => {
                            let entry = BomView {
                                name,
                                quantity: item.quantity,
                                capital,
                                output,
                                vendors: string_views(recipe.action->purchase_0.vendor@),
                            };
                            let rest = self.spec_bom_from(names, k + 1);
                            (seq![entry] + rest.0, rest.1)
                        },
                    },
                },
            }
        }
    }

    /// Every item that the bill of materials reaches from the `k`-th of
    /// `names` on, up to the first that fails, is bought: writing the bill
    /// panics at an item whose recipe is not a purchase.
    pub open spec fn spec_bom_buyable_from(self, names: Seq<Seq<char>>, k: int) -> bool
        decreases names.len() - k,
    {
        if k < 0 || k >= names.len() {
            true
        } else {
            match self.bom.spec_get(names[k]) {
                None => true,
                Some(_) => match self.repos.spec_get_recipe(names[k]) {
                    Err(_) => true,
                    Ok(recipe) => match recipe.spec_unit_cost_terms() {
                        Err(_) => true,
                        Ok(_) => recipe.action is purchase && self.spec_bom_buyable_from(
                            names,
                            k + 1,
                        ),
                    },
                },
            }
        }
    }

    /// The bill of materials, in order of item name.
    pub open spec fn spec_bom(self) -> (Seq<BomView>, Result<(), PlanFailure>) {
        self.spec_bom_from(sort_seq(self.bom.keys()), 0)
    }

    /// Every item the bill of materials reaches is bought.
    pub open spec fn spec_bom_buyable(self) -> bool {
        self.spec_bom_buyable_from(sort_seq(self.bom.keys()), 0)
    }

    /// Whether every item the bill of materials reaches, up to the first
    /// that fails, is bought: the bill can only be written when it is.
    pub fn bom_is_buyable(&self) -> (r: bool)
        ensures
            r == self.spec_bom_buyable(),
    {
        let names = self.bom.sorted_keys();
        let ghost ns = string_views(names@);
        let n = names.len();
        let mut k = n;
        let mut ok = true;
        while k > 0
            invariant
                k <= n,
                n == names@.len(),
                ns == string_views(names@),
                ns == sort_seq(self.bom.keys()),
                ok == self.spec_bom_buyable_from(ns, k as int),
            decreases k,
        {
            k = k - 1;
            let name = &names[k];
            assert(name@ == ns[k as int]);
            if self.bom.get(name.as_str()).is_some() {
                match self.repos.get_recipe(name.as_str()) {
                    Ok(recipe) => {
                        if recipe.unit_cost_terms().is_ok() {
                            let bought = match &recipe.action {
                                Action::purchase(_) => true,
                                _ => false,
                            };
                            ok = bought && ok;
                        } else {
                            ok = true;
                        }
                    },
                    Err(_) => {
                        ok = true;
                    },
                }
            } else {
                ok = true;
            }
        }
        ok
    }

    /// The lines of the bill of materials, in order of item name, and
    /// whether they all could be planned.
    pub fn bom_entries(&self) -> (r: (Vec<BomEntry>, Result<(), PlanError>))
        requires
            self.spec_bom_buyable(),
        ensures
            bom_views(r.0@) == self.spec_bom().0,
            match r.1 {
                Ok(()) => self.spec_bom().1 is Ok,
                Err(e) => self.spec_bom().1 == Err::<(), PlanFailure>(e@),
            },
    {
        let names = self.bom.sorted_keys();
        let ghost ns = string_views(names@);
        let ghost whole = self.spec_bom();
        let mut out: Vec<BomEntry> = Vec::new();
        let n = names.len();
        for k in 0..n
            invariant
                n == names@.len(),
                ns == string_views(names@),
                ns == sort_seq(self.bom.keys()),
                whole == self.spec_bom_from(ns, 0),
                bom_views(out@) + self.spec_bom_from(ns, k as int).0 == whole.0,
                self.spec_bom_from(ns, k as int).1 == whole.1,
                self.spec_bom_buyable_from(ns, k as int),
        {
            let ghost here = self.spec_bom_from(ns, k as int);
            let ghost before = out@;
            let name = &names[k];
            assert(name@ == ns[k as int]);
            let item = match self.bom.get(name.as_str()) {
                Some(item) => item,
                None => {
                    assert(bom_views(out@) =~= bom_views(out@) + here.0);
                    return (out, Err(PlanError::BuildPlanError(name.clone())));
                },
            };
            let recipe = match self.repos.get_recipe(name.as_str()) {
                Ok(recipe) => recipe,
                Err(e) => {
                    assert(bom_views(out@) =~= bom_views(out@) + here.0);
                    return (out, Err(PlanError::RecipeLookupError(e)));
                },
            };
            let (capital, output) = match recipe.unit_cost_terms() {
                Ok(terms) => terms,
                Err(e) => {
                    assert(bom_views(out@) =~= bom_views(out@) + here.0);
                    return (out, Err(PlanError::VitaminError(e)));
                },
            };
            let vendors = match &recipe.action {
                Action::purchase(p) => p.vendor.clone(),
                // Ruled out: every item reached is bought.
                _ => Vec::new(),
            };
            let entry = BomEntry { name: name.clone(), quantity: item.quantity, capital, output, vendors };
            proof {
                if let Action::purchase(p) = &recipe.action {
                    assert(string_views(entry.vendors@) =~= string_views(p.vendor@));
                }
            }
            let ghost ev = entry@;
            out.push(entry);
            proof {
                let rest = self.spec_bom_from(ns, k + 1);
                assert(here.0 =~= seq![ev] + rest.0);
                assert(bom_views(out@) =~= bom_views(before).push(ev));
                assert(bom_views(out@) + rest.0 =~= bom_views(before) + here.0);
            }
        }
        assert(bom_views(out@) =~= bom_views(out@) + self.spec_bom_from(ns, n as int).0);
        (out, Ok(()))
    }

    /// The printed parts from the `k`-th of `names` on.
    ///
    /// For each name: its item (a missing one ends the list with its
    /// error), then its name and quantity, then its recipe's model and
    /// profile; a recipe that cannot be looked up ends the list there with
    /// its error, after the part's name and quantity.
    pub open spec fn spec_prints_from(self, names: Seq<Seq<char>>, k: int) -> (
        Seq<PrintView>,
        Result<(), PlanFailure>,
    )
        decreases names.len() - k,
    {
        if k < 0 || k >= names.len() {
            (Seq::empty(), Ok(()))
        } else {
            let name = names[k];
            match self.prints.spec_get(name) {
                None => (Seq::empty(), Err(PlanFailure::Missing(name))),
                Some(item) => match self.repos.spec_get_recipe(name) {
                    Err(f) => (
                        seq![PrintView { name, quantity: item.quantity, part: None }],
                        Err(PlanFailure::Lookup(f)),
                    ),
                    Ok(recipe) => {
                        let p = recipe.action->print_0;
                        let entry = PrintView {
                            name,
                            quantity: item.quantity,
                            part: Some((p.model@, p.profile@)),
                        };
                        let rest = self.spec_prints_from(names, k + 1);
                        (seq![entry] + rest.0, rest.1)
                    },
                },
            }
        }
    }

    /// Every part that the list of printed parts reaches from the `k`-th
    /// of `names` on, up to the first that fails, is printed by its
    /// recipe: writing the list panics at a part whose recipe does not
    /// print it.
    pub open spec fn spec_prints_printable_from(self, names: Seq<Seq<char>>, k: int) -> bool
        decreases names.len() - k,
    {
        if k < 0 || k >= names.len() {
            true
        } else {
            match self.prints.spec_get(names[k]) {
                None => true,
                Some(_) => match self.repos.spec_get_recipe(names[k]) {
                    Err(_) => true,
                    Ok(recipe) => recipe.action is print && self.spec_prints_printable_from(
                        names,
                        k + 1,
                    ),
                },
            }
        }
    }

    /// The printed parts, in order of item name.
    pub open spec fn spec_prints(self) -> (Seq<PrintView>, Result<(), PlanFailure>) {
        self.spec_prints_from(sort_seq(self.prints.keys()), 0)
    }

    /// Every part the list of printed parts reaches is printed.
    pub open spec fn spec_prints_printable(self) -> bool {
        self.spec_prints_printable_from(sort_seq(self.prints.keys()), 0)
    }

    /// Whether every part the list of printed parts reaches, up to the
    /// first that fails, is printed by its recipe: the list can only be
    /// written when it is.
    pub fn prints_are_printable(&self) -> (r: bool)
        ensures
            r == self.spec_prints_printable(),
    {
        let names = self.prints.sorted_keys();
        let ghost ns = string_views(names@);
        let n = names.len();
        let mut k = n;
        let mut ok = true;
        while k > 0
            invariant
                k <= n,
                n == names@.len(),
                ns == string_views(names@),
                ns == sort_seq(self.prints.keys()),
                ok == self.spec_prints_printable_from(ns, k as int),
            decreases k,
        {
            k = k - 1;
            let name = &names[k];
            assert(name@ == ns[k as int]);
            if self.prints.get(name.as_str()).is_some() {
                match self.repos.get_recipe(name.as_str()) {
                    Ok(recipe) => {
                        ok = recipe.is_print() && ok;
                    },
                    Err(_) => {
                        ok = true;
                    },
                }
            } else {
                ok = true;
            }
        }
        ok
    }

    /// The printed parts, in order of item name, and whether they all
    /// could be planned.
    pub fn print_entries(&self) -> (r: (Vec<PrintEntry>, Result<(), PlanError>))
        requires
            self.spec_prints_printable(),
        ensures
            print_views(r.0@) == self.spec_prints().0,
            match r.1 {
                Ok(()) => self.spec_prints().1 is Ok,
                Err(e) => self.spec_prints().1 == Err::<(), PlanFailure>(e@),
            },
    {
        let names = self.prints.sorted_keys();
        let ghost ns = string_views(names@);
        let ghost whole = self.spec_prints();
        let mut out: Vec<PrintEntry> = Vec::new();
        let n = names.len();
        for k in 0..n
            invariant
                n == names@.len(),
                ns == string_views(names@),
                ns == sort_seq(self.prints.keys()),
                whole == self.spec_prints_from(ns, 0),
                print_views(out@) + self.spec_prints_from(ns, k as int).0 == whole.0,
                self.spec_prints_from(ns, k as int).1 == whole.1,
                self.spec_prints_printable_from(ns, k as int),
        {
            let ghost here = self.spec_prints_from(ns, k as int);
            let ghost before = out@;
            let name = &names[k];
            assert(name@ == ns[k as int]);
            let item = match self.prints.get(name.as_str()) {
                Some(item) => item,
                None => {
                    assert(print_views(out@) =~= print_views(out@) + here.0);
                    return (out, Err(PlanError::BuildPlanError(name.clone())));
                },
            };
            match self.repos.get_recipe(name.as_str()) {
                Ok(recipe) => {
                    let part = match &recipe.action {
                        Action::print(p) => p.duplicate(),
                        // Ruled out: every part reached is printed.
                        _ => PrintedPart { model: String::new(), profile: String::new() },
                    };
                    let entry = PrintEntry { name: name.clone(), quantity: item.quantity, part: Some(part) };
                    let ghost ev = entry@;
                    out.push(entry);
                    proof {
                        let rest = self.spec_prints_from(ns, k + 1);
                        assert(here.0 =~= seq![ev] + rest.0);
                        assert(print_views(out@) =~= print_views(before).push(ev));
                        assert(print_views(out@) + rest.0 =~= print_views(before) + here.0);
                    }
                },
                Err(e) => {
                    let entry = PrintEntry { name: name.clone(), quantity: item.quantity, part: None };
                    let ghost ev = entry@;
                    out.push(entry);
                    proof {
                        assert(here.0 =~= seq![ev]);
                        assert(print_views(out@) =~= print_views(before).push(ev));
                        assert(print_views(out@) =~= print_views(before) + here.0);
                    }
                    return (out, Err(PlanError::RecipeLookupError(e)));
                },
            }
        }
        assert(print_views(out@) =~= print_views(out@) + self.spec_prints_from(ns, n as int).0);
        (out, Ok(()))
    }
}


/// What a line of the bill of materials says of the item `name` of
/// `plan`: the quantity the plan's table holds for it, the unit-cost terms
/// of its recipe, and the vendors its recipe buys from.
pub open spec fn bom_line_fits(plan: BuildPlan, e: BomView, name: Seq<char>) -> bool {
    &&& e.name == name
    &&& match plan.bom.spec_get(name) {
        Some(item) => e.quantity == item.quantity,
        None => false,
    }
    &&& match plan.repos.spec_get_recipe(name) {
        Ok(r) => {
            &&& r.spec_unit_cost_terms() == Ok::<(Quantity, Quantity), VitaminError>(
                (e.capital, e.output),
            )
            &&& match r.action {
                Action::purchase(p) => e.vendors == string_views(p.vendor@),
                _ => true,
            }
        },
        Err(_) => false,
    }
}

/// Why the bill of materials cannot list the item `name` of `plan`, if it
/// cannot: the plan's table does not hold it, its recipe cannot be looked
/// up, or its recipe has no unit cost (it is not a well-formed vitamin).
pub open spec fn bom_item_failure(plan: BuildPlan, name: Seq<char>) -> Option<PlanFailure> {
    match plan.bom.spec_get(name) {
        None => Some(PlanFailure::Missing(name)),
        Some(_) => match plan.repos.spec_get_recipe(name) {
            Err(f) => Some(PlanFailure::Lookup(f)),
            Ok(r) => match r.spec_unit_cost_terms() {
                Err(v) => Some(PlanFailure::Vitamin(v)),
                Ok(_) => None,
            },
        },
    }
}

/// The bill of materials from the `k`-th of `names` on has one line for
/// each name in turn, each as `bom_line_fits` says; when nothing fails
/// there is a line for every remaining name, and otherwise the list ends
/// with why the next name cannot be listed.
pub proof fn law_bom_lines_follow_the_names(plan: BuildPlan, names: Seq<Seq<char>>, k: int)
    requires
        0 <= k <= names.len(),
    ensures
        forall|j: int|
            0 <= j < plan.spec_bom_from(names, k).0.len() ==> k + j < names.len() && bom_line_fits(
                plan,
                #[trigger] plan.spec_bom_from(names, k).0[j],
                names[k + j],
            ),
        plan.spec_bom_from(names, k).0.len() <= names.len() - k,
        plan.spec_bom_from(names, k).1 is Ok ==> plan.spec_bom_from(names, k).0.len() == names.len()
            - k,
        plan.spec_bom_from(names, k).1 matches Err(f) ==> k + plan.spec_bom_from(names, k).0.len()
            < names.len() && bom_item_failure(
            plan,
            names[k + plan.spec_bom_from(names, k).0.len()],
        ) == Some(f),
    decreases names.len() - k,
{
    if k < names.len() {
        law_bom_lines_follow_the_names(plan, names, k + 1);
        let all = plan.spec_bom_from(names, k);
        let rest = plan.spec_bom_from(names, k + 1);
        if all.0.len() > 0 {
            assert(all.0 == seq![all.0[0]] + rest.0);
            assert forall|j: int| 0 <= j < all.0.len() implies k + j < names.len() && bom_line_fits(
                plan,
                #[trigger] all.0[j],
                names[k + j],
            ) by {
                if j > 0 {
                    assert(all.0[j] == rest.0[j - 1]);
                    assert(names[k + 1 + (j - 1)] == names[k + j]);
                }
            }
        }
    }
}

/// The bill of materials lists the plan's items in ascending name order,
/// each line as `bom_line_fits` says; when nothing fails, every item has a
/// line.
pub proof fn law_bom_lists_the_items_in_name_order(plan: BuildPlan)
    ensures
        forall|j: int|
            0 <= j < plan.spec_bom().0.len() ==> j < plan.bom.keys().len() && bom_line_fits(
                plan,
                #[trigger] plan.spec_bom().0[j],
                sort_seq(plan.bom.keys())[j],
            ),
        plan.spec_bom().1 is Ok ==> plan.spec_bom().0.len() == plan.bom.keys().len(),
        plan.spec_bom().1 matches Err(f) ==> plan.spec_bom().0.len() < plan.bom.keys().len()
            && bom_item_failure(plan, sort_seq(plan.bom.keys())[plan.spec_bom().0.len() as int])
            == Some(f),
{
    let names = sort_seq(plan.bom.keys());
    lemma_sort_seq(plan.bom.keys());
    law_bom_lines_follow_the_names(plan, names, 0);
    assert(names[0 + plan.spec_bom().0.len() as int] == names[plan.spec_bom().0.len() as int]);
    assert forall|j: int| 0 <= j < plan.spec_bom().0.len() implies j < plan.bom.keys().len()
        && bom_line_fits(plan, #[trigger] plan.spec_bom().0[j], names[j]) by {
        assert(plan.spec_bom_from(names, 0).0[j] == plan.spec_bom().0[j]);
        assert(names[0 + j] == names[j]);
    }
}

/// What the book says of the printed part `name` of `plan`: the quantity
/// the plan's table holds for it, and the model and print profile of its
/// recipe when that prints it; no model and profile when its recipe cannot
/// be looked up.
pub open spec fn print_line_fits(plan: BuildPlan, e: PrintView, name: Seq<char>) -> bool {
    &&& e.name == name
    &&& match plan.prints.spec_get(name) {
        Some(item) => e.quantity == item.quantity,
        None => false,
    }
    &&& match plan.repos.spec_get_recipe(name) {
        Ok(r) => e.part is Some && match r.action {
            Action::print(pp) => e.part == Some((pp.model@, pp.profile@)),
            _ => true,
        },
        Err(_) => e.part is None,
    }
}

/// The printed parts from the `k`-th of `names` on have one entry for
/// each name in turn, each as `print_line_fits` says. A part whose recipe
/// cannot be looked up is the last, and the list ends with that lookup's
/// error; when nothing fails there is an entry for every remaining name.
/// A part missing from the plan's table ends the list before it.
pub proof fn law_prints_follow_the_names(plan: BuildPlan, names: Seq<Seq<char>>, k: int)
    requires
        0 <= k <= names.len(),
    ensures
        forall|j: int|
            0 <= j < plan.spec_prints_from(names, k).0.len() ==> k + j < names.len()
                && print_line_fits(plan, #[trigger] plan.spec_prints_from(names, k).0[j], names[k + j]),
        forall|j: int|
            0 <= j < plan.spec_prints_from(names, k).0.len() && (
            #[trigger] plan.spec_prints_from(names, k).0[j]).part is None ==> j
                == plan.spec_prints_from(names, k).0.len() - 1 && plan.spec_prints_from(
                names,
                k,
            ).1 == Err::<(), PlanFailure>(
                PlanFailure::Lookup(plan.repos.spec_get_recipe(names[k + j])->Err_0),
            ),
        plan.spec_prints_from(names, k).0.len() <= names.len() - k,
        plan.spec_prints_from(names, k).1 is Ok ==> plan.spec_prints_from(names, k).0.len()
            == names.len() - k,
        plan.spec_prints_from(names, k).1 matches Err(PlanFailure::Missing(n)) ==> k
            + plan.spec_prints_from(names, k).0.len() < names.len() && n == names[k
            + plan.spec_prints_from(names, k).0.len()] && plan.prints.spec_get(n) is None,
    decreases names.len() - k,
{
    if k < names.len() {
        law_prints_follow_the_names(plan, names, k + 1);
        let all = plan.spec_prints_from(names, k);
        let rest = plan.spec_prints_from(names, k + 1);
        if all.0.len() > 0 {
            if plan.repos.spec_get_recipe(names[k]) is Ok {
                assert(all.0 == seq![all.0[0]] + rest.0);
            } else {
                assert(all.0.len() == 1);
            }
            assert forall|j: int| 0 <= j < all.0.len() implies k + j < names.len() && print_line_fits(
                plan,
                #[trigger] all.0[j],
                names[k + j],
            ) by {
                if j > 0 {
                    assert(all.0[j] == rest.0[j - 1]);
                    assert(names[k + 1 + (j - 1)] == names[k + j]);
                }
            }
            assert forall|j: int| 0 <= j < all.0.len() && (#[trigger] all.0[j]).part is None implies j
                == all.0.len() - 1 && all.1 == Err::<(), PlanFailure>(
                PlanFailure::Lookup(plan.repos.spec_get_recipe(names[k + j])->Err_0),
            ) by {
                if j > 0 {
                    assert(all.0[j] == rest.0[j - 1]);
                    assert(names[k + 1 + (j - 1)] == names[k + j]);
                }
            }
        }
    }
}

/// The printed parts are the plan's parts in ascending name order, each
/// as `print_line_fits` says; when nothing fails, every part has an entry.
pub proof fn law_prints_list_the_parts_in_name_order(plan: BuildPlan)
    ensures
        forall|j: int|
            0 <= j < plan.spec_prints().0.len() ==> j < plan.prints.keys().len() && print_line_fits(
                plan,
                #[trigger] plan.spec_prints().0[j],
                sort_seq(plan.prints.keys())[j],
            ),
        plan.spec_prints().1 is Ok ==> plan.spec_prints().0.len() == plan.prints.keys().len(),
{
    let names = sort_seq(plan.prints.keys());
    lemma_sort_seq(plan.prints.keys());
    law_prints_follow_the_names(plan, names, 0);
    assert forall|j: int| 0 <= j < plan.spec_prints().0.len() implies j < plan.prints.keys().len()
        && print_line_fits(plan, #[trigger] plan.spec_prints().0[j], names[j]) by {
        assert(plan.spec_prints_from(names, 0).0[j] == plan.spec_prints().0[j]);
        assert(names[0 + j] == names[j]);
    }
}

/// The chapter on `name`, made by `recipe`: its tools and skills, sorted;
/// its inputs, sorted by name, each with its quantity and how it is
/// obtained; and its process, if its action is one.
pub open spec fn spec_chapter(repos: Repos, name: Seq<char>, recipe: Recipe) -> ChapterView {
    ChapterView {
        name,
        tools: match recipe.dependencies.tools {
            Some(t) => Some(sort_seq(string_views(t@))),
            None => None,
        },
        skills: match recipe.dependencies.operator {
            Some(op) => if op.skills@.len() > 0 {
                Some(sort_seq(string_views(op.skills@)))
            } else {
                None
            },
            None => None,
        },
        inputs: sort_seq(recipe.inputs.keys()).map_values(
            |n: Seq<char>|
                ChapterInputView {
                    name: n,
                    quantity: recipe.inputs.spec_get(n)->0.quantity,
                    kind: spec_input_kind(repos.spec_get_recipe(n)->Ok_0),
                },
        ),
        process: match recipe.action {
            Action::process(p) => Some(p@),
            _ => None,
        },
    }
}

/// `s` holds the names of `of`, each as often, in ascending order.
pub open spec fn sorted_copy(s: Seq<Seq<char>>, of: Seq<Seq<char>>) -> bool {
    &&& s.to_multiset() == of.to_multiset()
    &&& sorted_le(s)
}

/// The chapter on `name`, made by `recipe`, is titled `name` and says:
/// - its tools: the recipe's tools, sorted, when the recipe lists tools;
/// - its operator skills: the recipe's skills, sorted, when the recipe's
///   operator lists at least one, and none otherwise;
/// - its inputs: one for each input of the recipe, in ascending name
///   order, each with the quantity the recipe lists and how its own recipe
///   obtains it (bought as a vitamin, printed, or assembled);
/// - its process: the recipe's, when its action is a process.
pub proof fn law_chapter_describes_its_recipe(repos: Repos, name: Seq<char>, recipe: Recipe)
    ensures
        spec_chapter(repos, name, recipe).name == name,
        spec_chapter(repos, name, recipe).tools is Some <==> recipe.dependencies.tools is Some,
        recipe.dependencies.tools matches Some(t) ==> sorted_copy(
            spec_chapter(repos, name, recipe).tools->0,
            string_views(t@),
        ),
        spec_chapter(repos, name, recipe).skills is Some <==> (
        recipe.dependencies.operator matches Some(op) && op.skills@.len() > 0),
        recipe.dependencies.operator matches Some(op) ==> (op.skills@.len() > 0 ==> sorted_copy(
            spec_chapter(repos, name, recipe).skills->0,
            string_views(op.skills@),
        )),
        match recipe.action {
            Action::process(p) => spec_chapter(repos, name, recipe).process == Some(p@),
            _ => spec_chapter(repos, name, recipe).process is None,
        },
        sorted_copy(
            spec_chapter(repos, name, recipe).inputs.map_values(|i: ChapterInputView| i.name),
            recipe.inputs.keys(),
        ),
        forall|m: int|
            0 <= m < spec_chapter(repos, name, recipe).inputs.len() ==> exists|k: int|
                0 <= k < recipe.inputs.keys().len() && recipe.inputs.keys()[k] == (
                #[trigger] spec_chapter(repos, name, recipe).inputs[m]).name
                    && spec_chapter(repos, name, recipe).inputs[m].quantity
                    == recipe.inputs.values()[k].quantity,
        forall|m: int|
            0 <= m < spec_chapter(repos, name, recipe).inputs.len() ==> match repos.spec_get_recipe(
                (#[trigger] spec_chapter(repos, name, recipe).inputs[m]).name,
            ) {
                Ok(r) => if r.spec_is_vitamin() {
                    spec_chapter(repos, name, recipe).inputs[m].kind == InputKind::Vitamin
                } else if r.spec_is_print() {
                    spec_chapter(repos, name, recipe).inputs[m].kind == InputKind::Printed
                } else {
                    spec_chapter(repos, name, recipe).inputs[m].kind == InputKind::Assembled
                },
                Err(_) => true,
            },
{
    let c = spec_chapter(repos, name, recipe);
    let keys = recipe.inputs.keys();
    recipe.inputs.lemma_lengths();
    lemma_sort_seq(keys);
    if let Some(t) = recipe.dependencies.tools {
        lemma_sort_seq(string_views(t@));
    }
    if let Some(op) = recipe.dependencies.operator {
        lemma_sort_seq(string_views(op.skills@));
    }
    assert(c.inputs.map_values(|i: ChapterInputView| i.name) =~= sort_seq(keys));
    assert forall|m: int| 0 <= m < c.inputs.len() implies exists|k: int|
        0 <= k < keys.len() && keys[k] == (#[trigger] c.inputs[m]).name && c.inputs[m].quantity
            == recipe.inputs.values()[k].quantity by {
        let n = sort_seq(keys)[m];
        assert(sort_seq(keys).contains(n));
        assert(keys.contains(n));
        let k = keys.index_of(n);
        assert(keys[k] == n);
    }
}

/// Every chapter planned is the chapter on an assembly made by a process,
/// as its recipe (the one its name looks up) says.
pub proof fn law_chapters_are_of_assemblies(repos: Repos, names: Seq<Seq<char>>, fuel: nat)
    ensures
        forall|j: int|
            0 <= j < spec_chapters(repos, names, fuel).0.len() ==> {
                let c = #[trigger] spec_chapters(repos, names, fuel).0[j];
                &&& repos.spec_get_recipe(c.name) is Ok
                &&& !repos.spec_get_recipe(c.name)->Ok_0.spec_is_vitamin()
                &&& !repos.spec_get_recipe(c.name)->Ok_0.spec_is_print()
                &&& repos.spec_get_recipe(c.name)->Ok_0.action is process
                &&& c == spec_chapter(repos, c.name, repos.spec_get_recipe(c.name)->Ok_0)
            },
    decreases fuel, names.len(),
{
    if names.len() > 0 {
        let all = spec_chapters(repos, names, fuel);
        let rest = names.drop_first();
        match repos.spec_get_recipe(names[0]) {
            Err(_) => {},
            Ok(recipe) => {
                if recipe.spec_is_vitamin() || recipe.spec_is_print() {
                    law_chapters_are_of_assemblies(repos, rest, fuel);
                } else if fuel > 0 {
                    let inputs = sort_seq(recipe.inputs.keys());
                    let sub = spec_chapters(repos, inputs, (fuel - 1) as nat);
                    law_chapters_are_of_assemblies(repos, inputs, (fuel - 1) as nat);
                    if sub.1 is Complete && spec_chapter(repos, names[0], recipe).process is Some {
                        let ch = spec_chapter(repos, names[0], recipe);
                        let restc = spec_chapters(repos, rest, fuel);
                        law_chapters_are_of_assemblies(repos, rest, fuel);
                        let s = sub.0.len() as int;
                        assert(all.0 == sub.0 + seq![ch] + restc.0);
                        assert forall|j: int| 0 <= j < all.0.len() implies {
                            let c = #[trigger] all.0[j];
                            &&& repos.spec_get_recipe(c.name) is Ok
                            &&& !repos.spec_get_recipe(c.name)->Ok_0.spec_is_vitamin()
                            &&& !repos.spec_get_recipe(c.name)->Ok_0.spec_is_print()
                            &&& repos.spec_get_recipe(c.name)->Ok_0.action is process
                            &&& c == spec_chapter(repos, c.name, repos.spec_get_recipe(c.name)->Ok_0)
                        } by {
                            if j < s {
                                assert(all.0[j] == sub.0[j]);
                            } else if j == s {
                                assert(all.0[j] == ch);
                            } else {
                                assert(all.0[j] == restc.0[j - s - 1]);
                            }
                        }
                    }
                }
            },
        }
    }
}

/// The chapters for `names`, in order, each preceded by the chapters for
/// its inputs (in order of input name): a depth-first walk of the recipes
/// that writes a chapter after the chapters below it. Vitamins and prints
/// get no chapter. At most `fuel` levels of assemblies are expanded. An
/// assembly whose action is not a process ends the walk, after the
/// chapters below it, with `ActionNotAProcess`: writing the book panics
/// there.
pub open spec fn spec_chapters(repos: Repos, names: Seq<Seq<char>>, fuel: nat) -> (
    Seq<ChapterView>,
    ChaptersEndView,
)
    decreases fuel, names.len(),
{
    if names.len() == 0 {
        (Seq::empty(), ChaptersEndView::Complete)
    } else {
        let name = names[0];
        match repos.spec_get_recipe(name) {
            Err(f) => (Seq::empty(), ChaptersEndView::Failed(PlanFailure::Lookup(f))),
            Ok(recipe) => if recipe.spec_is_vitamin() || recipe.spec_is_print() {
                spec_chapters(repos, names.drop_first(), fuel)
            } else if fuel == 0 {
                (Seq::empty(), ChaptersEndView::DepthExhausted)
            } else {
                let sub = spec_chapters(repos, sort_seq(recipe.inputs.keys()), (fuel - 1) as nat);
                if !(sub.1 is Complete) {
                    sub
                } else {
                    let chapter = spec_chapter(repos, name, recipe);
                    if chapter.process is None {
                        (sub.0, ChaptersEndView::ActionNotAProcess(name))
                    } else {
                        let rest = spec_chapters(repos, names.drop_first(), fuel);
                        (sub.0 + seq![chapter] + rest.0, rest.1)
                    }
                }
            },
        }
    }
}

/// When the chapters for `names` are all planned, every one of the names
/// could be looked up.
pub proof fn lemma_chapters_complete_lookups(repos: Repos, names: Seq<Seq<char>>, fuel: nat)
    requires
        spec_chapters(repos, names, fuel).1 is Complete,
    ensures
        forall|k: int| 0 <= k < names.len() ==> (#[trigger] repos.spec_get_recipe(names[k])) is Ok,
    decreases fuel, names.len(),
{
    if names.len() > 0 {
        let rest = names.drop_first();
        match repos.spec_get_recipe(names[0]) {
            Err(_) => {},
            Ok(recipe) => {
                if recipe.spec_is_vitamin() || recipe.spec_is_print() {
                    lemma_chapters_complete_lookups(repos, rest, fuel);
                } else if fuel > 0 {
                    lemma_chapters_complete_lookups(repos, rest, fuel);
                }
            },
        }
        assert forall|k: int| 0 <= k < names.len() implies (#[trigger] repos.spec_get_recipe(
            names[k],
        )) is Ok by {
            if k > 0 {
                assert(names[k] == rest[k - 1]);
            }
        }
    }
}


/// Chapters that fit in a depth come out the same with any larger depth
/// allowed: the depth only decides whether planning stops early.
pub proof fn law_chapters_depth_independent(
    repos: Repos,
    names: Seq<Seq<char>>,
    fuel: nat,
    more: nat,
)
    requires
        !(spec_chapters(repos, names, fuel).1 is DepthExhausted),
    ensures
        spec_chapters(repos, names, fuel + more) == spec_chapters(repos, names, fuel),
    decreases fuel, names.len(),
{
    if names.len() > 0 {
        let rest = names.drop_first();
        match repos.spec_get_recipe(names[0]) {
            Err(_) => {},
            Ok(recipe) => {
                if recipe.spec_is_vitamin() || recipe.spec_is_print() {
                    law_chapters_depth_independent(repos, rest, fuel, more);
                } else if fuel > 0 {
                    let inputs = sort_seq(recipe.inputs.keys());
                    let sub = spec_chapters(repos, inputs, (fuel - 1) as nat);
                    law_chapters_depth_independent(repos, inputs, (fuel - 1) as nat, more);
                    assert((fuel + more - 1) as nat == (fuel - 1) as nat + more);
                    if sub.1 is Complete && spec_chapter(repos, names[0], recipe).process is Some {
                        law_chapters_depth_independent(repos, rest, fuel, more);
                    }
                }
            },
        }
    }
}

/// Whether the recipe `name` is an assembly: it can be looked up and is
/// neither a vitamin nor a print.
pub open spec fn is_assembly(repos: Repos, name: Seq<char>) -> bool {
    &&& repos.spec_get_recipe(name) is Ok
    &&& !repos.spec_get_recipe(name)->Ok_0.spec_is_vitamin()
    &&& !repos.spec_get_recipe(name)->Ok_0.spec_is_print()
}

/// When the chapters for `names` are all planned, each assembly among the
/// names has a chapter.
pub proof fn lemma_chapters_cover_assemblies(repos: Repos, names: Seq<Seq<char>>, fuel: nat)
    requires
        spec_chapters(repos, names, fuel).1 is Complete,
    ensures
        forall|k: int|
            0 <= k < names.len() && is_assembly(repos, #[trigger] names[k]) ==> exists|j: int|
                0 <= j < spec_chapters(repos, names, fuel).0.len() && (#[trigger] spec_chapters(
                    repos,
                    names,
                    fuel,
                ).0[j]).name == names[k],
    decreases fuel, names.len(),
{
    if names.len() > 0 {
        let all = spec_chapters(repos, names, fuel);
        let rest = names.drop_first();
        match repos.spec_get_recipe(names[0]) {
            Err(_) => {},
            Ok(recipe) => {
                if recipe.spec_is_vitamin() || recipe.spec_is_print() {
                    lemma_chapters_cover_assemblies(repos, rest, fuel);
                    assert forall|k: int|
                        0 <= k < names.len() && is_assembly(repos, #[trigger] names[k]) implies exists|j: int|
                        0 <= j < all.0.len() && (#[trigger] all.0[j]).name == names[k] by {
                        assert(k > 0);
                        assert(names[k] == rest[k - 1]);
                    }
                } else if fuel > 0 {
                    let inputs = sort_seq(recipe.inputs.keys());
                    let sub = spec_chapters(repos, inputs, (fuel - 1) as nat);
                    let restc = spec_chapters(repos, rest, fuel);
                    lemma_chapters_cover_assemblies(repos, rest, fuel);
                    assert(all.0 == sub.0 + seq![spec_chapter(repos, names[0], recipe)] + restc.0);
                    assert forall|k: int|
                        0 <= k < names.len() && is_assembly(repos, #[trigger] names[k]) implies exists|j: int|
                        0 <= j < all.0.len() && (#[trigger] all.0[j]).name == names[k] by {
                        if k == 0 {
                            assert(all.0[sub.0.len() as int].name == names[0]);
                        } else {
                            assert(names[k] == rest[k - 1]);
                            let j = choose|j: int|
                                0 <= j < restc.0.len() && (#[trigger] restc.0[j]).name == rest[k - 1];
                            assert(all.0[sub.0.len() + 1 + j] == restc.0[j]);
                        }
                    }
                }
            },
        }
    }
}

/// The chapters come in depth-first order: every chapter comes after a
/// chapter for each of its inputs that is an assembly.
pub proof fn law_chapters_after_their_inputs(repos: Repos, names: Seq<Seq<char>>, fuel: nat)
    requires
        spec_chapters(repos, names, fuel).1 is Complete,
    ensures
        forall|j: int, m: int|
            0 <= j < spec_chapters(repos, names, fuel).0.len() && 0 <= m < (
            #[trigger] spec_chapters(repos, names, fuel).0[j]).inputs.len() && (
            #[trigger] spec_chapters(repos, names, fuel).0[j].inputs[m]).kind
                == InputKind::Assembled ==> exists|i: int|
                0 <= i < j && (#[trigger] spec_chapters(repos, names, fuel).0[i]).name
                    == spec_chapters(repos, names, fuel).0[j].inputs[m].name,
    decreases fuel, names.len(),
{
    if names.len() > 0 {
        let all = spec_chapters(repos, names, fuel).0;
        let rest = names.drop_first();
        match repos.spec_get_recipe(names[0]) {
            Err(_) => {},
            Ok(recipe) => {
                if recipe.spec_is_vitamin() || recipe.spec_is_print() {
                    law_chapters_after_their_inputs(repos, rest, fuel);
                } else if fuel > 0 {
                    let inputs = sort_seq(recipe.inputs.keys());
                    let sub = spec_chapters(repos, inputs, (fuel - 1) as nat);
                    let restc = spec_chapters(repos, rest, fuel);
                    let ch = spec_chapter(repos, names[0], recipe);
                    law_chapters_after_their_inputs(repos, inputs, (fuel - 1) as nat);
                    law_chapters_after_their_inputs(repos, rest, fuel);
                    lemma_chapters_cover_assemblies(repos, inputs, (fuel - 1) as nat);
                    lemma_chapters_complete_lookups(repos, inputs, (fuel - 1) as nat);
                    assert(all == sub.0 + seq![ch] + restc.0);
                    let s = sub.0.len() as int;
                    assert forall|j: int, m: int|
                        0 <= j < all.len() && 0 <= m < (#[trigger] all[j]).inputs.len() && (
                        #[trigger] all[j].inputs[m]).kind == InputKind::Assembled implies exists|i: int|
                        0 <= i < j && (#[trigger] all[i]).name == all[j].inputs[m].name by {
                        if j < s {
                            assert(all[j] == sub.0[j]);
                            let i = choose|i: int|
                                0 <= i < j && (#[trigger] sub.0[i]).name == sub.0[j].inputs[m].name;
                            assert(all[i] == sub.0[i]);
                        } else if j == s {
                            assert(all[j] == ch);
                            let n = inputs[m];
                            assert(ch.inputs[m].name == n);
                            assert(repos.spec_get_recipe(n) is Ok);
                            assert(is_assembly(repos, n));
                            let i = choose|i: int|
                                0 <= i < sub.0.len() && (#[trigger] sub.0[i]).name == inputs[m];
                            assert(all[i] == sub.0[i]);
                        } else {
                            let jr = j - s - 1;
                            assert(all[j] == restc.0[jr]);
                            let ir = choose|ir: int|
                                0 <= ir < jr && (#[trigger] restc.0[ir]).name == restc.0[jr].inputs[m].name;
                            assert(all[ir + s + 1] == restc.0[ir]);
                        }
                    }
                }
            },
        }
    }
}


/// The chapter on `name`, made by `recipe`.
fn build_chapter(repos: &Repos, name: &String, recipe: &Recipe) -> (r: Chapter)
    requires
        recipe.action is process,
        forall|k: int|
            0 <= k < sort_seq(recipe.inputs.keys()).len() ==> (#[trigger] repos.spec_get_recipe(
                sort_seq(recipe.inputs.keys())[k],
            )) is Ok,
    ensures
        r@ == spec_chapter(*repos, name@, *recipe),
{
    let ghost spec = spec_chapter(*repos, name@, *recipe);
    let tools = match &recipe.dependencies.tools {
        Some(t) => Some(sort_strings(t)),
        None => None,
    };
    let skills = match &recipe.dependencies.operator {
        Some(op) => if op.skills.len() > 0 {
            Some(sort_strings(&op.skills))
        } else {
            None
        },
        None => None,
    };
    let names = recipe.inputs.sorted_keys();
    let ghost ns = string_views(names@);
    let mut inputs: Vec<ChapterInput> = Vec::new();
    let n = names.len();
    for k in 0..n
        invariant
            n == names@.len(),
            ns == string_views(names@),
            ns == sort_seq(recipe.inputs.keys()),
            forall|s: Seq<char>| ns.contains(s) <==> recipe.inputs.keys().contains(s),
            forall|j: int| 0 <= j < ns.len() ==> (#[trigger] repos.spec_get_recipe(ns[j])) is Ok,
            spec == spec_chapter(*repos, name@, *recipe),
            chapter_input_views(inputs@) == spec.inputs.take(k as int),
    {
        let input_name = &names[k];
        assert(input_name@ == ns[k as int]);
        assert(ns.contains(ns[k as int]));
        let found = recipe.inputs.get(input_name.as_str());
        let info = found.unwrap();
        let looked_up = repos.get_recipe(input_name.as_str());
        assert(repos.spec_get_recipe(ns[k as int]) is Ok);
        let input_recipe = looked_up.unwrap();
        let kind = if input_recipe.is_vitamin() {
            InputKind::Vitamin
        } else if input_recipe.is_print() {
            InputKind::Printed
        } else {
            InputKind::Assembled
        };
        let ghost before = inputs@;
        inputs.push(ChapterInput { name: input_name.clone(), quantity: info.quantity, kind });
        assert(chapter_input_views(inputs@) =~= chapter_input_views(before).push(
            chapter_input_views(inputs@)[k as int],
        ));
        assert(chapter_input_views(inputs@) =~= spec.inputs.take(k + 1));
    }
    let process = match &recipe.action {
        Action::process(p) => p.clone(),
        // Ruled out: the recipe's action is a process.
        _ => String::new(),
    };
    let r = Chapter { name: name.clone(), tools, skills, inputs, process };
    proof {
        assert(spec.inputs.take(n as int) =~= spec.inputs);
        assert(r@.inputs == spec.inputs);
        assert(r@.tools == spec.tools);
        assert(r@.skills == spec.skills);
        assert(r@.process == spec.process);
    }
    r
}

/// The walk of the chapters ends with every chapter planned or with an
/// error: it was not cut short for want of depth, nor stopped at an
/// assembly whose action is not a process.
pub open spec fn chapters_end_well(e: ChaptersEndView) -> bool {
    e is Complete || e is Failed
}

/// The walk of the chapters for `names`, with `fuel` levels of assemblies,
/// ends well.
pub open spec fn chapters_end_well_at(repos: Repos, names: Seq<Seq<char>>, fuel: nat) -> bool {
    chapters_end_well(spec_chapters(repos, names, fuel).1)
}

/// The chapters for `names` can be planned: with enough depth the walk
/// ends well. Otherwise writing them never ends (the recipes nest in a
/// cycle) or panics (at an assembly whose action is not a process).
pub open spec fn chapters_plannable(repos: Repos, names: Seq<Seq<char>>) -> bool {
    exists|f: nat| #[trigger] chapters_end_well_at(repos, names, f)
}

/// The chapters for `names`, when they can be planned: the walk with any
/// depth that lets it end well.
pub open spec fn spec_all_chapters(repos: Repos, names: Seq<Seq<char>>) -> (
    Seq<ChapterView>,
    ChaptersEndView,
) {
    spec_chapters(repos, names, choose|f: nat| chapters_end_well_at(repos, names, f))
}

/// Appends the chapters for `names` to `out`. The walk with `fuel` levels
/// of assemblies ends well, so it plans them all.
fn chapters_into(
    repos: &Repos,
    names: &Vec<String>,
    Ghost(fuel): Ghost<nat>,
    out: &mut Vec<Chapter>,
) -> (end: ChaptersEnd)
    requires
        chapters_end_well_at(*repos, string_views(names@), fuel),
    ensures
        chapter_views(final(out)@) == chapter_views(old(out)@) + spec_chapters(
            *repos,
            string_views(names@),
            fuel,
        ).0,
        end@ == spec_chapters(*repos, string_views(names@), fuel).1,
    decreases fuel,
{
    let ghost ns = string_views(names@);
    let ghost start = chapter_views(out@);
    let ghost whole = spec_chapters(*repos, ns, fuel);
    let n = names.len();
    assert(ns.skip(0) =~= ns);
    for k in 0..n
        invariant
            n == names@.len(),
            ns == string_views(names@),
            whole == spec_chapters(*repos, ns, fuel),
            chapters_end_well(whole.1),
            start == chapter_views(old(out)@),
            chapter_views(out@) + spec_chapters(*repos, ns.skip(k as int), fuel).0 == start
                + whole.0,
            spec_chapters(*repos, ns.skip(k as int), fuel).1 == whole.1,
    {
        let ghost here = spec_chapters(*repos, ns.skip(k as int), fuel);
        let ghost rest_names = ns.skip(k + 1);
        let ghost before = chapter_views(out@);
        proof {
            assert(ns.skip(k as int)[0] == ns[k as int]);
            assert(ns.skip(k as int).drop_first() =~= rest_names);
        }
        let name = &names[k];
        assert(name@ == ns[k as int]);
        let recipe = match repos.get_recipe(name.as_str()) {
            Ok(recipe) => recipe,
            Err(e) => {
                assert(chapter_views(out@) =~= chapter_views(out@) + here.0);
                return ChaptersEnd::Failed(PlanError::RecipeLookupError(e));
            },
        };
        if recipe.is_vitamin() || recipe.is_print() {
        } else {
            assert(fuel > 0);
            let inputs = recipe.inputs.sorted_keys();
            let ghost sub = spec_chapters(*repos, string_views(inputs@), (fuel - 1) as nat);
            assert(chapters_end_well(sub.1));
            let end = chapters_into(repos, &inputs, Ghost((fuel - 1) as nat), out);
            match end {
                ChaptersEnd::Complete => {},
                _ => {
                    assert(chapter_views(out@) =~= before + here.0);
                    return end;
                },
            }
            proof {
                lemma_chapters_complete_lookups(*repos, string_views(inputs@), (fuel - 1) as nat);
            }
            let chapter = build_chapter(repos, name, recipe);
            let ghost cv = chapter@;
            let ghost mid = out@;
            out.push(chapter);
            proof {
                let rest = spec_chapters(*repos, rest_names, fuel);
                assert(chapter_views(out@) =~= chapter_views(mid).push(cv));
                assert(here.0 =~= sub.0 + seq![cv] + rest.0);
                assert(chapter_views(out@) + rest.0 =~= before + here.0);
            }
        }
    }
    assert(chapter_views(out@) =~= chapter_views(out@) + spec_chapters(
        *repos,
        ns.skip(n as int),
        fuel,
    ).0);
    ChaptersEnd::Complete
}

impl<'a> BuildPlan<'a> {
    /// The chapters of the book, starting the walk at the thing this plan
    /// builds. They must be plannable (see `chapters_are_plannable`):
    /// writing them otherwise panics or never ends.
    pub fn chapters(&self) -> (r: (Vec<Chapter>, ChaptersEnd))
        requires
            chapters_plannable(*self.repos, seq![self.name@]),
        ensures
            (chapter_views(r.0@), r.1@) == spec_all_chapters(*self.repos, seq![self.name@]),
    {
        let ghost top = seq![self.name@];
        let ghost fuel = choose|f: nat| chapters_end_well_at(*self.repos, top, f);
        let mut names: Vec<String> = Vec::new();
        names.push(String::from_str(self.name));
        assert(string_views(names@) =~= top);
        let mut out: Vec<Chapter> = Vec::new();
        let end = chapters_into(self.repos, &names, Ghost(fuel), &mut out);
        assert(chapter_views(out@) =~= chapter_views(Seq::<Chapter>::empty()) + spec_chapters(
            *self.repos,
            top,
            fuel,
        ).0);
        (out, end)
    }
}

} // verus!
