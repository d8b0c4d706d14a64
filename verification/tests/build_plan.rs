use tools::build_plan::{BuildPlan, ChaptersEnd, InputKind, Item, PlanError};
use tools::names::NameMap;
use tools::quantity::{Quantity, Unit};
use tools::recipe::{Action, Dependencies, Input, Operator, Output, PrintedPart, Purchase, Recipe, VitaminError};
use tools::repo::Repo;
use tools::repos::{RecipeLookupError, Repos};

fn qty(amount: f32, unit: Option<Unit>) -> Quantity {
    Quantity { amount_bits: amount.to_bits(), unit }
}

fn recipe(inputs: &[(&str, Quantity)], action: Action, outputs: Option<&[(&str, Quantity)]>, deps: Dependencies) -> Recipe {
    let mut table = NameMap::new();
    for (name, q) in inputs {
        table.insert(name.to_string(), Input { quantity: *q });
    }
    let outputs = outputs.map(|list| {
        let mut out = NameMap::new();
        for (name, q) in list {
            out.insert(name.to_string(), Output { quantity: *q, image: None, comment: None });
        }
        out
    });
    Recipe { inputs: table, dependencies: deps, action, outputs, path: None }
}

fn none() -> Dependencies {
    Dependencies { tools: None, operator: None }
}

fn buy(vendor: &str) -> Action {
    Action::purchase(Purchase { vendor: vec![vendor.into()], documentation: None })
}

fn vitamin(price: f32, output: &str) -> Recipe {
    recipe(&[("capital", qty(price, Some(Unit::USDollar)))], buy("https://shop"), Some(&[(output, qty(1.0, None))]), none())
}

fn hydro_repos() -> Repos {
    let mut repo = Repo::with_path(std::path::PathBuf::from("/hydro"));
    repo.add_recipe(
        "tower".into(),
        recipe(
            &[("pump", qty(1.0, None)), ("bucket", qty(2.0, None)), ("clip", qty(4.0, None))],
            Action::process("stack the buckets".into()),
            None,
            Dependencies {
                tools: Some(vec!["screwdriver".into(), "drill".into()]),
                operator: Some(Operator { skills: vec!["wiring".into(), "drilling".into()] }),
            },
        ),
    );
    repo.add_recipe(
        "pump".into(),
        recipe(&[("motor", qty(1.0, None))], Action::process("mount the motor".into()), None, Dependencies { tools: None, operator: Some(Operator { skills: vec![] }) }),
    );
    repo.add_recipe("bucket".into(), vitamin(3.0, "bucket"));
    repo.add_recipe("motor".into(), vitamin(12.0, "motor"));
    repo.add_recipe(
        "clip".into(),
        recipe(&[("filament", qty(2.0, Some(Unit::Gram)))], Action::print(PrintedPart { model: "clip.stl".into(), profile: "petg".into() }), None, none()),
    );
    let mut repos = Repos::default();
    repos.insert_repo("hydro".into(), repo);
    repos
}

#[test]
fn chapters_come_after_their_parts() {
    let repos = hydro_repos();
    let plan = BuildPlan::new("tower", &repos);
    let (chapters, end) = plan.chapters();
    assert!(matches!(end, ChaptersEnd::Complete));
    let names: Vec<&str> = chapters.iter().map(|c| c.name.as_str()).collect();
    assert_eq!(names, vec!["pump", "tower"]);
    let tower = &chapters[1];
    assert_eq!(tower.tools, Some(vec!["drill".to_string(), "screwdriver".to_string()]));
    assert_eq!(tower.skills, Some(vec!["drilling".to_string(), "wiring".to_string()]));
    let inputs: Vec<(&str, InputKind)> = tower.inputs.iter().map(|i| (i.name.as_str(), i.kind)).collect();
    assert_eq!(
        inputs,
        vec![("bucket", InputKind::Vitamin), ("clip", InputKind::Printed), ("pump", InputKind::Assembled)]
    );
    assert_eq!(tower.inputs[0].quantity.amount_bits, 2.0f32.to_bits());
    assert_eq!(tower.process, "stack the buckets");
    let pump = &chapters[0];
    assert_eq!(pump.tools, None);
    assert_eq!(pump.skills, None);
}

#[test]
fn chapters_of_a_vitamin_are_none() {
    let repos = hydro_repos();
    let plan = BuildPlan::new("bucket", &repos);
    let (chapters, end) = plan.chapters();
    assert!(chapters.is_empty());
    assert!(matches!(end, ChaptersEnd::Complete));
}

#[test]
fn chapters_report_missing_recipes() {
    let repos = hydro_repos();
    let plan = BuildPlan::new("nothing", &repos);
    let (chapters, end) = plan.chapters();
    assert!(chapters.is_empty());
    assert!(matches!(end, ChaptersEnd::Failed(PlanError::RecipeLookupError(RecipeLookupError::RecipeNotFound(n))) if n == "nothing"));
}

#[test]
fn chapters_of_a_cycle_cannot_be_planned() {
    let mut repo = Repo::with_path(std::path::PathBuf::from("/farm"));
    repo.add_recipe("egg".into(), recipe(&[("hen", qty(1.0, None))], Action::process("lay".into()), None, none()));
    repo.add_recipe("hen".into(), recipe(&[("egg", qty(1.0, None))], Action::process("hatch".into()), None, none()));
    let mut repos = Repos::default();
    repos.insert_repo("farm".into(), repo);
    assert!(!BuildPlan::new("egg", &repos).chapters_are_plannable());
    assert!(!BuildPlan::new("farm:hen", &repos).chapters_are_plannable());
}

#[test]
fn chapters_can_be_planned() {
    let repos = hydro_repos();
    assert!(BuildPlan::new("tower", &repos).chapters_are_plannable());
    assert!(BuildPlan::new("bucket", &repos).chapters_are_plannable());
    assert!(BuildPlan::new("nothing", &repos).chapters_are_plannable());
}

#[test]
fn bill_of_materials_in_name_order() {
    let repos = hydro_repos();
    let mut plan = BuildPlan::new("tower", &repos);
    plan.bom.insert("motor".into(), Item { name: "motor".into(), quantity: qty(1.0, None) });
    plan.bom.insert("bucket".into(), Item { name: "bucket".into(), quantity: qty(2.0, None) });
    let (entries, end) = plan.bom_entries();
    assert!(end.is_ok());
    assert_eq!(entries.len(), 2);
    assert_eq!(entries[0].name, "bucket");
    assert_eq!(f32::from_bits(entries[0].capital.amount_bits), 3.0);
    assert_eq!(entries[0].vendors, vec!["https://shop".to_string()]);
    assert_eq!(entries[1].name, "motor");
}

#[test]
fn bill_of_materials_needs_vitamins() {
    let repos = hydro_repos();
    let mut plan = BuildPlan::new("tower", &repos);
    plan.bom.insert("bucket".into(), Item { name: "bucket".into(), quantity: qty(2.0, None) });
    plan.bom.insert("pump".into(), Item { name: "pump".into(), quantity: qty(1.0, None) });
    let (entries, end) = plan.bom_entries();
    assert_eq!(entries.len(), 1);
    assert!(matches!(end, Err(PlanError::VitaminError(VitaminError::NotAVitamin))));
}

#[test]
fn printed_parts() {
    let repos = hydro_repos();
    let mut plan = BuildPlan::new("tower", &repos);
    plan.prints.insert("clip".into(), Item { name: "clip".into(), quantity: qty(4.0, None) });
    plan.prints.insert("ghost".into(), Item { name: "ghost".into(), quantity: qty(1.0, None) });
    plan.prints.insert("zz".into(), Item { name: "zz".into(), quantity: qty(1.0, None) });
    assert!(plan.prints_are_printable());
    let (entries, end) = plan.print_entries();
    assert!(matches!(end, Err(PlanError::RecipeLookupError(RecipeLookupError::RecipeNotFound(n))) if n == "ghost"));
    assert_eq!(entries.len(), 2);
    assert!(matches!(&entries[0].part, Some(p) if p.model == "clip.stl" && p.profile == "petg"));
    assert_eq!(f32::from_bits(entries[0].quantity.amount_bits), 4.0);
    assert_eq!(entries[1].name, "ghost");
    assert!(entries[1].part.is_none());
}

#[test]
fn printed_parts_need_printed_recipes() {
    let repos = hydro_repos();
    let mut plan = BuildPlan::new("tower", &repos);
    plan.prints.insert("clip".into(), Item { name: "clip".into(), quantity: qty(4.0, None) });
    plan.prints.insert("bucket".into(), Item { name: "bucket".into(), quantity: qty(1.0, None) });
    assert!(!plan.prints_are_printable());
    let mut only_clip = BuildPlan::new("tower", &repos);
    only_clip.prints.insert("clip".into(), Item { name: "clip".into(), quantity: qty(4.0, None) });
    assert!(only_clip.prints_are_printable());
    let (entries, end) = only_clip.print_entries();
    assert!(end.is_ok());
    assert_eq!(entries.len(), 1);
}

#[test]
fn a_part_behind_a_failed_lookup_is_never_reached() {
    let repos = hydro_repos();
    let mut plan = BuildPlan::new("tower", &repos);
    plan.prints.insert("aaa".into(), Item { name: "aaa".into(), quantity: qty(1.0, None) });
    plan.prints.insert("bucket".into(), Item { name: "bucket".into(), quantity: qty(1.0, None) });
    assert!(plan.prints_are_printable());
    let (entries, end) = plan.print_entries();
    assert!(end.is_err());
    assert_eq!(entries.len(), 1);
}

#[test]
fn bill_of_materials_needs_bought_items() {
    let mut repo = Repo::with_path(std::path::PathBuf::from("/shop"));
    repo.add_recipe(
        "gift".into(),
        recipe(&[("capital", qty(9.0, Some(Unit::USDollar)))], Action::process("wrap".into()), Some(&[("gift", qty(1.0, None))]), none()),
    );
    repo.add_recipe("nail".into(), vitamin(0.1, "nail"));
    let mut repos = Repos::default();
    repos.insert_repo("shop".into(), repo);
    let mut plan = BuildPlan::new("gift", &repos);
    plan.bom.insert("gift".into(), Item { name: "gift".into(), quantity: qty(1.0, None) });
    plan.bom.insert("nail".into(), Item { name: "nail".into(), quantity: qty(3.0, None) });
    assert!(!plan.bom_is_buyable());
    let mut nails = BuildPlan::new("gift", &repos);
    nails.bom.insert("nail".into(), Item { name: "nail".into(), quantity: qty(3.0, None) });
    assert!(nails.bom_is_buyable());
    let (entries, end) = nails.bom_entries();
    assert!(end.is_ok());
    assert_eq!(entries.len(), 1);
    assert_eq!(entries[0].vendors, vec!["https://shop".to_string()]);
}

#[test]
fn chapters_need_assemblies_made_by_a_process() {
    let mut repo = Repo::with_path(std::path::PathBuf::from("/kit"));
    repo.add_recipe(
        "kit".into(),
        recipe(&[("box", qty(1.0, None)), ("bag", qty(1.0, None))], Action::process("pack".into()), None, none()),
    );
    repo.add_recipe("bag".into(), recipe(&[("cloth", qty(1.0, None))], Action::process("sew".into()), None, none()));
    repo.add_recipe("cloth".into(), vitamin(2.0, "cloth"));
    repo.add_recipe(
        "box".into(),
        recipe(&[("cardboard", qty(1.0, None)), ("tape", qty(1.0, None))], buy("https://boxes"), None, none()),
    );
    repo.add_recipe("cardboard".into(), vitamin(1.0, "cardboard"));
    repo.add_recipe("tape".into(), vitamin(1.0, "tape"));
    let mut repos = Repos::default();
    repos.insert_repo("kit".into(), repo);
    assert!(!BuildPlan::new("kit", &repos).chapters_are_plannable());
    assert!(BuildPlan::new("bag", &repos).chapters_are_plannable());
}

#[test]
fn tools_and_skills_sorted() {
    let repos = Repos::default();
    let mut plan = BuildPlan::new("x", &repos);
    plan.tools.insert("saw".into());
    plan.tools.insert("awl".into());
    plan.skills.insert("welding".into());
    assert_eq!(plan.tools.sorted(), vec!["awl".to_string(), "saw".to_string()]);
    assert_eq!(plan.skills.sorted(), vec!["welding".to_string()]);
    assert_eq!(plan.name, "x");
}

#[test]
fn chapters_are_the_same_when_planned_twice() {
    let repos = hydro_repos();
    let plan = BuildPlan::new("tower", &repos);
    let (first, _) = plan.chapters();
    let (second, end) = plan.chapters();
    assert!(matches!(end, ChaptersEnd::Complete));
    let names = |cs: &Vec<tools::build_plan::Chapter>| cs.iter().map(|c| c.name.clone()).collect::<Vec<_>>();
    assert_eq!(names(&first), names(&second));
}
