use tools::graph::{ActionLabel, GraphObject, WalkEnd};
use tools::names::NameMap;
use tools::quantity::{Quantity, Unit};
use tools::recipe::{Action, Dependencies, Input, Output, PrintedPart, Purchase, Recipe};
use tools::repo::Repo;
use tools::repos::{RecipeCompileError, RecipeLookupError, Repos};

fn qty(amount: f32, unit: Option<Unit>) -> Quantity {
    Quantity { amount_bits: amount.to_bits(), unit }
}

fn recipe(inputs: &[(&str, Quantity)], action: Action, outputs: Option<&[(&str, Quantity)]>) -> Recipe {
    let mut table = NameMap::new();
    for (name, q) in inputs {
        table.insert(name.to_string(), Input { quantity: *q });
    }
    let outputs = outputs.map(|list| {
        let mut out = NameMap::new();
        for (name, q) in list {
            out.insert(name.to_string(), Output { quantity: *q, image: None, comment: None });
        }
        out
    });
    Recipe { inputs: table, dependencies: Dependencies { tools: None, operator: None }, action, outputs, path: None }
}

fn buy() -> Action {
    Action::purchase(Purchase { vendor: vec!["https://example.com".into()], documentation: None })
}

fn pump_repo() -> Repo {
    let mut repo = Repo::with_path(std::path::PathBuf::from("/pump"));
    repo.add_recipe(
        "pump".into(),
        recipe(&[("hub", qty(2.0, None)), ("nut", qty(1.0, None))], Action::process("screw together".into()), None),
    );
    repo.add_recipe(
        "hub".into(),
        recipe(
            &[("filament", qty(12.0, Some(Unit::Gram)))],
            Action::print(PrintedPart { model: "hub.stl".into(), profile: "pla".into() }),
            None,
        ),
    );
    repo.add_recipe(
        "filament".into(),
        recipe(&[("capital", qty(20.0, Some(Unit::USDollar)))], buy(), Some(&[("filament", qty(1000.0, Some(Unit::Gram)))])),
    );
    repo.add_recipe(
        "nut".into(),
        recipe(&[("capital", qty(5.0, Some(Unit::USDollar)))], buy(), Some(&[("nut", qty(100.0, None))])),
    );
    repo
}

fn is_simple_uuid_v4(id: &str) -> bool {
    let b = id.as_bytes();
    id.len() == 32
        && id.chars().all(|c| c.is_ascii_digit() || ('a'..='f').contains(&c))
        && b[12] == b'4'
        && b"89ab".contains(&b[16])
}

#[test]
fn graph_of_a_pump() {
    let mut repos = Repos::default();
    repos.insert_repo("pump".into(), pump_repo());
    let (edges, end) = repos.compile_graph("pump").unwrap();
    assert!(matches!(end, WalkEnd::Complete));
    assert_eq!(edges.len(), 3);
    // hub, then what the hub is made of, then the nut.
    assert_eq!(edges[0].parent, "pump");
    assert!(matches!(&edges[0].object, GraphObject::Named(n) if n == "hub"));
    assert!(matches!(&edges[0].action, ActionLabel::Print(p) if p.model == "hub.stl"));
    assert!(edges[0].cost.is_none());
    assert_eq!(edges[0].quantity.map(|q| q.amount_bits), Some(2.0f32.to_bits()));
    assert_eq!(edges[1].parent, "hub");
    match &edges[1].object {
        GraphObject::Leaf { label, id } => {
            assert_eq!(label, "filament");
            assert!(is_simple_uuid_v4(id));
        }
        _ => panic!("a vitamin gets a box of its own"),
    }
    let cost = edges[1].cost.unwrap();
    assert_eq!(f32::from_bits(cost.capital.amount_bits), 20.0);
    assert_eq!(f32::from_bits(cost.output.amount_bits), 1000.0);
    assert_eq!(f32::from_bits(cost.needed.amount_bits), 12.0);
    assert!(matches!(edges[1].action, ActionLabel::Buy));
    assert_eq!(edges[2].parent, "pump");
    assert!(matches!(&edges[2].object, GraphObject::Leaf { label, .. } if label == "nut"));
    assert!(edges[2].quantity.is_none());
}

#[test]
fn every_vitamin_use_gets_a_fresh_box() {
    let mut repo = Repo::with_path(std::path::PathBuf::from("/r"));
    repo.add_recipe("twice".into(), recipe(&[("a", qty(1.0, None)), ("b", qty(1.0, None))], Action::process("p".into()), None));
    repo.add_recipe("a".into(), recipe(&[("nut", qty(1.0, None))], Action::process("p".into()), None));
    repo.add_recipe("b".into(), recipe(&[("nut", qty(1.0, None))], Action::process("p".into()), None));
    repo.add_recipe("nut".into(), recipe(&[("capital", qty(5.0, Some(Unit::USDollar)))], buy(), Some(&[("nut", qty(1.0, None))])));
    let (edges, end) = repo.compile_graph("twice").unwrap();
    assert!(matches!(end, WalkEnd::Complete));
    let ids: Vec<&String> = edges
        .iter()
        .filter_map(|e| match &e.object {
            GraphObject::Leaf { id, .. } => Some(id),
            _ => None,
        })
        .collect();
    assert_eq!(ids.len(), 2);
    assert_ne!(ids[0], ids[1]);
}

#[test]
fn graph_of_an_unknown_target() {
    let repos = Repos::default();
    assert!(matches!(
        repos.compile_graph("nothing"),
        Err(RecipeLookupError::RecipeNotFound(n)) if n == "nothing"
    ));
    assert!(pump_repo().compile_graph("nothing").is_none());
}

#[test]
fn graph_stops_at_a_missing_input() {
    let mut repo = pump_repo();
    repo.add_recipe("kit".into(), recipe(&[("nut", qty(1.0, None)), ("ghost", qty(1.0, None)), ("hub", qty(1.0, None))], Action::process("p".into()), None));
    let (edges, end) = repo.compile_graph("kit").unwrap();
    assert_eq!(edges.len(), 1);
    assert!(matches!(end, WalkEnd::Failed(RecipeCompileError::RecipeLookupError(RecipeLookupError::RecipeNotFound(n))) if n == "ghost"));
}

#[test]
fn graph_validates_vitamins() {
    let mut repo = Repo::with_path(std::path::PathBuf::from("/r"));
    repo.add_recipe("a".into(), recipe(&[("yen", qty(1.0, None))], Action::process("p".into()), None));
    repo.add_recipe("yen".into(), recipe(&[("capital", qty(5.0, Some(Unit::Gram)))], buy(), Some(&[("yen", qty(1.0, None))])));
    let (_, end) = repo.compile_graph("a").unwrap();
    assert!(matches!(end, WalkEnd::Failed(RecipeCompileError::VitaminCapitalHasWrongUnit(n)) if n == "yen"));

    repo.add_recipe("yen".into(), recipe(&[("capital", qty(5.0, Some(Unit::USDollar)))], buy(), None));
    let (_, end) = repo.compile_graph("a").unwrap();
    assert!(matches!(end, WalkEnd::Failed(RecipeCompileError::InputProducesNoOutput(n)) if n == "yen"));

    repo.add_recipe("yen".into(), recipe(&[("capital", qty(5.0, Some(Unit::USDollar)))], buy(), Some(&[("x", qty(1.0, None)), ("y", qty(1.0, None))])));
    assert!(!repo.graph_is_drawable("a"));
}

#[test]
fn graph_of_a_cycle_cannot_be_drawn() {
    let mut repo = Repo::with_path(std::path::PathBuf::from("/r"));
    repo.add_recipe("egg".into(), recipe(&[("hen", qty(1.0, None))], Action::process("lay".into()), None));
    repo.add_recipe("hen".into(), recipe(&[("egg", qty(1.0, None))], Action::process("hatch".into()), None));
    assert!(!repo.graph_is_drawable("egg"));
    assert!(!repo.graph_is_drawable("hen"));
    let mut repos = Repos::default();
    repos.insert_repo("farm".into(), repo);
    assert!(!repos.graph_is_drawable("egg"));
    assert!(!repos.graph_is_drawable("farm:hen"));
}

#[test]
fn graph_of_a_cycle_behind_an_error_can_be_drawn() {
    let mut repo = Repo::with_path(std::path::PathBuf::from("/r"));
    repo.add_recipe("nest".into(), recipe(&[("ghost", qty(1.0, None)), ("egg", qty(1.0, None))], Action::process("build".into()), None));
    repo.add_recipe("egg".into(), recipe(&[("hen", qty(1.0, None))], Action::process("lay".into()), None));
    repo.add_recipe("hen".into(), recipe(&[("egg", qty(1.0, None))], Action::process("hatch".into()), None));
    assert!(repo.graph_is_drawable("nest"));
    let (edges, end) = repo.compile_graph("nest").unwrap();
    assert!(edges.is_empty());
    assert!(matches!(end, WalkEnd::Failed(RecipeCompileError::RecipeLookupError(RecipeLookupError::RecipeNotFound(n))) if n == "ghost"));
}

#[test]
fn graph_drawability() {
    let repo = pump_repo();
    assert!(repo.graph_is_drawable("pump"));
    assert!(repo.graph_is_drawable("hub"));
    assert!(repo.graph_is_drawable("nothing"));
    let mut repos = Repos::default();
    repos.insert_repo("pump".into(), pump_repo());
    assert!(repos.graph_is_drawable("pump"));
    assert!(repos.graph_is_drawable("a:b:c"));
}

#[test]
fn a_shared_input_is_no_cycle() {
    let mut repo = Repo::with_path(std::path::PathBuf::from("/r"));
    repo.add_recipe("top".into(), recipe(&[("left", qty(1.0, None)), ("right", qty(1.0, None))], Action::process("join".into()), None));
    repo.add_recipe("left".into(), recipe(&[("base", qty(1.0, None))], Action::process("p".into()), None));
    repo.add_recipe("right".into(), recipe(&[("base", qty(1.0, None))], Action::process("p".into()), None));
    repo.add_recipe("base".into(), recipe(&[], Action::process("carve".into()), None));
    assert!(repo.graph_is_drawable("top"));
    let (edges, end) = repo.compile_graph("top").unwrap();
    assert!(matches!(end, WalkEnd::Complete));
    assert_eq!(edges.len(), 4);
}

#[test]
fn graph_looks_up_qualified_inputs_across_repos() {
    let mut repos = Repos::default();
    repos.insert_repo("pump".into(), pump_repo());
    let mut other = Repo::with_path(std::path::PathBuf::from("/o"));
    other.add_recipe("box".into(), recipe(&[("pump:nut", qty(3.0, None))], Action::process("pack".into()), None));
    repos.insert_repo("other".into(), other);
    let (edges, end) = repos.compile_graph("other:box").unwrap();
    assert!(matches!(end, WalkEnd::Complete));
    assert_eq!(edges.len(), 1);
    assert_eq!(edges[0].parent, "other:box");
    assert!(matches!(&edges[0].object, GraphObject::Leaf { label, .. } if label == "pump:nut"));
}

fn skeleton(edges: &[tools::graph::GraphEdge]) -> Vec<(String, String, bool)> {
    edges
        .iter()
        .map(|e| match &e.object {
            GraphObject::Named(n) => (e.parent.clone(), n.clone(), false),
            GraphObject::Leaf { label, .. } => (e.parent.clone(), label.clone(), true),
        })
        .collect()
}

#[test]
fn graph_is_the_same_when_drawn_twice() {
    let repo = pump_repo();
    let (first, _) = repo.compile_graph("pump").unwrap();
    let (second, end) = repo.compile_graph("pump").unwrap();
    assert!(matches!(end, WalkEnd::Complete));
    assert_eq!(skeleton(&first), skeleton(&second));
}

#[test]
fn edges_hang_below_drawn_assemblies() {
    let repo = pump_repo();
    let (edges, _) = repo.compile_graph("pump").unwrap();
    for (j, e) in edges.iter().enumerate() {
        let below_target = e.parent == "pump";
        let below_drawn = edges[..j]
            .iter()
            .any(|k| matches!(&k.object, GraphObject::Named(n) if *n == e.parent));
        assert!(below_target || below_drawn);
    }
}
