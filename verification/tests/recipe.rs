use tools::names::{NameMap, NameSet};
use tools::quantity::{Quantity, Unit, ONE_BITS};
use tools::recipe::{Action, Dependencies, Input, Output, PrintedPart, Purchase, Recipe, VitaminError};
use tools::text::{sort_strings, str_equal, str_less};

fn qty(amount: f32, unit: Option<Unit>) -> Quantity {
    Quantity { amount_bits: amount.to_bits(), unit }
}

fn recipe(inputs: &[(&str, Quantity)], action: Action, outputs: Option<&[(&str, Quantity)]>) -> Recipe {
    let mut table = NameMap::new();
    for (name, q) in inputs {
        table.insert(name.to_string(), Input { quantity: *q });
    }
    let outputs = outputs.map(|list| {
        let mut out = NameMap::new();
        for (name, q) in list {
            out.insert(name.to_string(), Output { quantity: *q, image: None, comment: None });
        }
        out
    });
    Recipe {
        inputs: table,
        dependencies: Dependencies { tools: None, operator: None },
        action,
        outputs,
        path: None,
    }
}

fn buy() -> Action {
    Action::purchase(Purchase { vendor: vec!["https://example.com".into()], documentation: None })
}

#[test]
fn is_vitamin() {
    let pump = recipe(
        &[("bearing_hub", qty(2.0, None)), ("m4_nuts", qty(4.0, None))],
        Action::process("assemble".into()),
        None,
    );
    let hub = recipe(
        &[("filament", qty(12.0, Some(Unit::Gram)))],
        Action::print(PrintedPart { model: "hub.stl".into(), profile: "pla".into() }),
        None,
    );
    let nuts = recipe(&[("capital", qty(5.0, Some(Unit::USDollar)))], buy(), Some(&[("m4_nuts", qty(100.0, None))]));
    let filament = recipe(
        &[("capital", qty(20.0, Some(Unit::USDollar)))],
        buy(),
        Some(&[("filament", qty(1000.0, Some(Unit::Gram)))]),
    );
    for (r, is_leaf) in [(&pump, false), (&hub, false), (&nuts, true), (&filament, true)] {
        assert_eq!(r.is_vitamin(), is_leaf);
    }
}

#[test]
fn capital_among_other_inputs_is_no_vitamin() {
    let r = recipe(
        &[("capital", qty(5.0, Some(Unit::USDollar))), ("labor", qty(1.0, None))],
        buy(),
        None,
    );
    assert!(!r.is_vitamin());
    assert_eq!(r.unit_cost_terms().map(|_| ()), Err(VitaminError::NotAVitamin));
}

#[test]
fn is_print() {
    let hub = recipe(&[], Action::print(PrintedPart { model: "m".into(), profile: "p".into() }), None);
    let nuts = recipe(&[], buy(), None);
    let pump = recipe(&[], Action::process("p".into()), None);
    assert!(hub.is_print());
    assert!(!nuts.is_print());
    assert!(!pump.is_print());
}

#[test]
fn unit_cost_terms_of_a_vitamin() {
    let nuts = recipe(&[("capital", qty(5.0, Some(Unit::USDollar)))], buy(), Some(&[("m4_nuts", qty(100.0, None))]));
    let (capital, output) = nuts.unit_cost_terms().unwrap();
    assert_eq!(f32::from_bits(capital.amount_bits) / f32::from_bits(output.amount_bits), 0.05);
    assert_eq!(capital.unit, Some(Unit::USDollar));
}

#[test]
fn unit_cost_errors() {
    let euros = recipe(&[("capital", qty(5.0, Some(Unit::Gram)))], buy(), Some(&[("x", qty(1.0, None))]));
    assert_eq!(euros.unit_cost_terms().map(|_| ()), Err(VitaminError::InputsError));
    let no_outputs = recipe(&[("capital", qty(5.0, Some(Unit::USDollar)))], buy(), None);
    assert_eq!(no_outputs.unit_cost_terms().map(|_| ()), Err(VitaminError::OutputError));
    let two_outputs = recipe(
        &[("capital", qty(5.0, Some(Unit::USDollar)))],
        buy(),
        Some(&[("a", qty(1.0, None)), ("b", qty(1.0, None))]),
    );
    assert_eq!(two_outputs.unit_cost_terms().map(|_| ()), Err(VitaminError::OutputError));
    let empty_outputs = recipe(&[("capital", qty(5.0, Some(Unit::USDollar)))], buy(), Some(&[]));
    assert_eq!(empty_outputs.unit_cost_terms().map(|_| ()), Err(VitaminError::OutputError));
}

#[test]
fn finish_loading_adds_the_default_output() {
    let r = recipe(&[], buy(), None).finish_loading(std::path::PathBuf::from("repo/m4_nuts.toml"), Some("m4_nuts".into()));
    let outputs = r.outputs.unwrap();
    assert_eq!(outputs.len(), 1);
    let out = outputs.get("m4_nuts").unwrap();
    assert_eq!(out.quantity.amount_bits, 1.0f32.to_bits());
    assert_eq!(out.quantity.unit, None);
    assert!(out.image.is_none() && out.comment.is_none());
    assert_eq!(r.path, Some(std::path::PathBuf::from("repo/m4_nuts.toml")));
}

#[test]
fn finish_loading_keeps_listed_outputs() {
    let r = recipe(&[], buy(), Some(&[("box", qty(3.0, None))]))
        .finish_loading(std::path::PathBuf::from("x.toml"), Some("x".into()));
    let outputs = r.outputs.unwrap();
    assert_eq!(outputs.len(), 1);
    assert!(outputs.get("x").is_none());
    assert_eq!(outputs.get("box").unwrap().quantity.amount_bits, 3.0f32.to_bits());
    let no_stem = recipe(&[], buy(), None).finish_loading(std::path::PathBuf::new(), None);
    assert!(no_stem.outputs.is_none());
}

#[test]
fn quantity_default_is_one_without_unit() {
    let q = Quantity::default();
    assert_eq!(q.amount_bits, ONE_BITS);
    assert_eq!(f32::from_bits(ONE_BITS), 1.0);
    assert!(q.is_plain_one());
    assert!(!qty(1.0, Some(Unit::Meter)).is_plain_one());
    assert!(!qty(2.0, None).is_plain_one());
    assert!(qty(3.0, Some(Unit::USDollar)).is_dollars());
}

#[test]
fn name_map_keeps_first_insertion_order() {
    let mut m = NameMap::new();
    m.insert("b".to_string(), 1);
    m.insert("a".to_string(), 2);
    m.insert("b".to_string(), 3);
    assert_eq!(m.len(), 2);
    assert_eq!(m.key_at(0), "b");
    assert_eq!(*m.value_at(0), 3);
    assert_eq!(m.get("a"), Some(&2));
    assert_eq!(m.get("c"), None);
    assert_eq!(m.position("a"), Some(1));
    assert!(m.contains_key("b"));
    assert_eq!(m.key_list(), vec!["b".to_string(), "a".to_string()]);
    assert_eq!(m.sorted_keys(), vec!["a".to_string(), "b".to_string()]);
}

#[test]
fn name_set_sorts_and_ignores_repeats() {
    let mut s = NameSet::new();
    s.insert("wrench".to_string());
    s.insert("drill".to_string());
    s.insert("wrench".to_string());
    assert_eq!(s.len(), 2);
    assert!(s.contains("drill"));
    assert_eq!(s.sorted(), vec!["drill".to_string(), "wrench".to_string()]);
}

#[test]
fn sorting_matches_string_order() {
    let names: Vec<String> = ["zeta", "Alpha", "alpha", "beta", "", "ä", "b", "alpha"]
        .iter()
        .map(|s| s.to_string())
        .collect();
    let mut expected = names.clone();
    expected.sort();
    assert_eq!(sort_strings(&names), expected);
}

#[test]
fn string_comparisons() {
    assert!(str_less("abc", "abd"));
    assert!(str_less("ab", "abc"));
    assert!(!str_less("abc", "ab"));
    assert!(!str_less("x", "x"));
    assert!(str_less("z", "ä"));
    assert!(str_equal("ä", "ä"));
    assert!(!str_equal("a", "ab"));
}
