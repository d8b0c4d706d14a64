use tools::names::NameMap;
use tools::quantity::{Quantity, Unit};
use tools::recipe::{Action, Dependencies, Input, Output, PrintedPart, Purchase, Recipe};
use tools::repo::{recipe_file_key, Repo};
use tools::repos::{RecipeLookupError, Repos};
use tools::recipe_id::RecipeIdParseError;

fn qty(amount: f32, unit: Option<Unit>) -> Quantity {
    Quantity { amount_bits: amount.to_bits(), unit }
}

fn no_deps() -> Dependencies {
    Dependencies { tools: None, operator: None }
}

fn vitamin(price: f32, output: &str) -> Recipe {
    let mut inputs = NameMap::new();
    inputs.insert("capital".to_string(), Input { quantity: qty(price, Some(Unit::USDollar)) });
    let mut outputs = NameMap::new();
    outputs.insert(
        output.to_string(),
        Output { quantity: qty(1.0, None), image: None, comment: None },
    );
    Recipe {
        inputs,
        dependencies: no_deps(),
        action: Action::purchase(Purchase { vendor: vec!["https://example.com".to_string()], documentation: None }),
        outputs: Some(outputs),
        path: None,
    }
}

fn assembly(inputs: &[&str], process: &str) -> Recipe {
    let mut table = NameMap::new();
    for name in inputs {
        table.insert(name.to_string(), Input { quantity: qty(1.0, None) });
    }
    Recipe {
        inputs: table,
        dependencies: no_deps(),
        action: Action::process(process.to_string()),
        outputs: None,
        path: None,
    }
}

fn print_part(input: &str) -> Recipe {
    let mut table = NameMap::new();
    table.insert(input.to_string(), Input { quantity: qty(10.0, Some(Unit::Gram)) });
    Recipe {
        inputs: table,
        dependencies: no_deps(),
        action: Action::print(PrintedPart { model: "part.stl".to_string(), profile: "pla".to_string() }),
        outputs: None,
        path: None,
    }
}

fn three_repos() -> Repos {
    let mut fasteners = Repo::with_path(std::path::PathBuf::from("/repos/fasteners"));
    fasteners.add_recipe("m4_nuts".to_string(), vitamin(5.0, "m4_nuts"));
    fasteners.add_recipe("filament".to_string(), vitamin(20.0, "filament"));
    let mut pump = Repo::with_path(std::path::PathBuf::from("/repos/peristaltic-pump"));
    pump.add_recipe("peristaltic_pump".to_string(), assembly(&["bearing_hub", "m4_nuts"], "assemble"));
    pump.add_recipe("bearing_hub".to_string(), print_part("filament"));
    let mut hydro = Repo::with_path(std::path::PathBuf::from("/repos/minimal_hydroponics_setup"));
    hydro.add_recipe("barb_fitting_1_2_inch".to_string(), vitamin(1.5, "barb_fitting_1_2_inch"));
    let mut repos = Repos::default();
    repos.insert_repo("fasteners".to_string(), fasteners);
    repos.insert_repo("peristaltic-pump".to_string(), pump);
    repos.insert_repo("minimal_hydroponics_setup".to_string(), hydro);
    repos
}

#[test]
fn empty_repos() {
    let empty_repos = Repos::default();
    assert_eq!(
        empty_repos.get_recipe("nonexistent".into()).map(|_| ()),
        Err(RecipeLookupError::RecipeNotFound("nonexistent".into()))
    );
}

#[test]
fn load_two_repos() {
    let mut repos = Repos::default();
    repos.insert_repo("fasteners".to_string(), Repo::with_path(std::path::PathBuf::from("/f")));
    repos.insert_repo("peristaltic-pump".to_string(), Repo::with_path(std::path::PathBuf::from("/p")));
    assert_eq!(repos.len(), 2);
    let _fasteners = repos.get_repo("fasteners").unwrap();
    let _peristaltic_pump = repos.get_repo("peristaltic-pump").unwrap();
}

#[test]
fn get_recipe() {
    let repos = three_repos();
    let _r = repos.get_recipe("peristaltic_pump").unwrap();
    let _r = repos.get_recipe("m4_nuts").unwrap();
    let _r = repos.get_recipe("fasteners:m4_nuts").unwrap();
    let _r = repos.get_recipe("barb_fitting_1_2_inch").unwrap();
}

#[test]
fn qualified_lookup_looks_only_in_that_repo() {
    let repos = three_repos();
    assert_eq!(
        repos.get_recipe("peristaltic-pump:m4_nuts").map(|_| ()),
        Err(RecipeLookupError::RecipeNotFound("peristaltic-pump:m4_nuts".into()))
    );
    assert_eq!(
        repos.get_recipe("nowhere:m4_nuts").map(|_| ()),
        Err(RecipeLookupError::RepoNotFound("nowhere".into()))
    );
    assert!(repos.get_recipe("peristaltic-pump:bearing_hub").unwrap().is_print());
}

#[test]
fn lookup_with_two_colons_is_a_syntax_error() {
    let repos = three_repos();
    assert_eq!(
        repos.get_recipe("a:b:c").map(|_| ()),
        Err(RecipeLookupError::RecipeIdParseError(RecipeIdParseError::SyntaxError("a:b:c".into())))
    );
}

#[test]
fn plain_lookup_takes_the_first_repo_that_has_it() {
    let mut first = Repo::with_path(std::path::PathBuf::from("/a"));
    first.add_recipe("widget".to_string(), vitamin(1.0, "widget"));
    let mut second = Repo::with_path(std::path::PathBuf::from("/b"));
    second.add_recipe("widget".to_string(), assembly(&[], "make"));
    let mut repos = Repos::default();
    repos.insert_repo("a".to_string(), first);
    repos.insert_repo("b".to_string(), second);
    assert!(repos.get_recipe("widget").unwrap().is_vitamin());
    assert!(!repos.get_recipe("b:widget").unwrap().is_vitamin());
}

#[test]
fn adding_a_recipe_again_replaces_it() {
    let mut repo = Repo::with_path(std::path::PathBuf::from("/a"));
    repo.add_recipe("widget".to_string(), vitamin(1.0, "widget"));
    repo.add_recipe("widget".to_string(), assembly(&[], "make"));
    assert_eq!(repo.len(), 1);
    assert!(!repo.get_recipe("widget").unwrap().is_vitamin());
    assert!(repo.get_recipe("gadget").is_none());
    assert_eq!(repo.get_path(), std::path::Path::new("/a"));
}

#[test]
fn replacing_a_repo_keeps_one_entry() {
    let mut repos = Repos::default();
    repos.insert_repo("a".to_string(), Repo::with_path(std::path::PathBuf::from("/one")));
    repos.insert_repo("a".to_string(), Repo::with_path(std::path::PathBuf::from("/two")));
    assert_eq!(repos.len(), 1);
    assert_eq!(repos.get_repo("a").unwrap().get_path(), std::path::Path::new("/two"));
}


#[test]
fn only_toml_files_are_recipes() {
    assert_eq!(recipe_file_key(Some("toml"), Some("m4_nuts".into())), Some("m4_nuts".to_string()));
    assert_eq!(recipe_file_key(Some("md"), Some("readme".into())), None);
    assert_eq!(recipe_file_key(None, Some("Makefile".into())), None);
    assert_eq!(recipe_file_key(Some("toml"), None), None);
    assert_eq!(recipe_file_key(Some("TOML"), Some("x".into())), None);
}
