use tools::names::NameMap;
use tools::toml_recipe::{Config, Dependency, Input, LoadedEnvironment, Output, TomlRecipe};

fn table<V>(names: &[&str], make: fn() -> V) -> NameMap<V> {
    let mut m = NameMap::new();
    for n in names {
        m.insert(n.to_string(), make());
    }
    m
}

#[test]
fn report_of_one_recipe() {
    let r = TomlRecipe::from_parts(
        "lamp".into(),
        table(&["wire", "bulb"], || Input {}),
        table(&["light"], || Output {}),
        table(&["socket"], || Dependency {}),
        Config {},
    );
    assert_eq!(
        r.report_lines(),
        vec![
            "lamp ---------------",
            " INPUTS",
            " * bulb",
            " * wire",
            "",
            " OUTPUTS",
            " * light",
            "",
            " DEPENDENCIES",
            " * socket",
        ]
    );
}

#[test]
fn report_of_an_environment() {
    let mut env = LoadedEnvironment::default();
    assert!(env.report_lines().is_empty());
    env.add(TomlRecipe::default());
    env.add(TomlRecipe::from_parts("a".into(), NameMap::new(), NameMap::new(), NameMap::new(), Config {}));
    let lines = env.report_lines();
    assert_eq!(lines.len(), 14);
    assert_eq!(lines[0], " ---------------");
    assert_eq!(lines[6], "");
    assert_eq!(lines[7], "a ---------------");
    assert_eq!(lines[13], "");
}
