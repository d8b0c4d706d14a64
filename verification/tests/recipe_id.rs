use std::str::FromStr;
use tools::recipe_id::{RecipeId, RecipeIdParseError};

#[test]
fn parse_simple() {
    let r = RecipeId::from_str("hello");
    assert_eq!(
        r,
        Ok(RecipeId {
            repo: None,
            recipe: "hello".into(),
        })
    );
}

#[test]
fn parse_with_repo() {
    let r = RecipeId::from_str("my_repo:my_recipe");
    assert_eq!(
        r,
        Ok(RecipeId {
            repo: Some("my_repo".into()),
            recipe: "my_recipe".into(),
        })
    );
}

#[test]
fn parse_too_many_colons() {
    let r = RecipeId::from_str("my_repo:my_recipe:something_else");
    assert_eq!(
        r,
        Err(RecipeIdParseError::SyntaxError(
            "my_repo:my_recipe:something_else".into()
        ))
    );
}

#[test]
fn parse_empty_name() {
    assert_eq!(
        RecipeId::parse(""),
        Ok(RecipeId {
            repo: None,
            recipe: String::new(),
        })
    );
}

#[test]
fn parse_colon_at_edges() {
    assert_eq!(
        RecipeId::parse(":x"),
        Ok(RecipeId {
            repo: Some(String::new()),
            recipe: "x".into(),
        })
    );
    assert_eq!(
        RecipeId::parse("x:"),
        Ok(RecipeId {
            repo: Some("x".into()),
            recipe: String::new(),
        })
    );
    assert_eq!(
        RecipeId::parse("::"),
        Err(RecipeIdParseError::SyntaxError("::".into()))
    );
}

#[test]
fn parse_non_ascii_names() {
    assert_eq!(
        RecipeId::parse("härdware:schraube_ø4"),
        Ok(RecipeId {
            repo: Some("härdware".into()),
            recipe: "schraube_ø4".into(),
        })
    );
}
