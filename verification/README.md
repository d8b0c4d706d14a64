# tools

Recipes say how to make a thing: what goes in (other things, or money for
the "vitamins" that are bought), what it takes (tools, skills) and what to do.
Recipes live in repositories; this library looks them up across repositories,
draws the build graph of a thing, and plans a book about building it.

- `src/` is the library, with its contracts and proofs: name tables and sorting
  (`names`, `text`), recipes and quantities (`recipe`, `quantity`),
  `[repo:]recipe` identifiers (`recipe_id`), repositories (`repo`, `repos`),
  the build graph (`graph`), the book plan (`build_plan`), deciding before a
  walk of the recipes whether it ends (`reach`: the recipes must not nest in
  a cycle) and the loader's simpler recipe format (`toml_recipe`).
- `app/` is the command-line program: reading recipe files and directories,
  the floating-point arithmetic on amounts, and writing PlantUML and mdbook
  files.
- `tests/` runs the library on concrete recipes.
