//! Recipes: what goes in, what comes out, what it takes, and what to do.
use vstd::prelude::*;
use vstd::string::*;
use crate::names::NameMap;
use crate::quantity::{Quantity, Unit};
use crate::text::str_equal;

verus! {

/// Why a recipe has no unit cost.
#[derive(Debug, PartialEq, Eq, Structural)]
pub enum VitaminError {
    /// The recipe is not a vitamin.
    NotAVitamin,
    /// The vitamin's capital input is not in US dollars.
    InputsError,
    /// The vitamin does not produce exactly one output.
    OutputError,
}

/// One input of a recipe.
#[derive(Debug)]
pub struct Input {
    /// One of the thing if omitted.
    pub quantity: Quantity,
}

/// One output of a recipe.
#[derive(Debug)]
pub struct Output {
    /// One of the thing if omitted.
    pub quantity: Quantity,
    pub image: Option<String>,
    pub comment: Option<String>,
}

/// The skills that whoever follows the recipe needs.
#[derive(Debug)]
pub struct Operator {
    pub skills: Vec<String>,
}

/// What a recipe needs besides its inputs.
#[derive(Debug)]
pub struct Dependencies {
    pub tools: Option<Vec<String>>,
    pub operator: Option<Operator>,
}

/// Where to buy a thing.
#[derive(Debug)]
pub struct Purchase {
    pub vendor: Vec<String>,
    pub documentation: Option<Vec<String>>,
}

/// A part made on a 3D printer.
#[derive(Debug)]
pub struct PrintedPart {
    pub model: String,
    pub profile: String,
}

/// How the thing is made.
#[derive(Debug)]
#[allow(non_camel_case_types)]
pub enum Action {
    process(String),
    print(PrintedPart),
    purchase(Purchase),
}

/// A recipe.
#[derive(Debug)]
pub struct Recipe {
    /// Each name is the name (unique id) of a recipe in the repo, with the
    /// input's quantity.
    pub inputs: NameMap<Input>,
    pub dependencies: Dependencies,
    pub action: Action,
    /// If a recipe has no outputs, it produces one of the thing named
    /// like the recipe file.
    pub outputs: Option<NameMap<Output>>,
    /// The recipe file.
    pub path: Option<std::path::PathBuf>,
}

/// The name of the input that makes a recipe a vitamin: money.
pub open spec fn capital_name() -> Seq<char> {
    seq!['c', 'a', 'p', 'i', 't', 'a', 'l']
}

/// The output a recipe gets when its file names none: one of the thing.
pub open spec fn spec_default_output(o: Output) -> bool {
    &&& o.quantity.amount_bits == crate::quantity::ONE_BITS
    &&& o.quantity.unit is None
    &&& o.image is None
    &&& o.comment is None
}

impl PrintedPart {
    /// A copy of the printed part.
    pub fn duplicate(&self) -> (r: PrintedPart)
        ensures
            r.model@ == self.model@,
            r.profile@ == self.profile@,
    {
        PrintedPart { model: self.model.clone(), profile: self.profile.clone() }
    }
}

impl Recipe {
    /// A vitamin is a recipe whose only input is capital.
    pub open spec fn spec_is_vitamin(&self) -> bool {
        self.inputs.keys() == seq![capital_name()]
    }

    /// A print is a recipe whose action is printing.
    pub open spec fn spec_is_print(&self) -> bool {
        self.action is print
    }

    /// What the unit cost of a vitamin is computed from: the quantity of
    /// capital it takes, and the quantity of its one output.
    pub open spec fn spec_unit_cost_terms(&self) -> Result<(Quantity, Quantity), VitaminError> {
        if !self.spec_is_vitamin() {
            Err(VitaminError::NotAVitamin)
        } else if self.inputs.values()[0].quantity.unit != Some(Unit::USDollar) {
            Err(VitaminError::InputsError)
        } else {
            match self.outputs {
                None => Err(VitaminError::OutputError),
                Some(outputs) => if outputs.keys().len() != 1 {
                    Err(VitaminError::OutputError)
                } else {
                    Ok((self.inputs.values()[0].quantity, outputs.values()[0].quantity))
                },
            }
        }
    }

    /// Whether this recipe is a vitamin: its only input is "capital".
    pub fn is_vitamin(&self) -> (r: bool)
        ensures
            r == self.spec_is_vitamin(),
    {
        if self.inputs.len() != 1 {
            return false;
        }
        let r = str_equal(self.inputs.key_at(0).as_str(), "capital");
        proof {
            reveal_strlit("capital");
            assert("capital"@ =~= capital_name());
            if !r {
                assert(self.inputs.keys()[0] != seq![capital_name()][0]);
            }
            if r {
                assert(self.inputs.keys() =~= seq![capital_name()]);
            }
        }
        r
    }

    /// Whether this recipe is made by printing.
    pub fn is_print(&self) -> (r: bool)
        ensures
            r == self.spec_is_print(),
    {
        match self.action {
            Action::print(_) => true,
            _ => false,
        }
    }

    /// The quantities that the unit cost (of quantity one) is computed from:
    /// the capital it takes and the quantity of its one output. The cost
    /// is the capital's amount divided by the output's amount. Only vitamins
    /// have one.
    pub fn unit_cost_terms(&self) -> (r: Result<(Quantity, Quantity), VitaminError>)
        ensures
            r == self.spec_unit_cost_terms(),
    {
        if !self.is_vitamin() {
            return Err(VitaminError::NotAVitamin);
        }
        let capital = self.inputs.value_at(0);
        if !capital.quantity.is_dollars() {
            return Err(VitaminError::InputsError);
        }
        match &self.outputs {
            None => Err(VitaminError::OutputError),
            Some(outputs) => {
                if outputs.len() != 1 {
                    return Err(VitaminError::OutputError);
                }
                Ok((capital.quantity, outputs.value_at(0).quantity))
            },
        }
    }

    /// Completes a recipe read from `file`, whose file stem is `file_stem`:
    /// a recipe that lists no outputs produces one of the thing named by the
    /// file stem (when the file has one), and the recipe remembers its file.
    pub fn finish_loading(self, file: std::path::PathBuf, file_stem: Option<String>) -> (r: Recipe)
        ensures
            r.inputs == self.inputs,
            r.dependencies == self.dependencies,
            r.action == self.action,
            r.path == Some(file),
            match (self.outputs, file_stem) {
                (None, Some(stem)) => r.outputs matches Some(outputs) && outputs.keys() == seq![
                    stem@,
                ] && spec_default_output(outputs.values()[0]),
                _ => r.outputs == self.outputs,
            },
    {
        let Recipe { inputs, dependencies, action, outputs, path: _ } = self;
        let outputs = match outputs {
            None => match file_stem {
                Some(stem) => {
                    let mut outputs = NameMap::new();
                    let value = Output {
                        quantity: Quantity::default(),
                        image: None,
                        comment: None,
                    };
                    outputs.insert(stem, value);
                    Some(outputs)
                },
                None => None,
            },
            Some(outputs) => Some(outputs),
        };
        Recipe { inputs, dependencies, action, outputs, path: Some(file) }
    }
}


/// Only vitamins have a unit cost, and a vitamin has one exactly when its
/// capital is in US dollars and it produces exactly one output.
pub proof fn law_unit_cost_only_for_vitamins(recipe: Recipe)
    ensures
        recipe.spec_unit_cost_terms() is Ok <==> {
            &&& recipe.spec_is_vitamin()
            &&& recipe.inputs.values()[0].quantity.unit == Some(Unit::USDollar)
            &&& recipe.outputs matches Some(outputs) && outputs.keys().len() == 1
        },
{
}

} // verus!
