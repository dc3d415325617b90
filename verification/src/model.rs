//! The records that reading produces, and what each of them stands for in
//! contracts.

use vstd::prelude::*;

use crate::chars::CharClass;
use crate::grammar::is_decimal;
use crate::grammar::is_run;

verus! {

/// Whether a parameter goes into the test or comes out of it.
#[derive(Debug, PartialEq, Eq, Clone, Copy)]
pub enum ArgDirection {
    In,
    Out,
    /// Any direction word but `In` and `Out`.
    Unknown,
}

/// The declared type of a parameter.
#[derive(Debug, PartialEq, Eq, Clone, Copy)]
pub enum ParamType {
    Sigrefexpr,
    Voltage,
    Current,
    String,
    Integer,
    Real,
    Time,
    Bool,
    Enum,
    /// Any type word that is none of the nine keywords.
    Unknown,
}

/// The value of a parameter.
#[allow(inconsistent_fields)]
#[derive(Debug, PartialEq, Eq)]
pub enum ValueType {
    /// A run of letters, digits and underscores.
    Text { data: String },
    /// A decimal number. `data` is the literal as written: an optional `-`,
    /// the integer digits and, where there is a fraction, `.` and its
    /// digits. `unit` is the run of letters that follows it directly.
    Number { data: String, unit: Option<String> },
    /// `true` or `false`, in any casing.
    Bool { data: bool },
}

/// One parameter declaration.
#[derive(Debug, PartialEq, Eq)]
pub struct Param {
    pub arg_direction: ArgDirection,
    pub param_type: ParamType,
    pub name: String,
    pub value: ValueType,
}

/// One test block.
#[derive(Debug, PartialEq, Eq)]
pub struct Test {
    pub name: String,
    pub library: String,
    /// The parameters, in the order of their declarations.
    pub parameters: Vec<Param>,
}

/// What a `ValueType` stands for.
#[allow(inconsistent_fields)]
pub enum ValueModel {
    Text { data: Seq<char> },
    Number { data: Seq<char>, unit: Option<Seq<char>> },
    Bool { data: bool },
}

/// What a `Param` stands for.
pub struct ParamModel {
    pub arg_direction: ArgDirection,
    pub param_type: ParamType,
    pub name: Seq<char>,
    pub value: ValueModel,
}

/// What a `Test` stands for.
pub struct TestModel {
    pub name: Seq<char>,
    pub library: Seq<char>,
    pub parameters: Seq<ParamModel>,
}

impl View for ValueType {
    type V = ValueModel;

    open spec fn view(&self) -> ValueModel {
        match *self {
            ValueType::Text { data } => ValueModel::Text { data: data@ },
            ValueType::Number { data, unit } => ValueModel::Number {
                data: data@,
                unit: match unit {
                    Some(u) => Some(u@),
                    None => None,
                },
            },
            ValueType::Bool { data } => ValueModel::Bool { data },
        }
    }
}

impl View for Param {
    type V = ParamModel;

    open spec fn view(&self) -> ParamModel {
        ParamModel {
            arg_direction: self.arg_direction,
            param_type: self.param_type,
            name: self.name@,
            value: self.value@,
        }
    }
}

/// The models of a sequence of parameters, in the same order.
pub open spec fn param_models(params: Seq<Param>) -> Seq<ParamModel> {
    Seq::new(params.len(), |i: int| params[i]@)
}

impl View for Test {
    type V = TestModel;

    open spec fn view(&self) -> TestModel {
        TestModel {
            name: self.name@,
            library: self.library@,
            parameters: param_models(self.parameters@),
        }
    }
}

impl ValueModel {
    /// What holds of every value that was read: a text is a run of letters,
    /// digits and underscores; a number's `data` is a decimal literal, and
    /// its unit, if it has one, a run of letters.
    pub open spec fn well_formed(self) -> bool {
        match self {
            ValueModel::Text { data } => is_run(data, CharClass::Word),
            ValueModel::Number { data, unit } => is_decimal(data) && (unit matches Some(letters)
                ==> is_run(letters, CharClass::Letter)),
            ValueModel::Bool { .. } => true,
        }
    }
}

impl ParamModel {
    /// What holds of every parameter that was read: its name is a run of
    /// letters and underscores, and its value is well formed.
    pub open spec fn well_formed(self) -> bool {
        is_run(self.name, CharClass::Name) && self.value.well_formed()
    }
}

impl TestModel {
    /// What holds of every test block that was read: its two names are runs
    /// of letters, digits and underscores, and it has at least one
    /// parameter, each of them well formed.
    pub open spec fn well_formed(self) -> bool {
        &&& is_run(self.name, CharClass::Word)
        &&& is_run(self.library, CharClass::Word)
        &&& self.parameters.len() >= 1
        &&& forall|i: int|
            0 <= i < self.parameters.len() ==> (#[trigger] self.parameters[i]).well_formed()
    }
}

} // verus!
