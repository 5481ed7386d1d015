//! The vocabulary of functional forms a civilisation may fit to a
//! relation, and how many free parameters each carries.

use vstd::prelude::*;

verus! {

/// A functional form `y = f(x)` with a fixed number of parameters.
#[derive(Debug, Clone, Copy, PartialEq, Eq, Structural, PartialOrd, Ord, Hash)]
pub enum Form {
    Constant,
    Linear,
    ThresholdStep,
    Polynomial2,
    Polynomial3,
    PeriodicSine,
    ExpDecay,
    ExpGrowth,
    Logistic,
    PowerLaw,
    Logarithmic,
    InverseSquare,
}

/// Number of free parameters of a form.
pub open spec fn form_param_count(f: Form) -> nat {
    match f {
        Form::Constant => 1,
        Form::Linear | Form::InverseSquare | Form::Logarithmic | Form::ExpDecay | Form::ExpGrowth
        | Form::PowerLaw => 2,
        Form::ThresholdStep | Form::Polynomial2 | Form::Logistic => 3,
        Form::Polynomial3 | Form::PeriodicSine => 4,
    }
}

/// Every form, in declaration order.
pub open spec fn all_forms() -> Seq<Form> {
    seq![
        Form::Constant,
        Form::Linear,
        Form::ThresholdStep,
        Form::Polynomial2,
        Form::Polynomial3,
        Form::PeriodicSine,
        Form::ExpDecay,
        Form::ExpGrowth,
        Form::Logistic,
        Form::PowerLaw,
        Form::Logarithmic,
        Form::InverseSquare,
    ]
}

/// Position of a form in `all_forms()`.
pub open spec fn form_index(f: Form) -> nat {
    match f {
        Form::Constant => 0,
        Form::Linear => 1,
        Form::ThresholdStep => 2,
        Form::Polynomial2 => 3,
        Form::Polynomial3 => 4,
        Form::PeriodicSine => 5,
        Form::ExpDecay => 6,
        Form::ExpGrowth => 7,
        Form::Logistic => 8,
        Form::PowerLaw => 9,
        Form::Logarithmic => 10,
        Form::InverseSquare => 11,
    }
}

impl Form {
    /// Position in the declaration order.
    pub fn index(self) -> (i: usize)
        ensures
            i == form_index(self),
            i < 12,
            all_forms()[i as int] == self,
    {
        match self {
            Form::Constant => 0,
            Form::Linear => 1,
            Form::ThresholdStep => 2,
            Form::Polynomial2 => 3,
            Form::Polynomial3 => 4,
            Form::PeriodicSine => 5,
            Form::ExpDecay => 6,
            Form::ExpGrowth => 7,
            Form::Logistic => 8,
            Form::PowerLaw => 9,
            Form::Logarithmic => 10,
            Form::InverseSquare => 11,
        }
    }

    /// Number of free parameters.
    pub fn param_count(self) -> (n: usize)
        ensures
            n == form_param_count(self),
    {
        match self {
            Form::Constant => 1,
            Form::Linear | Form::InverseSquare | Form::Logarithmic | Form::ExpDecay
            | Form::ExpGrowth | Form::PowerLaw => 2,
            Form::ThresholdStep | Form::Polynomial2 | Form::Logistic => 3,
            Form::Polynomial3 | Form::PeriodicSine => 4,
        }
    }
}

/// The full form vocabulary.
pub fn available_forms() -> (v: Vec<Form>)
    ensures
        v@ == all_forms(),
{
    let v = vec![
        Form::Constant,
        Form::Linear,
        Form::ThresholdStep,
        Form::Polynomial2,
        Form::Polynomial3,
        Form::PeriodicSine,
        Form::ExpDecay,
        Form::ExpGrowth,
        Form::Logistic,
        Form::PowerLaw,
        Form::Logarithmic,
        Form::InverseSquare,
    ];
    assert(v@ =~= all_forms());
    v
}

} // verus!
