//! Test designs and tails, built from a textual field set.
use vstd::prelude::*;
use crate::fields::{lookup, Fields, FieldsView, same_text};
use crate::numbers::{decimal_of, int_of, parse_decimal, parse_int, Decimal};

verus! {

/// Whether the rejection region lies on one side of the null distribution or
/// is split across both.
#[derive(Clone, Copy, Debug, PartialEq, Eq, Structural)]
pub enum Tail {
    OneSided,
    TwoSided,
}

/// The supported test designs, each with its structural parameters.
///
/// Correlations and nonsphericity corrections are exact decimals.
#[derive(Clone, Copy, Debug, PartialEq, Eq)]
pub enum TestKind {
    /// Means: difference from constant (one sample case).
    OneSampleTTest,
    /// Means: difference between two independent means (two groups).
    IndependentSamplesTTest,
    /// Goodness-of-fit tests: contingency tables.
    GoodnessOfFitChisqTest {
        /// Degrees of freedom.
        df: i64,
    },
    /// Linear multiple regression: fixed model, R^2 deviation from zero.
    DeviationFromZeroMultipleRegression {
        /// Number of predictors.
        n_predictors: i64,
    },
    /// Multiple regression: increase of R^2.
    IncreaseMultipleRegression {
        /// Total number of predictors.
        rho: i64,
        /// Number of tested predictors.
        q: i64,
    },
    /// ANCOVA: fixed effects, main effects and interactions.
    ANCOVA {
        /// Number of groups.
        k: i64,
        /// Degrees of freedom of the tested effect.
        q: i64,
        /// Number of covariates.
        p: i64,
    },
    /// ANOVA: fixed effects, omnibus, one-way.
    OneWayANOVA {
        /// Number of groups.
        k: i64,
    },
    /// ANOVA: fixed effects, special, main effects and interactions.
    TwoWayANOVA {
        /// Total number of cells in the design.
        k: i64,
        /// Degrees of freedom of the tested effect.
        q: i64,
    },
    /// ANOVA: repeated measures, between factors.
    BetweenRepeatedANOVA {
        /// Levels of the between factor.
        k: i64,
        /// Levels of the repeated measures.
        m: i64,
        /// Correlation among repeated measures.
        rho: Decimal,
    },
    /// ANOVA: repeated measures, within factors.
    WithinRepeatedANOVA {
        /// Levels of the between factor.
        k: i64,
        /// Levels of the repeated measures.
        m: i64,
        /// Correlation among repeated measures.
        rho: Decimal,
        /// Nonsphericity correction.
        epsilon: Decimal,
    },
    /// ANOVA: repeated measures, within-between interactions.
    WithinBetweenRepeatedANOVA {
        /// Levels of the between factor.
        k: i64,
        /// Levels of the repeated measures.
        m: i64,
        /// Correlation among repeated measures.
        rho: Decimal,
        /// Nonsphericity correction.
        epsilon: Decimal,
    },
}

/// How a field's text is read.
pub enum FieldKind {
    Integer,
    Real,
}

/// Why a design could not be built, as the contracts see it.
pub enum DesignFault {
    MissingField(Seq<char>),
    UnparsableNumber(Seq<char>),
    ConstraintViolation,
    UnknownTestName(Seq<char>),
}

/// Why a design could not be built.
#[derive(Clone, Debug, PartialEq, Eq)]
pub enum DesignError {
    /// A field that the design needs is absent; holds its name.
    MissingField(String),
    /// A field's text is not a number of the needed kind; holds its name.
    UnparsableNumber(String),
    /// The parameters break a bound of the design; holds an explanation.
    ConstraintViolation(String),
    /// No design has this name; holds the name.
    UnknownTestName(String),
}

impl DesignError {
    /// A constraint violation says which bound was broken: its message is not empty.
    pub open spec fn explained(&self) -> bool {
        match self {
            DesignError::ConstraintViolation(msg) => msg@.len() > 0,
            _ => true,
        }
    }
}

impl View for DesignError {
    type V = DesignFault;

    open spec fn view(&self) -> DesignFault {
        match self {
            DesignError::MissingField(s) => DesignFault::MissingField(s@),
            DesignError::UnparsableNumber(s) => DesignFault::UnparsableNumber(s@),
            DesignError::ConstraintViolation(_) => DesignFault::ConstraintViolation,
            DesignError::UnknownTestName(s) => DesignFault::UnknownTestName(s@),
        }
    }
}

/// What goes wrong in reading the field `name` as a number of the given kind.
pub open spec fn field_fault(f: FieldsView, name: Seq<char>, kind: FieldKind) -> Option<
    DesignFault,
> {
    match lookup(f, name) {
        None => Some(DesignFault::MissingField(name)),
        Some(t) => {
            let readable = match kind {
                FieldKind::Integer => int_of(t).is_some(),
                FieldKind::Real => decimal_of(t).is_some(),
            };
            if readable {
                None
            } else {
                Some(DesignFault::UnparsableNumber(name))
            }
        },
    }
}

/// The first fault in reading the needed fields, in order.
pub open spec fn first_fault(f: FieldsView, needed: Seq<(Seq<char>, FieldKind)>) -> Option<
    DesignFault,
>
    decreases needed.len(),
{
    if needed.len() == 0 {
        None
    } else {
        match field_fault(f, needed[0].0, needed[0].1) {
            Some(e) => Some(e),
            None => first_fault(f, needed.skip(1)),
        }
    }
}

pub open spec fn int_field(f: FieldsView, name: Seq<char>) -> i64 {
    int_of(lookup(f, name).unwrap()).unwrap()
}

pub open spec fn real_field(f: FieldsView, name: Seq<char>) -> Decimal {
    decimal_of(lookup(f, name).unwrap()).unwrap()
}

pub open spec fn integer_entry(name: Seq<char>) -> (Seq<char>, FieldKind) {
    (name, FieldKind::Integer)
}

pub open spec fn decimal_entry(name: Seq<char>) -> (Seq<char>, FieldKind) {
    (name, FieldKind::Real)
}

/// For each design name: the fields it reads, in order, and the design built
/// from them (meaningful where all of them read).
pub open spec fn catalog(name: Seq<char>, f: FieldsView) -> Option<
    (Seq<(Seq<char>, FieldKind)>, TestKind),
> {
    if name == "oneSampleTTest"@ {
        Some((seq![], TestKind::OneSampleTTest))
    } else if name == "independentSamplesTTest"@ {
        Some((seq![], TestKind::IndependentSamplesTTest))
    } else if name == "goodnessOfFitChisqTest"@ {
        Some((seq![integer_entry("df"@)], TestKind::GoodnessOfFitChisqTest { df: int_field(f, "df"@) }))
    } else if name == "deviationFromZeroMultipleRegression"@ {
        Some(
            (
                seq![integer_entry("nPredictors"@)],
                TestKind::DeviationFromZeroMultipleRegression {
                    n_predictors: int_field(f, "nPredictors"@),
                },
            ),
        )
    } else if name == "increaseMultipleRegression"@ {
        Some(
            (
                seq![integer_entry("rho"@), integer_entry("q"@)],
                TestKind::IncreaseMultipleRegression {
                    rho: int_field(f, "rho"@),
                    q: int_field(f, "q"@),
                },
            ),
        )
    } else if name == "ANCOVA"@ {
        Some(
            (
                seq![integer_entry("k"@), integer_entry("q"@), integer_entry("p"@)],
                TestKind::ANCOVA {
                    k: int_field(f, "k"@),
                    q: int_field(f, "q"@),
                    p: int_field(f, "p"@),
                },
            ),
        )
    } else if name == "oneWayANOVA"@ {
        Some((seq![integer_entry("k"@)], TestKind::OneWayANOVA { k: int_field(f, "k"@) }))
    } else if name == "twoWayANOVA"@ {
        Some(
            (
                seq![integer_entry("k"@), integer_entry("q"@)],
                TestKind::TwoWayANOVA { k: int_field(f, "k"@), q: int_field(f, "q"@) },
            ),
        )
    } else if name == "betweenRepeatedANOVA"@ {
        Some(
            (
                seq![integer_entry("k"@), integer_entry("m"@), decimal_entry("rho"@)],
                TestKind::BetweenRepeatedANOVA {
                    k: int_field(f, "k"@),
                    m: int_field(f, "m"@),
                    rho: real_field(f, "rho"@),
                },
            ),
        )
    } else if name == "withinRepeatedANOVA"@ {
        Some(
            (
                seq![integer_entry("k"@), integer_entry("m"@), decimal_entry("rho"@), decimal_entry("epsilon"@)],
                TestKind::WithinRepeatedANOVA {
                    k: int_field(f, "k"@),
                    m: int_field(f, "m"@),
                    rho: real_field(f, "rho"@),
                    epsilon: real_field(f, "epsilon"@),
                },
            ),
        )
    } else if name == "withinBetweenRepeatedANOVA"@ {
        Some(
            (
                seq![integer_entry("k"@), integer_entry("m"@), decimal_entry("rho"@), decimal_entry("epsilon"@)],
                TestKind::WithinBetweenRepeatedANOVA {
                    k: int_field(f, "k"@),
                    m: int_field(f, "m"@),
                    rho: real_field(f, "rho"@),
                    epsilon: real_field(f, "epsilon"@),
                },
            ),
        )
    } else {
        None
    }
}

/// Reading stops at the first field that fails: where the fields before `i`
/// all read, the outcome is that of field `i` if it fails, and none at the end.
pub proof fn lemma_first_fault_at(f: FieldsView, needed: Seq<(Seq<char>, FieldKind)>, i: int)
    requires
        0 <= i <= needed.len(),
        forall|j: int| 0 <= j < i ==> (#[trigger] field_fault(f, needed[j].0, needed[j].1)).is_none(),
    ensures
        i == needed.len() ==> first_fault(f, needed).is_none(),
        i < needed.len() && field_fault(f, needed[i].0, needed[i].1).is_some() ==> first_fault(
            f,
            needed,
        ) == field_fault(f, needed[i].0, needed[i].1),
    decreases i,
{
    if i > 0 {
        let rest = needed.skip(1);
        assert(field_fault(f, needed[0].0, needed[0].1).is_none());
        assert forall|j: int| 0 <= j < i - 1 implies (#[trigger] field_fault(
            f,
            rest[j].0,
            rest[j].1,
        )).is_none() by {
            assert(rest[j] == needed[j + 1]);
            assert(field_fault(f, needed[j + 1].0, needed[j + 1].1).is_none());
        }
        if i < needed.len() {
            assert(rest[i - 1] == needed[i]);
        }
        lemma_first_fault_at(f, rest, i - 1);
    }
}

/// The lower bound on the nonsphericity correction, `epsilon >= 1 / (m - 1)`:
/// multiplied out, `epsilon * (m - 1) >= 1` for `m >= 2` and
/// `epsilon * (m - 1) <= 1` for `m <= 0`; with `m == 1` the bound is undefined
/// and nothing meets it.
pub open spec fn epsilon_admissible(epsilon: Decimal, m: i64) -> bool {
    if m >= 2 {
        epsilon.scaled_sign(m - 1) >= 0
    } else if m == 1 {
        false
    } else {
        epsilon.scaled_sign(m - 1) <= 0
    }
}

/// Whether a design keeps the bounds that construction checks.
pub open spec fn admissible(d: TestKind) -> bool {
    match d {
        TestKind::WithinRepeatedANOVA { m, epsilon, .. } => epsilon_admissible(epsilon, m),
        TestKind::WithinBetweenRepeatedANOVA { m, epsilon, .. } => epsilon_admissible(
            epsilon,
            m,
        ),
        _ => true,
    }
}

/// The outcome of building the design `name` from the fields `f`.
pub open spec fn design_result(name: Seq<char>, f: FieldsView) -> Result<TestKind, DesignFault> {
    match catalog(name, f) {
        None => Err(DesignFault::UnknownTestName(name)),
        Some((needed, d)) => match first_fault(f, needed) {
            Some(e) => Err(e),
            None => if admissible(d) {
                Ok(d)
            } else {
                Err(DesignFault::ConstraintViolation)
            },
        },
    }
}

/// The tail that a code selects: 1 for one-sided, 2 for two-sided.
pub open spec fn tail_of_code(code: i64) -> Option<Tail> {
    if code == 1 {
        Some(Tail::OneSided)
    } else if code == 2 {
        Some(Tail::TwoSided)
    } else {
        None
    }
}

/// The tail that the field `tail` selects.
pub open spec fn tail_of(f: FieldsView) -> Option<Tail> {
    match lookup(f, "tail"@) {
        Some(t) => match int_of(t) {
            Some(code) => tail_of_code(code),
            None => None,
        },
        None => None,
    }
}

/// Reads the field `name` as an integer.
fn read_int(data: &Fields, name: &str) -> (r: Result<i64, DesignError>)
    ensures
        match r {
            Ok(v) => field_fault(data@, name@, FieldKind::Integer).is_none() && v == int_field(
                data@,
                name@,
            ),
            Err(e) => field_fault(data@, name@, FieldKind::Integer) == Some(e@),
        },
{
    match data.get(name) {
        None => Err(DesignError::MissingField(name.to_string())),
        Some(t) => match parse_int(t.as_str()) {
            Some(v) => Ok(v),
            None => Err(DesignError::UnparsableNumber(name.to_string())),
        },
    }
}

/// Reads the field `name` as an exact decimal.
fn read_real(data: &Fields, name: &str) -> (r: Result<Decimal, DesignError>)
    ensures
        match r {
            Ok(v) => field_fault(data@, name@, FieldKind::Real).is_none() && v == real_field(
                data@,
                name@,
            ),
            Err(e) => field_fault(data@, name@, FieldKind::Real) == Some(e@),
        },
{
    match data.get(name) {
        None => Err(DesignError::MissingField(name.to_string())),
        Some(t) => match parse_decimal(t.as_str()) {
            Some(v) => Ok(v),
            None => Err(DesignError::UnparsableNumber(name.to_string())),
        },
    }
}

fn check_epsilon(m: i64, epsilon: Decimal) -> (r: Result<(), DesignError>)
    ensures
        r.is_ok() == epsilon_admissible(epsilon, m),
        r.is_err() ==> r->Err_0@ == DesignFault::ConstraintViolation,
        r.is_err() ==> r->Err_0.explained(),
{
    let admissible = if m >= 2 {
        epsilon.compare_scaled(m as i128 - 1) >= 0
    } else if m == 1 {
        false
    } else {
        epsilon.compare_scaled(m as i128 - 1) <= 0
    };
    if admissible {
        Ok(())
    } else {
        proof {
            reveal_strlit("lower bound of epsilon is 1 / (number of measurements - 1)");
        }
        Err(
            DesignError::ConstraintViolation(
                "lower bound of epsilon is 1 / (number of measurements - 1)".to_string(),
            ),
        )
    }
}

impl Tail {
    /// The tail that a code selects: `1` one-sided, `2` two-sided, any other
    /// value none.
    pub fn from_code(code: i64) -> (r: Option<Tail>)
        ensures
            r == tail_of_code(code),
    {
        match code {
            1 => Some(Tail::OneSided),
            2 => Some(Tail::TwoSided),
            _ => None,
        }
    }

    /// The tail that the field `tail` of a request selects (see `from_code`);
    /// `None` where the field is absent or not an integer.
    pub fn from_json(data: &Fields) -> (r: Option<Tail>)
        ensures
            r == tail_of(data@),
    {
        match read_int(data, "tail") {
            Ok(code) => Tail::from_code(code),
            Err(_) => None,
        }
    }

    /// Over how many sides the rejection region is split: the alpha of one
    /// side times this is the alpha of the test.
    pub fn sides(&self) -> (r: u32)
        ensures
            r == (match self {
                Tail::OneSided => 1u32,
                Tail::TwoSided => 2u32,
            }),
    {
        match self {
            Tail::OneSided => 1,
            Tail::TwoSided => 2,
        }
    }
}

/// Reads field `i` of `needed`, an integer field, where the fields before it
/// all read; an error is the first fault of `needed`.
fn read_int_at(
    data: &Fields,
    name: &str,
    needed: Ghost<Seq<(Seq<char>, FieldKind)>>,
    i: Ghost<int>,
) -> (r: Result<i64, DesignError>)
    requires
        0 <= i@ < needed@.len(),
        needed@[i@] == (name@, FieldKind::Integer),
        forall|j: int|
            0 <= j < i@ ==> (#[trigger] field_fault(data@, needed@[j].0, needed@[j].1)).is_none(),
    ensures
        match r {
            Ok(v) => field_fault(data@, name@, FieldKind::Integer).is_none() && v == int_field(
                data@,
                name@,
            ),
            Err(e) => first_fault(data@, needed@) == Some(e@) && e.explained(),
        },
{
    let r = read_int(data, name);
    proof {
        lemma_first_fault_at(data@, needed@, i@);
    }
    r
}

/// Reads field `i` of `needed`, a decimal field, where the fields before it
/// all read; an error is the first fault of `needed`.
fn read_real_at(
    data: &Fields,
    name: &str,
    needed: Ghost<Seq<(Seq<char>, FieldKind)>>,
    i: Ghost<int>,
) -> (r: Result<Decimal, DesignError>)
    requires
        0 <= i@ < needed@.len(),
        needed@[i@] == (name@, FieldKind::Real),
        forall|j: int|
            0 <= j < i@ ==> (#[trigger] field_fault(data@, needed@[j].0, needed@[j].1)).is_none(),
    ensures
        match r {
            Ok(v) => field_fault(data@, name@, FieldKind::Real).is_none() && v == real_field(
                data@,
                name@,
            ),
            Err(e) => first_fault(data@, needed@) == Some(e@) && e.explained(),
        },
{
    let r = read_real(data, name);
    proof {
        lemma_first_fault_at(data@, needed@, i@);
    }
    r
}

impl TestKind {
    /// Builds the design named `text` from the fields of a request.
    ///
    /// Each field that the design needs is read in order: an absent one gives
    /// `MissingField`, one whose text is not a number of the needed kind gives
    /// `UnparsableNumber`. The repeated-measures designs with a nonsphericity
    /// correction then need `epsilon >= 1 / (m - 1)` (see `epsilon_admissible`),
    /// else `ConstraintViolation`, whose message says so. An unknown name gives
    /// `UnknownTestName`.
    #[verifier::rlimit(100)]
    pub fn from_str(text: &str, data: &Fields) -> (r: Result<TestKind, DesignError>)
        ensures
            match r {
                Ok(d) => design_result(text@, data@) == Ok::<TestKind, DesignFault>(d),
                Err(e) => design_result(text@, data@) == Err::<TestKind, DesignFault>(e@)
                    && e.explained(),
            },
    {
        let ghost f = data@;
        if same_text(text, "oneSampleTTest") {
            return Ok(TestKind::OneSampleTTest);
        }
        if same_text(text, "independentSamplesTTest") {
            return Ok(TestKind::IndependentSamplesTTest);
        }
        if same_text(text, "goodnessOfFitChisqTest") {
            let ghost needed = catalog(text@, f).unwrap().0;
            let df = read_int_at(data, "df", Ghost(needed), Ghost(0))?;
            proof {
                lemma_first_fault_at(f, needed, 1);
            }
            return Ok(TestKind::GoodnessOfFitChisqTest { df });
        }
        if same_text(text, "deviationFromZeroMultipleRegression") {
            let ghost needed = catalog(text@, f).unwrap().0;
            let n_predictors = read_int_at(data, "nPredictors", Ghost(needed), Ghost(0))?;
            proof {
                lemma_first_fault_at(f, needed, 1);
            }
            return Ok(TestKind::DeviationFromZeroMultipleRegression { n_predictors });
        }
        if same_text(text, "increaseMultipleRegression") {
            let ghost needed = catalog(text@, f).unwrap().0;
            let rho = read_int_at(data, "rho", Ghost(needed), Ghost(0))?;
            let q = read_int_at(data, "q", Ghost(needed), Ghost(1))?;
            proof {
                lemma_first_fault_at(f, needed, 2);
            }
            return Ok(TestKind::IncreaseMultipleRegression { rho, q });
        }
        if same_text(text, "ANCOVA") {
            let ghost needed = catalog(text@, f).unwrap().0;
            let k = read_int_at(data, "k", Ghost(needed), Ghost(0))?;
            let q = read_int_at(data, "q", Ghost(needed), Ghost(1))?;
            let p = read_int_at(data, "p", Ghost(needed), Ghost(2))?;
            proof {
                lemma_first_fault_at(f, needed, 3);
            }
            return Ok(TestKind::ANCOVA { k, q, p });
        }
        if same_text(text, "oneWayANOVA") {
            let ghost needed = catalog(text@, f).unwrap().0;
            let k = read_int_at(data, "k", Ghost(needed), Ghost(0))?;
            proof {
                lemma_first_fault_at(f, needed, 1);
            }
            return Ok(TestKind::OneWayANOVA { k });
        }
        if same_text(text, "twoWayANOVA") {
            let ghost needed = catalog(text@, f).unwrap().0;
            let k = read_int_at(data, "k", Ghost(needed), Ghost(0))?;
            let q = read_int_at(data, "q", Ghost(needed), Ghost(1))?;
            proof {
                lemma_first_fault_at(f, needed, 2);
            }
            return Ok(TestKind::TwoWayANOVA { k, q });
        }
        if same_text(text, "betweenRepeatedANOVA") {
            let ghost needed = catalog(text@, f).unwrap().0;
            let k = read_int_at(data, "k", Ghost(needed), Ghost(0))?;
            let m = read_int_at(data, "m", Ghost(needed), Ghost(1))?;
            let rho = read_real_at(data, "rho", Ghost(needed), Ghost(2))?;
            proof {
                lemma_first_fault_at(f, needed, 3);
            }
            return Ok(TestKind::BetweenRepeatedANOVA { k, m, rho });
        }
        let within = same_text(text, "withinRepeatedANOVA");
        if within || same_text(text, "withinBetweenRepeatedANOVA") {
            let ghost needed = catalog(text@, f).unwrap().0;
            let k = read_int_at(data, "k", Ghost(needed), Ghost(0))?;
            let m = read_int_at(data, "m", Ghost(needed), Ghost(1))?;
            let rho = read_real_at(data, "rho", Ghost(needed), Ghost(2))?;
            let epsilon = read_real_at(data, "epsilon", Ghost(needed), Ghost(3))?;
            proof {
                lemma_first_fault_at(f, needed, 4);
            }
            if let Err(e) = check_epsilon(m, epsilon) {
                return Err(e);
            }
            if within {
                return Ok(TestKind::WithinRepeatedANOVA { k, m, rho, epsilon });
            }
            return Ok(TestKind::WithinBetweenRepeatedANOVA { k, m, rho, epsilon });
        }
        Err(DesignError::UnknownTestName(text.to_string()))
    }
}

} // verus!
