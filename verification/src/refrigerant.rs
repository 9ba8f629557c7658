//! Refrigerant mixtures, gas-chromatography readings and their
//! classification.
//!
//! A refrigerant name is normalized on construction: upper-cased with all
//! spaces removed. Component maps are association lists with unique,
//! normalized keys and non-negative micro-unit concentrations. The
//! classifier walks a list of named classification rules; a rule rejects
//! a reading either because the comparison is not valid or because its
//! low-component bound is exceeded, and a reading every rule rejects is
//! classified with the default label.

use vstd::prelude::*;
use vstd::string::StringExecFns;
use crate::math::{find_max_low, spec_find_max_low, spec_valid_comparison, valid_comparison};

verus! {

/// Largest admissible concentration, in micro-units.
pub const CONC_LIMIT: i64 = 1_000_000_000_000;

/// Upper-casing of a character sequence.
///
/// Relies on `str::to_uppercase`: the result depends on the characters
/// alone, identically in every process.
pub uninterp spec fn upper_of(s: Seq<char>) -> Seq<char>;

/// Relies on `str::to_uppercase`, whose result is a pure function of the
/// input characters; an empty string stays empty.
#[verifier::external_body]
fn to_upper(s: &str) -> (r: String)
    ensures
        r@ == upper_of(s@),
{
    s.to_uppercase()
}

/// Relies on `str::replace` with the single-space pattern and the empty
/// replacement: every space is removed and all other characters are kept
/// in order.
#[verifier::external_body]
fn remove_spaces(s: &str) -> (r: String)
    ensures
        r@ == s@.filter(|c: char| c != ' '),
{
    s.replace(" ", "")
}

/// The normalized form of a raw name: upper-cased, spaces removed.
pub open spec fn normalized_of(s: Seq<char>) -> Seq<char> {
    upper_of(s).filter(|c: char| c != ' ')
}

/// A normalized refrigerant name.
#[derive(Debug)]
pub struct RefrigerantName(pub String);

impl View for RefrigerantName {
    type V = Seq<char>;

    open spec fn view(&self) -> Seq<char> {
        self.0@
    }
}

impl PartialEq for RefrigerantName {
    fn eq(&self, other: &RefrigerantName) -> (r: bool) {
        self.0 == other.0
    }
}

impl vstd::std_specs::cmp::PartialEqSpecImpl for RefrigerantName {
    open spec fn obeys_eq_spec() -> bool {
        true
    }

    open spec fn eq_spec(&self, other: &RefrigerantName) -> bool {
        self.0@ == other.0@
    }
}

impl RefrigerantName {
    /// Builds a name from raw input, normalizing it; every input
    /// normalizes successfully.
    pub fn new(name: &String) -> (r: Option<RefrigerantName>)
        ensures
            r is Some,
            r matches Some(n) ==> n@ == normalized_of(name@),
    {
        match Self::normalize(name) {
            Some(n) => Some(RefrigerantName(n)),
            None => None,
        }
    }

    /// The normalized spelling of a raw name: upper case, no spaces.
    pub fn normalize(name: &String) -> (r: Option<String>)
        ensures
            r is Some,
            r matches Some(n) ==> n@ == normalized_of(name@),
    {
        let upper = to_upper(name.as_str());
        Some(remove_spaces(upper.as_str()))
    }

    /// The normalized spelling.
    pub fn as_ref(&self) -> (r: &String)
        ensures
            r@ == self@,
    {
        &self.0
    }

    /// An owned copy of the name.
    pub fn duplicate(&self) -> (r: RefrigerantName)
        ensures
            r@ == self@,
    {
        RefrigerantName(self.0.clone())
    }

    /// Whether two names spell the same.
    pub fn same_as(&self, other: &RefrigerantName) -> (r: bool)
        ensures
            r == (self@ == other@),
    {
        self.0 == other.0
    }
}

/// First concentration stored under the given name, if any.
pub open spec fn lookup(s: Seq<(RefrigerantName, i64)>, n: Seq<char>) -> Option<i64>
    decreases s.len(),
{
    if s.len() == 0 {
        None
    } else if s.first().0@ == n {
        Some(s.first().1)
    } else {
        lookup(s.drop_first(), n)
    }
}

/// Well-formed component list: unique normalized keys and bounded,
/// non-negative concentrations.
pub open spec fn components_wf(s: Seq<(RefrigerantName, i64)>) -> bool {
    &&& forall|i: int, j: int| 0 <= i < j < s.len() ==> (#[trigger] s[i]).0@ != (
    #[trigger] s[j]).0@
    &&& forall|i: int| 0 <= i < s.len() ==> 0 <= (#[trigger] s[i]).1 <= CONC_LIMIT
}

/// Searches an association list for a name, front to back.
pub fn lookup_exec(s: &Vec<(RefrigerantName, i64)>, n: &RefrigerantName) -> (r: Option<i64>)
    ensures
        r == lookup(s@, n@),
{
    let mut i: usize = 0;
    proof {
        assert(s@.skip(0) =~= s@);
    }
    while i < s.len()
        invariant
            i <= s.len(),
            lookup(s@, n@) == lookup(s@.skip(i as int), n@),
        decreases s.len() - i,
    {
        proof {
            assert(s@.skip(i as int).first() == s@[i as int]);
            assert(s@.skip(i as int).drop_first() =~= s@.skip(i + 1));
        }
        if s[i].0.same_as(n) {
            return Some(s[i].1);
        }
        i = i + 1;
    }
    proof {
        assert(s@.skip(s@.len() as int).len() == 0);
    }
    None
}

/// A gas-chromatography reading: measured concentration per component.
#[derive(Debug)]
pub struct GCReading {
    pub components: Vec<(RefrigerantName, i64)>,
}

impl GCReading {
    /// Well-formed reading: a well-formed component list.
    pub open spec fn wf(&self) -> bool {
        components_wf(self.components@)
    }

    /// Wraps a component list into a reading.
    pub fn new(components: Vec<(RefrigerantName, i64)>) -> (r: GCReading)
        requires
            components_wf(components@),
        ensures
            r.components@ == components@,
            r.wf(),
    {
        GCReading { components }
    }

    /// The concentration measured for a component, if present.
    pub fn get_component(&self, name: &RefrigerantName) -> (r: Option<i64>)
        ensures
            r == lookup(self.components@, name@),
    {
        lookup_exec(&self.components, name)
    }

    /// The names of the measured components, in storage order; they are
    /// pairwise distinct for a well-formed reading.
    pub fn component_set(&self) -> (r: Vec<RefrigerantName>)
        ensures
            r@.len() == self.components@.len(),
            forall|i: int| 0 <= i < r@.len() ==> (#[trigger] r@[i])@ == self.components@[i].0@,
    {
        component_names(&self.components)
    }

    /// The component list itself.
    pub fn components(&self) -> (r: &Vec<(RefrigerantName, i64)>)
        ensures
            r@ == self.components@,
    {
        &self.components
    }
}

/// The key column of an association list, in order.
pub fn component_names(s: &Vec<(RefrigerantName, i64)>) -> (r: Vec<RefrigerantName>)
    ensures
        r@.len() == s@.len(),
        forall|i: int| 0 <= i < r@.len() ==> (#[trigger] r@[i])@ == s@[i].0@,
{
    let mut out: Vec<RefrigerantName> = Vec::new();
    let mut i: usize = 0;
    while i < s.len()
        invariant
            i <= s.len(),
            out@.len() == i,
            forall|j: int| 0 <= j < i ==> (#[trigger] out@[j])@ == s@[j].0@,
        decreases s.len() - i,
    {
        out.push(s[i].0.duplicate());
        i = i + 1;
    }
    out
}

/// Why a classification rule rejected a reading.
#[derive(Debug, Clone, Copy, PartialEq, Eq, Structural)]
pub enum EvaluateError {
    /// The reading's components do not cover the comparison.
    InvalidComparison,
    /// The largest low component exceeds the rule's bound.
    MaxLowsExceeded,
}

impl EvaluateError {
    /// The error's message.
    pub fn message(&self) -> (r: String)
        ensures
            *self is InvalidComparison ==> r@ == "Not a valid comparison"@,
            *self is MaxLowsExceeded ==> r@ == "Max lows not within bounds"@,
    {
        match self {
            EvaluateError::InvalidComparison => String::from_str("Not a valid comparison"),
            EvaluateError::MaxLowsExceeded => String::from_str("Max lows not within bounds"),
        }
    }
}

/// A single classification rule.
#[derive(Debug)]
pub struct RefrigerantClassification {
    /// Required purity, in micro-units.
    pub purity: i64,
    /// Largest admissible low-component concentration, if bounded.
    pub max_lows: Option<i64>,
    /// Expected companion mixtures, by name.
    pub mixed_with: Vec<(RefrigerantName, i64)>,
}

/// The estimated composition a successful evaluation would return: the
/// concentration found for each mixture, and the objective value.
pub type MixtureEstimate = (Vec<(i64, RefrigerantName)>, i64);

/// Whether a rule rejects a reading against an origin mixture: either the
/// comparison is already (deemed) invalid, or the rule bounds low
/// components and the reading's largest low component exceeds the bound.
pub open spec fn spec_rejects(
    class: &RefrigerantClassification,
    reading: &GCReading,
    origin: &RefrigerantMixture,
) -> bool {
    ||| spec_valid_comparison(reading, origin)
    ||| (class.max_lows matches Some(l) && spec_find_max_low(reading, origin) > l)
}

impl RefrigerantClassification {
    /// Evaluates the rule against a reading. The composition estimate
    /// would be delegated to the external optimizer; the inputs admitted
    /// here are exactly those the rule rejects, and the result says which
    /// of the two gates failed, the comparison gate first.
    pub fn evaluate(&self, reading: &GCReading, origin: &RefrigerantMixture) -> (r: Result<
        MixtureEstimate,
        EvaluateError,
    >)
        requires
            reading.wf(),
            origin.wf(),
            spec_rejects(self, reading, origin),
        ensures
            r is Err,
            r == Err::<MixtureEstimate, EvaluateError>(EvaluateError::InvalidComparison)
                <==> spec_valid_comparison(reading, origin),
            !spec_valid_comparison(reading, origin) ==> r == Err::<
                MixtureEstimate,
                EvaluateError,
            >(EvaluateError::MaxLowsExceeded),
    {
        if valid_comparison(reading, origin) {
            return Err(EvaluateError::InvalidComparison);
        }
        let max_low = find_max_low(reading, origin);
        match self.max_lows {
            Some(l) => {
                if max_low > l {
                    Err(EvaluateError::MaxLowsExceeded)
                } else {
                    // excluded by the precondition: one of the two gates fires
                    proof {
                        assert(false);
                    }
                    Err(EvaluateError::MaxLowsExceeded)
                }
            },
            None => {
                // excluded by the precondition: one of the two gates fires
                proof {
                    assert(false);
                }
                Err(EvaluateError::MaxLowsExceeded)
            },
        }
    }
}

/// The label given to a reading no rule accepts.
pub open spec fn default_label() -> Seq<char> {
    "Mixed"@
}

/// The outcome of classifying a reading.
#[derive(Debug)]
pub struct ClassificationResult {
    pub label: String,
    pub origin: RefrigerantName,
    pub purity: i64,
    pub components: Vec<(RefrigerantName, i64)>,
}

/// A named list of classification rules, tried in order.
#[derive(Debug)]
pub struct ClassificationList(pub Vec<(String, RefrigerantClassification)>);

impl ClassificationList {
    /// Wraps a rule list.
    pub fn new(rules: Vec<(String, RefrigerantClassification)>) -> (r: ClassificationList)
        ensures
            r.0@ == rules@,
    {
        ClassificationList(rules)
    }

    /// Classifies a reading against an origin mixture. On inputs every
    /// rule rejects — the only ones whose outcome the rules decide — the
    /// result is the default: label `Mixed`, the origin's identifier,
    /// zero purity and no components.
    pub fn get_classification(&self, reading: &GCReading, origin: &RefrigerantMixture) -> (r:
        ClassificationResult)
        requires
            reading.wf(),
            origin.wf(),
            forall|i: int| 0 <= i < self.0@.len() ==> spec_rejects(&(#[trigger] self.0@[i]).1,
                reading, origin),
        ensures
            r.label@ == default_label(),
            r.origin@ == origin.identifier@,
            r.purity == 0,
            r.components@.len() == 0,
    {
        let mut i: usize = 0;
        while i < self.0.len()
            invariant
                reading.wf(),
                origin.wf(),
                i <= self.0.len(),
                forall|j: int| 0 <= j < self.0@.len() ==> spec_rejects(&(#[trigger] self.0@[
                j]).1, reading, origin),
            decreases self.0.len() - i,
        {
            match self.0[i].1.evaluate(reading, origin) {
                Ok(_) => {
                    // excluded by the precondition: every rule rejects
                    proof {
                        assert(false);
                    }
                },
                Err(_) => {},
            }
            i = i + 1;
        }
        proof {
            reveal_strlit("Mixed");
        }
        ClassificationResult {
            label: String::from_str("Mixed"),
            origin: origin.identifier.duplicate(),
            purity: 0,
            components: Vec::new(),
        }
    }
}

/// A known refrigerant mixture: its identifier, its component
/// concentrations, and the classification rules that apply to it.
#[derive(Debug)]
pub struct RefrigerantMixture {
    pub identifier: RefrigerantName,
    pub components: Vec<(RefrigerantName, i64)>,
    pub classifications: ClassificationList,
}

impl RefrigerantMixture {
    /// Well-formed mixture: a well-formed component list.
    pub open spec fn wf(&self) -> bool {
        components_wf(self.components@)
    }

    /// Assembles a mixture.
    pub fn new(
        identifier: RefrigerantName,
        components: Vec<(RefrigerantName, i64)>,
        classifications: ClassificationList,
    ) -> (r: RefrigerantMixture)
        requires
            components_wf(components@),
        ensures
            r.identifier@ == identifier@,
            r.components@ == components@,
            r.classifications.0@ == classifications.0@,
            r.wf(),
    {
        RefrigerantMixture { identifier, components, classifications }
    }

    /// Classifies a reading against this mixture with its own rules.
    pub fn classify(&self, reading: &GCReading) -> (r: ClassificationResult)
        requires
            reading.wf(),
            self.wf(),
            forall|i: int| 0 <= i < self.classifications.0@.len() ==> spec_rejects(
                &(#[trigger] self.classifications.0@[i]).1, reading, self),
        ensures
            r.label@ == default_label(),
            r.origin@ == self.identifier@,
            r.purity == 0,
            r.components@.len() == 0,
    {
        self.classifications.get_classification(reading, self)
    }

    /// The concentration of a component of the mixture, if present.
    pub fn get_component(&self, name: &RefrigerantName) -> (r: Option<i64>)
        ensures
            r == lookup(self.components@, name@),
    {
        lookup_exec(&self.components, name)
    }

    /// The component list itself.
    pub fn components(&self) -> (r: &Vec<(RefrigerantName, i64)>)
        ensures
            r@ == self.components@,
    {
        &self.components
    }

    /// The mixture's identifier.
    pub fn identifier(&self) -> (r: &RefrigerantName)
        ensures
            r@ == self.identifier@,
    {
        &self.identifier
    }

    /// The names of the mixture's components, in storage order.
    pub fn component_set(&self) -> (r: Vec<RefrigerantName>)
        ensures
            r@.len() == self.components@.len(),
            forall|i: int| 0 <= i < r@.len() ==> (#[trigger] r@[i])@ == self.components@[i].0@,
    {
        component_names(&self.components)
    }
}

} // verus!
