//! `SchemeSpec`: the definition of one argumentation scheme.

use vstd::prelude::*;
use crate::schemes::critical::CriticalQuestion;
use crate::schemes::types::{SchemeCategory, SchemeId, SchemeStrength, SlotRole};
use crate::strings::owned;
use crate::text::{snake, snake_case};

verus! {

/// A named premise slot; instantiation binds it to a concrete value.
#[derive(Debug, Clone, PartialEq, Eq)]
pub struct PremiseSlot {
    /// Slot name, used as the binding key.
    pub name: String,
    /// What the slot stands for.
    pub description: String,
    /// The role the slot plays in the scheme.
    pub role: SlotRole,
}

impl PremiseSlot {
    /// A slot from its parts.
    pub fn new(name: &str, description: &str, role: SlotRole) -> (r: Self)
        ensures
            r.name@ == name@,
            r.description@ == description@,
            r.role == role,
    {
        PremiseSlot { name: owned(name), description: owned(description), role }
    }
}

/// Template of a scheme's conclusion. `literal_template` names the
/// concluded atom with `?slot` references; `is_negated` makes the
/// conclusion the negation of that atom (as for schemes that rebut).
#[derive(Debug, Clone, PartialEq, Eq)]
pub struct ConclusionTemplate {
    /// Human-readable description.
    pub description: String,
    /// The atom's name, with `?slot` references.
    pub literal_template: String,
    /// Whether the conclusion is negated.
    pub is_negated: bool,
}

impl ConclusionTemplate {
    /// A positive conclusion.
    pub fn positive(description: &str, literal_template: &str) -> (r: Self)
        ensures
            r.description@ == description@,
            r.literal_template@ == literal_template@,
            !r.is_negated,
    {
        ConclusionTemplate { description: owned(description), literal_template: owned(literal_template), is_negated: false }
    }

    /// A negated conclusion.
    pub fn negated(description: &str, literal_template: &str) -> (r: Self)
        ensures
            r.description@ == description@,
            r.literal_template@ == literal_template@,
            r.is_negated,
    {
        ConclusionTemplate { description: owned(description), literal_template: owned(literal_template), is_negated: true }
    }
}

/// Citation, tags and strength of a scheme.
#[derive(Debug, Clone, PartialEq, Eq)]
pub struct SchemeMetadata {
    /// Bibliographic citation.
    pub citation: String,
    /// Domain tags for filtering.
    pub domain_tags: Vec<String>,
    /// Whether the scheme is presumptive.
    pub presumptive: bool,
    /// How strong the scheme's inference typically is.
    pub strength: SchemeStrength,
}

/// The complete definition of one argumentation scheme.
#[derive(Debug, Clone, PartialEq, Eq)]
pub struct SchemeSpec {
    /// Unique identifier.
    pub id: SchemeId,
    /// Canonical name, such as "Argument from Expert Opinion".
    pub name: String,
    /// Category for filtering.
    pub category: SchemeCategory,
    /// Named premise slots, in declared order.
    pub premises: Vec<PremiseSlot>,
    /// Conclusion template, referring to slots as `?name`.
    pub conclusion: ConclusionTemplate,
    /// The questions that probe the scheme's weak points.
    pub critical_questions: Vec<CriticalQuestion>,
    /// Citation and classification.
    pub metadata: SchemeMetadata,
}

/// What `str::to_lowercase` returns for `s`: the Unicode lowercase
/// form of the string (for some characters, such as a final sigma, it
/// depends on the neighbouring characters).
pub uninterp spec fn lowercase(s: Seq<char>) -> Seq<char>;

/// `c` lowercased if it is an ASCII capital letter, else `c` itself.
pub open spec fn ascii_lower_char(c: char) -> char {
    if 'A' <= c && c <= 'Z' { ((c as u32) + 32) as char } else { c }
}

/// Every character of `s` is ASCII.
pub open spec fn all_ascii(s: Seq<char>) -> bool {
    forall|i: int| 0 <= i < s.len() ==> (#[trigger] s[i] as u32) < 128
}

/// Runs `str::to_lowercase`. The contract names the result and states
/// only what the documentation gives for ASCII text: capitals `A` to `Z`
/// become `a` to `z` and every other ASCII character stays. The Unicode
/// case mapping of other characters is not restated.
#[verifier::external_body]
fn to_lowercase(s: &str) -> (r: String)
    ensures
        r@ == lowercase(s@),
        all_ascii(s@) ==> r@ == s@.map_values(|c: char| ascii_lower_char(c)),
{
    s.to_lowercase()
}

/// The lookup key of a scheme name: lowercased, with spaces and hyphens
/// turned into underscores.
pub open spec fn key_of(name: Seq<char>) -> Seq<char> {
    snake(lowercase(name))
}

/// The key of an ASCII name: ASCII capitals lowercased, spaces and
/// hyphens turned into underscores.
pub open spec fn ascii_key(name: Seq<char>) -> Seq<char> {
    snake(name.map_values(|c: char| ascii_lower_char(c)))
}

impl SchemeSpec {
    /// The scheme's snake_case key, used for lookups. For an ASCII name
    /// the key is its [`ascii_key`].
    pub fn key(&self) -> (r: String)
        ensures
            r@ == key_of(self.name@),
            all_ascii(self.name@) ==> key_of(self.name@) == ascii_key(self.name@),
    {
        let lower = to_lowercase(self.name.as_str());
        snake_case(lower.as_str())
    }
}

} // verus!
