use vstd::prelude::*;

verus! {

#[derive(Clone, Copy, Debug, PartialEq, Eq, Structural)]
pub enum Attribute {
    Strength,
    Health,
    Agility,
    Intelligence,
    Stealth,
}

#[derive(Clone, Copy, Debug, PartialEq, Eq, Structural)]
pub struct AttributeScore {
    pub attribute: Attribute,
    pub score: i8,
}

/// Scores for a set of attributes.
#[derive(Debug)]
pub struct AttributeScores {
    pub scores: Vec<AttributeScore>,
}

/// Every attribute, in the order strength, health, agility, intelligence, stealth.
pub open spec fn all_attributes_spec() -> Seq<Attribute> {
    seq![Attribute::Strength, Attribute::Health, Attribute::Agility, Attribute::Intelligence, Attribute::Stealth]
}

/// One score of the given value for every attribute, in attribute order.
pub open spec fn scores_at(score: i8) -> Seq<AttributeScore> {
    all_attributes_spec().map_values(|a: Attribute| AttributeScore { attribute: a, score })
}

/// The display name of an attribute.
pub open spec fn attribute_name(a: Attribute) -> Seq<char> {
    match a {
        Attribute::Strength => "Strength"@,
        Attribute::Health => "Health"@,
        Attribute::Agility => "Agility"@,
        Attribute::Intelligence => "Intelligence"@,
        Attribute::Stealth => "Stealth"@,
    }
}

impl Attribute {
    pub fn name(&self) -> (s: String)
        ensures
            s@ == attribute_name(*self),
    {
        proof {
            reveal_strlit("Strength");
            reveal_strlit("Health");
            reveal_strlit("Agility");
            reveal_strlit("Intelligence");
            reveal_strlit("Stealth");
        }
        match self {
            Attribute::Strength => String::from_str("Strength"),
            Attribute::Health => String::from_str("Health"),
            Attribute::Agility => String::from_str("Agility"),
            Attribute::Intelligence => String::from_str("Intelligence"),
            Attribute::Stealth => String::from_str("Stealth"),
        }
    }
}

impl AttributeScore {
    /// A zero score for the attribute.
    pub fn default(attribute: Attribute) -> (s: AttributeScore)
        ensures
            s == (AttributeScore { attribute, score: 0 }),
    {
        AttributeScore { attribute, score: 0 }
    }

    pub fn new(attribute: Attribute, score: i8) -> (s: AttributeScore)
        ensures
            s == (AttributeScore { attribute, score }),
    {
        AttributeScore { attribute, score }
    }
}

fn scores_of_value(score: i8) -> (scores: Vec<AttributeScore>)
    ensures
        scores@ == scores_at(score),
{
    let mut scores: Vec<AttributeScore> = Vec::new();
    let attributes = all_attributes();
    let mut i: usize = 0;
    while i < attributes.len()
        invariant
            attributes@ == all_attributes_spec(),
            i <= attributes@.len(),
            scores@ == scores_at(score).take(i as int),
        decreases attributes@.len() - i,
    {
        scores.push(AttributeScore::new(attributes[i], score));
        i += 1;
        assert(scores@ =~= scores_at(score).take(i as int));
    }
    assert(scores_at(score).take(5) =~= scores_at(score));
    scores
}

impl AttributeScores {
    /// A zero score for every attribute.
    pub fn default() -> (s: AttributeScores)
        ensures
            s.scores@ == scores_at(0),
    {
        AttributeScores { scores: scores_of_value(0) }
    }

    /// The same score for every attribute.
    pub fn all_at_value(score: i8) -> (s: AttributeScores)
        ensures
            s.scores@ == scores_at(score),
    {
        AttributeScores { scores: scores_of_value(score) }
    }
}

/// A zero score for every attribute.
pub fn build_default_attributes() -> (scores: Vec<AttributeScore>)
    ensures
        scores@ == scores_at(0),
{
    scores_of_value(0)
}

/// Every attribute, in the order strength, health, agility, intelligence, stealth.
pub fn all_attributes() -> (attributes: Vec<Attribute>)
    ensures
        attributes@ == all_attributes_spec(),
{
    let attributes = vec![Attribute::Strength, Attribute::Health, Attribute::Agility, Attribute::Intelligence, Attribute::Stealth];
    assert(attributes@ =~= all_attributes_spec());
    attributes
}

/// Every attribute gets exactly one score, and the default scores are all zero.
pub proof fn lemma_scores_cover_each_attribute_once(score: i8, a: Attribute)
    ensures
        scores_at(score).len() == 5,
        exists|k: int| 0 <= k < 5 && #[trigger] scores_at(score)[k] == (AttributeScore { attribute: a, score }),
        forall|k: int, j: int| 0 <= k < 5 && 0 <= j < 5 && k != j ==> #[trigger] scores_at(score)[k].attribute != #[trigger] scores_at(score)[j].attribute,
{
    let s = scores_at(score);
    match a {
        Attribute::Strength => assert(s[0].attribute == a),
        Attribute::Health => assert(s[1].attribute == a),
        Attribute::Agility => assert(s[2].attribute == a),
        Attribute::Intelligence => assert(s[3].attribute == a),
        Attribute::Stealth => assert(s[4].attribute == a),
    }
}

} // verus!
