use vstd::prelude::*;
use vstd::string::StringExecFns;
use crate::error::CoreError;

verus! {

#[derive(Debug, PartialEq, Eq, Hash)]
#[non_exhaustive]
pub enum Supertype {
    Basic,
    Legendary,
    Snow,
    World,
    Token,
    Unknown(String),
}

pub open spec fn supertype_eq(a: Supertype, b: Supertype) -> bool {
    match (a, b) {
        (Supertype::Basic, Supertype::Basic) => true,
        (Supertype::Legendary, Supertype::Legendary) => true,
        (Supertype::Snow, Supertype::Snow) => true,
        (Supertype::World, Supertype::World) => true,
        (Supertype::Token, Supertype::Token) => true,
        (Supertype::Unknown(x), Supertype::Unknown(y)) => x@ == y@,
        _ => false,
    }
}

impl Clone for Supertype {
    fn clone(&self) -> (res: Supertype)
        ensures
            supertype_eq(res, *self),
    {
        match self {
            Supertype::Basic => Supertype::Basic,
            Supertype::Legendary => Supertype::Legendary,
            Supertype::Snow => Supertype::Snow,
            Supertype::World => Supertype::World,
            Supertype::Token => Supertype::Token,
            Supertype::Unknown(s) => Supertype::Unknown(s.clone()),
        }
    }
}

#[derive(Debug, PartialEq, Eq, Hash)]
#[non_exhaustive]
pub enum CardType {
    Artifact,
    Battle,
    Conspiracy,
    Creature,
    Dungeon,
    Enchantment,
    Instant,
    Land,
    Phenomenon,
    Plane,
    Planeswalker,
    Scheme,
    Sorcery,
    Tribal,
    Vanguard,
    Unknown(String),
}

pub open spec fn card_type_eq(a: CardType, b: CardType) -> bool {
    match (a, b) {
        (CardType::Artifact, CardType::Artifact) => true,
        (CardType::Battle, CardType::Battle) => true,
        (CardType::Conspiracy, CardType::Conspiracy) => true,
        (CardType::Creature, CardType::Creature) => true,
        (CardType::Dungeon, CardType::Dungeon) => true,
        (CardType::Enchantment, CardType::Enchantment) => true,
        (CardType::Instant, CardType::Instant) => true,
        (CardType::Land, CardType::Land) => true,
        (CardType::Phenomenon, CardType::Phenomenon) => true,
        (CardType::Plane, CardType::Plane) => true,
        (CardType::Planeswalker, CardType::Planeswalker) => true,
        (CardType::Scheme, CardType::Scheme) => true,
        (CardType::Sorcery, CardType::Sorcery) => true,
        (CardType::Tribal, CardType::Tribal) => true,
        (CardType::Vanguard, CardType::Vanguard) => true,
        (CardType::Unknown(x), CardType::Unknown(y)) => x@ == y@,
        _ => false,
    }
}

impl Clone for CardType {
    fn clone(&self) -> (res: CardType)
        ensures
            card_type_eq(res, *self),
    {
        match self {
            CardType::Artifact => CardType::Artifact,
            CardType::Battle => CardType::Battle,
            CardType::Conspiracy => CardType::Conspiracy,
            CardType::Creature => CardType::Creature,
            CardType::Dungeon => CardType::Dungeon,
            CardType::Enchantment => CardType::Enchantment,
            CardType::Instant => CardType::Instant,
            CardType::Land => CardType::Land,
            CardType::Phenomenon => CardType::Phenomenon,
            CardType::Plane => CardType::Plane,
            CardType::Planeswalker => CardType::Planeswalker,
            CardType::Scheme => CardType::Scheme,
            CardType::Sorcery => CardType::Sorcery,
            CardType::Tribal => CardType::Tribal,
            CardType::Vanguard => CardType::Vanguard,
            CardType::Unknown(s) => CardType::Unknown(s.clone()),
        }
    }
}

/// An open free-text subtype: creature types, land types and the rest are
/// added by the publisher faster than any closed set could track.
#[derive(Debug, PartialEq, Eq, Hash)]
pub struct Subtype(pub String);

pub open spec fn subtype_eq(a: Subtype, b: Subtype) -> bool {
    a.0@ == b.0@
}

impl Clone for Subtype {
    fn clone(&self) -> (res: Subtype)
        ensures
            subtype_eq(res, *self),
    {
        Subtype(self.0.clone())
    }
}

/// The type line of one face: its supertypes, card types and subtypes, in
/// printed order.
#[derive(Debug, PartialEq, Eq, Hash)]
pub struct TypeLine {
    pub supertypes: Vec<Supertype>,
    pub card_types: Vec<CardType>,
    pub subtypes: Vec<Subtype>,
}

pub open spec fn type_line_eq(a: TypeLine, b: TypeLine) -> bool {
    &&& a.supertypes@.len() == b.supertypes@.len()
    &&& forall|i: int|
        0 <= i < a.supertypes@.len() ==> supertype_eq(
            #[trigger] a.supertypes@[i],
            b.supertypes@[i],
        )
    &&& a.card_types@.len() == b.card_types@.len()
    &&& forall|i: int|
        0 <= i < a.card_types@.len() ==> card_type_eq(#[trigger] a.card_types@[i], b.card_types@[i])
    &&& a.subtypes@.len() == b.subtypes@.len()
    &&& forall|i: int|
        0 <= i < a.subtypes@.len() ==> subtype_eq(#[trigger] a.subtypes@[i], b.subtypes@[i])
}

impl Clone for TypeLine {
    fn clone(&self) -> (res: TypeLine)
        ensures
            type_line_eq(res, *self),
    {
        let mut supertypes: Vec<Supertype> = Vec::new();
        let mut i: usize = 0;
        while i < self.supertypes.len()
            invariant
                0 <= i <= self.supertypes.len(),
                supertypes@.len() == i,
                forall|k: int|
                    0 <= k < i ==> supertype_eq(#[trigger] supertypes@[k], self.supertypes@[k]),
            decreases self.supertypes.len() - i,
        {
            supertypes.push(self.supertypes[i].clone());
            i = i + 1;
        }
        let mut card_types: Vec<CardType> = Vec::new();
        let mut j: usize = 0;
        while j < self.card_types.len()
            invariant
                0 <= j <= self.card_types.len(),
                card_types@.len() == j,
                forall|k: int|
                    0 <= k < j ==> card_type_eq(#[trigger] card_types@[k], self.card_types@[k]),
            decreases self.card_types.len() - j,
        {
            card_types.push(self.card_types[j].clone());
            j = j + 1;
        }
        let mut subtypes: Vec<Subtype> = Vec::new();
        let mut m: usize = 0;
        while m < self.subtypes.len()
            invariant
                0 <= m <= self.subtypes.len(),
                subtypes@.len() == m,
                forall|k: int| 0 <= k < m ==> subtype_eq(#[trigger] subtypes@[k], self.subtypes@[k]),
            decreases self.subtypes.len() - m,
        {
            subtypes.push(self.subtypes[m].clone());
            m = m + 1;
        }
        TypeLine { supertypes, card_types, subtypes }
    }
}

impl Default for TypeLine {
    /// A type line with nothing on it.
    fn default() -> (r: TypeLine)
        ensures
            r.supertypes@.len() == 0,
            r.card_types@.len() == 0,
            r.subtypes@.len() == 0,
    {
        TypeLine { supertypes: Vec::new(), card_types: Vec::new(), subtypes: Vec::new() }
    }
}

impl TypeLine {
    /// The line names the creature card type.
    pub open spec fn spec_is_creature(self) -> bool {
        exists|i: int| 0 <= i < self.card_types@.len() && self.card_types@[i] is Creature
    }

    /// The line names a card type that stays on the battlefield.
    pub open spec fn spec_is_permanent(self) -> bool {
        exists|i: int|
            0 <= i < self.card_types@.len() && (self.card_types@[i] is Artifact
                || self.card_types@[i] is Battle || self.card_types@[i] is Creature
                || self.card_types@[i] is Enchantment || self.card_types@[i] is Land
                || self.card_types@[i] is Planeswalker)
    }

    pub fn is_creature(&self) -> (r: bool)
        ensures
            r == self.spec_is_creature(),
    {
        let mut i: usize = 0;
        while i < self.card_types.len()
            invariant
                0 <= i <= self.card_types.len(),
                forall|k: int| 0 <= k < i ==> !(self.card_types@[k] is Creature),
            decreases self.card_types.len() - i,
        {
            if matches!(&self.card_types[i], CardType::Creature) {
                return true;
            }
            i = i + 1;
        }
        false
    }

    pub fn is_permanent(&self) -> (r: bool)
        ensures
            r == self.spec_is_permanent(),
    {
        let mut i: usize = 0;
        while i < self.card_types.len()
            invariant
                0 <= i <= self.card_types.len(),
                forall|k: int|
                    0 <= k < i ==> !(#[trigger] self.card_types@[k] is Artifact
                        || self.card_types@[k] is Battle || self.card_types@[k] is Creature
                        || self.card_types@[k] is Enchantment || self.card_types@[k] is Land
                        || self.card_types@[k] is Planeswalker),
            decreases self.card_types.len() - i,
        {
            if matches!(
                &self.card_types[i],
                CardType::Artifact
                    | CardType::Battle
                    | CardType::Creature
                    | CardType::Enchantment
                    | CardType::Land
                    | CardType::Planeswalker
            ) {
                return true;
            }
            i = i + 1;
        }
        false
    }

    /// Textual type-line parsing is not offered in this revision: every
    /// input is answered with a parse failure, which conversion tolerates
    /// by keeping the raw text as a single subtype.
    pub fn parse(s: &str) -> (r: Result<TypeLine, CoreError>)
        ensures
            r matches Err(e) && e matches CoreError::ParseError(_),
    {
        Err(CoreError::ParseError(String::from_str("not implemented")))
    }
}

} // verus!
