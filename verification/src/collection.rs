use vstd::prelude::*;
use vstd::string::StringExecFns;
use crate::ident::Uuid;
use crate::oracle::{clone_opt_string, opt_string_eq};
use crate::strutil::str_eq;

verus! {

/// The physical condition a collected copy is in.
#[derive(Debug, Clone, Copy, PartialEq, Eq, Hash, Structural)]
pub enum Condition {
    NearMint,
    LightlyPlayed,
    ModeratelyPlayed,
    HeavyPlayed,
    Damaged,
}

/// The snake-case tag each condition is stored as.
pub open spec fn spec_condition_tag(c: Condition) -> Seq<char> {
    match c {
        Condition::NearMint => "near_mint"@,
        Condition::LightlyPlayed => "lightly_played"@,
        Condition::ModeratelyPlayed => "moderately_played"@,
        Condition::HeavyPlayed => "heavy_played"@,
        Condition::Damaged => "damaged"@,
    }
}

/// The condition a tag names, or nothing for an unrecognized tag.
pub open spec fn spec_condition_from_tag(t: Seq<char>) -> Option<Condition> {
    if t == "near_mint"@ {
        Some(Condition::NearMint)
    } else if t == "lightly_played"@ {
        Some(Condition::LightlyPlayed)
    } else if t == "moderately_played"@ {
        Some(Condition::ModeratelyPlayed)
    } else if t == "heavy_played"@ {
        Some(Condition::HeavyPlayed)
    } else if t == "damaged"@ {
        Some(Condition::Damaged)
    } else {
        None
    }
}

impl Condition {
    /// The snake-case tag this condition is stored as.
    pub fn as_tag(&self) -> (r: String)
        ensures
            r@ == spec_condition_tag(*self),
    {
        match self {
            Condition::NearMint => String::from_str("near_mint"),
            Condition::LightlyPlayed => String::from_str("lightly_played"),
            Condition::ModeratelyPlayed => String::from_str("moderately_played"),
            Condition::HeavyPlayed => String::from_str("heavy_played"),
            Condition::Damaged => String::from_str("damaged"),
        }
    }

    /// Reads a stored condition tag exactly; unrecognized text is refused.
    pub fn try_from_tag(tag: &str) -> (r: Option<Condition>)
        ensures
            r == spec_condition_from_tag(tag@),
    {
        if str_eq(tag, "near_mint") {
            Some(Condition::NearMint)
        } else if str_eq(tag, "lightly_played") {
            Some(Condition::LightlyPlayed)
        } else if str_eq(tag, "moderately_played") {
            Some(Condition::ModeratelyPlayed)
        } else if str_eq(tag, "heavy_played") {
            Some(Condition::HeavyPlayed)
        } else if str_eq(tag, "damaged") {
            Some(Condition::Damaged)
        } else {
            None
        }
    }
}

/// A quantity of one printing at one condition and foil state, belonging
/// to one collection. The natural key is (collection, printing, condition,
/// foil); a repeated write on that key replaces quantity and notes.
#[derive(Debug, PartialEq, Eq)]
pub struct CollectionEntry {
    pub collection_id: Uuid,
    pub printing_id: Uuid,
    pub quantity: u32,
    pub condition: Condition,
    pub foil: bool,
    pub notes: Option<String>,
}

/// Two entries read the same in every field.
pub open spec fn entry_eq(a: CollectionEntry, b: CollectionEntry) -> bool {
    &&& a.collection_id == b.collection_id
    &&& a.printing_id == b.printing_id
    &&& a.quantity == b.quantity
    &&& a.condition == b.condition
    &&& a.foil == b.foil
    &&& opt_string_eq(a.notes, b.notes)
}

/// The two entries share the natural key.
pub open spec fn entry_same_key(a: CollectionEntry, b: CollectionEntry) -> bool {
    &&& a.collection_id == b.collection_id
    &&& a.printing_id == b.printing_id
    &&& a.condition == b.condition
    &&& a.foil == b.foil
}

impl Clone for CollectionEntry {
    fn clone(&self) -> (res: CollectionEntry)
        ensures
            entry_eq(res, *self),
    {
        CollectionEntry {
            collection_id: self.collection_id,
            printing_id: self.printing_id,
            quantity: self.quantity,
            condition: self.condition,
            foil: self.foil,
            notes: clone_opt_string(&self.notes),
        }
    }
}

/// A named set of collection entries, identified by its own identifier.
#[derive(Debug, PartialEq, Eq)]
pub struct Collection {
    pub id: Uuid,
    pub name: String,
    pub description: Option<String>,
    pub entries: Vec<CollectionEntry>,
}

/// Two collections read the same, entries in order.
pub open spec fn collection_eq(a: Collection, b: Collection) -> bool {
    &&& a.id == b.id
    &&& a.name@ == b.name@
    &&& opt_string_eq(a.description, b.description)
    &&& a.entries@.len() == b.entries@.len()
    &&& forall|i: int| 0 <= i < a.entries@.len() ==> entry_eq(#[trigger] a.entries@[i], b.entries@[i])
}

impl Clone for Collection {
    fn clone(&self) -> (res: Collection)
        ensures
            collection_eq(res, *self),
    {
        let mut entries: Vec<CollectionEntry> = Vec::new();
        let mut i: usize = 0;
        while i < self.entries.len()
            invariant
                0 <= i <= self.entries.len(),
                entries@.len() == i,
                forall|k: int| 0 <= k < i ==> entry_eq(#[trigger] entries@[k], self.entries@[k]),
            decreases self.entries.len() - i,
        {
            entries.push(self.entries[i].clone());
            i = i + 1;
        }
        Collection {
            id: self.id,
            name: self.name.clone(),
            description: clone_opt_string(&self.description),
            entries,
        }
    }
}

} // verus!
