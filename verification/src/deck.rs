use vstd::prelude::*;
use crate::ident::Uuid;
use crate::legality::Format;

verus! {

/// A quantity of a card referenced by name, with an optional set hint and
/// foil flag; `resolved` is filled in once matched against storage.
#[derive(Debug, PartialEq, Eq)]
pub struct DeckEntry {
    pub quantity: u32,
    pub card_name: String,
    pub resolved: Option<Uuid>,
    pub set_hint: Option<String>,
    pub foil: bool,
}

/// A named, optionally formatted deck list: mainboard, sideboard,
/// commander zone and an optional companion. Decks are transient; they are
/// parsed from text and consumed by the caller, never persisted.
#[derive(Debug, PartialEq, Eq)]
pub struct Deck {
    pub name: Option<String>,
    pub format: Option<Format>,
    pub mainboard: Vec<DeckEntry>,
    pub sideboard: Vec<DeckEntry>,
    pub commander: Vec<DeckEntry>,
    pub companion: Option<DeckEntry>,
}

/// The digital-client export dialect; its parser is an extension point
/// not offered in this revision.
#[derive(Debug, Clone, Copy, PartialEq, Eq, Structural)]
pub struct ArenaParser;

/// The online-play export dialect; not offered in this revision.
#[derive(Debug, Clone, Copy, PartialEq, Eq, Structural)]
pub struct MtgoParser;

/// The web-service export dialect; not offered in this revision.
#[derive(Debug, Clone, Copy, PartialEq, Eq, Structural)]
pub struct MoxfieldParser;

} // verus!
