use vstd::prelude::*;
use crate::ident::Uuid;

verus! {

/// One face of a provider card object, mirroring the export's shape:
/// everything optional except the name, maps carried as key/value pairs.
#[derive(Debug, PartialEq, Eq)]
pub struct ScryfallCardFace {
    pub name: String,
    pub mana_cost: String,
    pub type_line: Option<String>,
    pub oracle_text: Option<String>,
    pub colors: Option<Vec<String>>,
    pub power: Option<String>,
    pub toughness: Option<String>,
    pub loyalty: Option<String>,
    pub defense: Option<String>,
    pub flavor_text: Option<String>,
    pub image_uris: Option<Vec<(String, String)>>,
}

/// A provider card object, mirroring the export's shape prior to
/// conversion into the domain model. Its maps (legalities, image links,
/// prices) are carried as key/value pairs in reading order.
#[derive(Debug, PartialEq, Eq)]
pub struct ScryfallCard {
    pub id: Uuid,
    pub oracle_id: Option<Uuid>,
    pub name: String,
    pub layout: String,
    pub mana_cost: Option<String>,
    pub type_line: Option<String>,
    pub oracle_text: Option<String>,
    pub colors: Option<Vec<String>>,
    pub color_identity: Vec<String>,
    pub keywords: Vec<String>,
    pub legalities: Vec<(String, String)>,
    pub set: String,
    pub collector_number: String,
    pub rarity: String,
    pub released_at: String,
    pub power: Option<String>,
    pub toughness: Option<String>,
    pub flavor_text: Option<String>,
    pub lang: String,
    pub edhrec_rank: Option<u32>,
    pub reserved: bool,
    pub promo: bool,
    pub digital: bool,
    pub full_art: bool,
    pub textless: bool,
    pub reprint: bool,
    pub image_uris: Option<Vec<(String, String)>>,
    pub prices: Option<Vec<(String, Option<String>)>>,
    pub card_faces: Option<Vec<ScryfallCardFace>>,
}

} // verus!
