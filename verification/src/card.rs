use vstd::prelude::*;
use vstd::string::StringExecFns;
use crate::color::ColorSet;
use crate::decimal::DecimalValue;
use crate::ident::Uuid;
use crate::legality::{legalities_eq, Legalities};
use crate::keyword::{keyword_eq, Keyword};
use crate::mana::{mana_cost_eq, ManaCost};
use crate::oracle::{clone_opt_string, opt_string_eq, oracle_text_eq, OracleText};
use crate::strutil::str_eq;
use crate::time::{Date, Timestamp};
use crate::types::{type_line_eq, TypeLine};

verus! {

/// One printable face of a card. Power, toughness, loyalty and defense are
/// kept as free text, since they carry non-numeric values such as `*`.
#[derive(Debug, PartialEq, Eq, Hash)]
pub struct CardFace {
    pub name: String,
    pub mana_cost: Option<ManaCost>,
    pub type_line: TypeLine,
    pub oracle_text: OracleText,
    pub colors: ColorSet,
    pub power: Option<String>,
    pub toughness: Option<String>,
    pub loyalty: Option<String>,
    pub defense: Option<String>,
    pub flavor_text: Option<String>,
}

pub open spec fn opt_mana_cost_eq(a: Option<ManaCost>, b: Option<ManaCost>) -> bool {
    match (a, b) {
        (Option::Some(x), Option::Some(y)) => mana_cost_eq(x, y),
        (Option::None, Option::None) => true,
        _ => false,
    }
}

/// Two faces read the same in every field.
pub open spec fn face_eq(a: CardFace, b: CardFace) -> bool {
    &&& a.name@ == b.name@
    &&& opt_mana_cost_eq(a.mana_cost, b.mana_cost)
    &&& type_line_eq(a.type_line, b.type_line)
    &&& oracle_text_eq(a.oracle_text, b.oracle_text)
    &&& a.colors == b.colors
    &&& opt_string_eq(a.power, b.power)
    &&& opt_string_eq(a.toughness, b.toughness)
    &&& opt_string_eq(a.loyalty, b.loyalty)
    &&& opt_string_eq(a.defense, b.defense)
    &&& opt_string_eq(a.flavor_text, b.flavor_text)
}

impl Clone for CardFace {
    fn clone(&self) -> (res: CardFace)
        ensures
            face_eq(res, *self),
    {
        CardFace {
            name: self.name.clone(),
            mana_cost: match &self.mana_cost {
                Option::Some(m) => Option::Some(m.clone()),
                Option::None => Option::None,
            },
            type_line: self.type_line.clone(),
            oracle_text: self.oracle_text.clone(),
            colors: self.colors,
            power: clone_opt_string(&self.power),
            toughness: clone_opt_string(&self.toughness),
            loyalty: clone_opt_string(&self.loyalty),
            defense: clone_opt_string(&self.defense),
            flavor_text: clone_opt_string(&self.flavor_text),
        }
    }
}

/// The provider's layout kinds, with a textual fallback for new ones.
#[derive(Debug, PartialEq, Eq, Hash)]
#[non_exhaustive]
pub enum CardLayout {
    Normal,
    Split,
    Flip,
    Transform,
    ModalDfc,
    Meld,
    Leveler,
    Class,
    Saga,
    Adventure,
    Prototype,
    Battle,
    Mutate,
    Token,
    DoubleFacedToken,
    Emblem,
    Augment,
    Host,
    ArtSeries,
    Unknown(String),
}

pub open spec fn layout_eq(a: CardLayout, b: CardLayout) -> bool {
    match (a, b) {
        (CardLayout::Normal, CardLayout::Normal) => true,
        (CardLayout::Split, CardLayout::Split) => true,
        (CardLayout::Flip, CardLayout::Flip) => true,
        (CardLayout::Transform, CardLayout::Transform) => true,
        (CardLayout::ModalDfc, CardLayout::ModalDfc) => true,
        (CardLayout::Meld, CardLayout::Meld) => true,
        (CardLayout::Leveler, CardLayout::Leveler) => true,
        (CardLayout::Class, CardLayout::Class) => true,
        (CardLayout::Saga, CardLayout::Saga) => true,
        (CardLayout::Adventure, CardLayout::Adventure) => true,
        (CardLayout::Prototype, CardLayout::Prototype) => true,
        (CardLayout::Battle, CardLayout::Battle) => true,
        (CardLayout::Mutate, CardLayout::Mutate) => true,
        (CardLayout::Token, CardLayout::Token) => true,
        (CardLayout::DoubleFacedToken, CardLayout::DoubleFacedToken) => true,
        (CardLayout::Emblem, CardLayout::Emblem) => true,
        (CardLayout::Augment, CardLayout::Augment) => true,
        (CardLayout::Host, CardLayout::Host) => true,
        (CardLayout::ArtSeries, CardLayout::ArtSeries) => true,
        (CardLayout::Unknown(x), CardLayout::Unknown(y)) => x@ == y@,
        _ => false,
    }
}

impl Clone for CardLayout {
    fn clone(&self) -> (res: CardLayout)
        ensures
            layout_eq(res, *self),
    {
        match self {
            CardLayout::Normal => CardLayout::Normal,
            CardLayout::Split => CardLayout::Split,
            CardLayout::Flip => CardLayout::Flip,
            CardLayout::Transform => CardLayout::Transform,
            CardLayout::ModalDfc => CardLayout::ModalDfc,
            CardLayout::Meld => CardLayout::Meld,
            CardLayout::Leveler => CardLayout::Leveler,
            CardLayout::Class => CardLayout::Class,
            CardLayout::Saga => CardLayout::Saga,
            CardLayout::Adventure => CardLayout::Adventure,
            CardLayout::Prototype => CardLayout::Prototype,
            CardLayout::Battle => CardLayout::Battle,
            CardLayout::Mutate => CardLayout::Mutate,
            CardLayout::Token => CardLayout::Token,
            CardLayout::DoubleFacedToken => CardLayout::DoubleFacedToken,
            CardLayout::Emblem => CardLayout::Emblem,
            CardLayout::Augment => CardLayout::Augment,
            CardLayout::Host => CardLayout::Host,
            CardLayout::ArtSeries => CardLayout::ArtSeries,
            CardLayout::Unknown(s) => CardLayout::Unknown(s.clone()),
        }
    }
}

/// The layout a recognized tag names; an unrecognized tag names none.
pub open spec fn spec_layout_from_tag(t: Seq<char>) -> Option<CardLayout> {
    if t == "normal"@ {
        Some(CardLayout::Normal)
    } else if t == "split"@ {
        Some(CardLayout::Split)
    } else if t == "flip"@ {
        Some(CardLayout::Flip)
    } else if t == "transform"@ {
        Some(CardLayout::Transform)
    } else if t == "modal_dfc"@ {
        Some(CardLayout::ModalDfc)
    } else if t == "meld"@ {
        Some(CardLayout::Meld)
    } else if t == "leveler"@ {
        Some(CardLayout::Leveler)
    } else if t == "class"@ {
        Some(CardLayout::Class)
    } else if t == "saga"@ {
        Some(CardLayout::Saga)
    } else if t == "adventure"@ {
        Some(CardLayout::Adventure)
    } else if t == "prototype"@ {
        Some(CardLayout::Prototype)
    } else if t == "battle"@ {
        Some(CardLayout::Battle)
    } else if t == "mutate"@ {
        Some(CardLayout::Mutate)
    } else if t == "token"@ {
        Some(CardLayout::Token)
    } else if t == "double_faced_token"@ {
        Some(CardLayout::DoubleFacedToken)
    } else if t == "emblem"@ {
        Some(CardLayout::Emblem)
    } else if t == "augment"@ {
        Some(CardLayout::Augment)
    } else if t == "host"@ {
        Some(CardLayout::Host)
    } else if t == "art_series"@ {
        Some(CardLayout::ArtSeries)
    } else {
        None
    }
}

impl CardLayout {
    /// Reads the provider's layout tag; unrecognized tags are kept as text.
    pub fn from_tag(tag: &str) -> (r: CardLayout)
        ensures
            match spec_layout_from_tag(tag@) {
                Some(l) => r == l,
                None => r matches CardLayout::Unknown(s) && s@ == tag@,
            },
    {
        if str_eq(tag, "normal") {
            CardLayout::Normal
        } else if str_eq(tag, "split") {
            CardLayout::Split
        } else if str_eq(tag, "flip") {
            CardLayout::Flip
        } else if str_eq(tag, "transform") {
            CardLayout::Transform
        } else if str_eq(tag, "modal_dfc") {
            CardLayout::ModalDfc
        } else if str_eq(tag, "meld") {
            CardLayout::Meld
        } else if str_eq(tag, "leveler") {
            CardLayout::Leveler
        } else if str_eq(tag, "class") {
            CardLayout::Class
        } else if str_eq(tag, "saga") {
            CardLayout::Saga
        } else if str_eq(tag, "adventure") {
            CardLayout::Adventure
        } else if str_eq(tag, "prototype") {
            CardLayout::Prototype
        } else if str_eq(tag, "battle") {
            CardLayout::Battle
        } else if str_eq(tag, "mutate") {
            CardLayout::Mutate
        } else if str_eq(tag, "token") {
            CardLayout::Token
        } else if str_eq(tag, "double_faced_token") {
            CardLayout::DoubleFacedToken
        } else if str_eq(tag, "emblem") {
            CardLayout::Emblem
        } else if str_eq(tag, "augment") {
            CardLayout::Augment
        } else if str_eq(tag, "host") {
            CardLayout::Host
        } else if str_eq(tag, "art_series") {
            CardLayout::ArtSeries
        } else {
            CardLayout::Unknown(String::from_str(tag))
        }
    }
}

/// The rarity of one printing.
#[derive(Debug, Clone, Copy, PartialEq, Eq, Hash, Structural)]
pub enum Rarity {
    Common,
    Uncommon,
    Rare,
    Mythic,
    Special,
    Bonus,
}

/// The tag each rarity is stored as.
pub open spec fn spec_rarity_tag(r: Rarity) -> Seq<char> {
    match r {
        Rarity::Common => "common"@,
        Rarity::Uncommon => "uncommon"@,
        Rarity::Rare => "rare"@,
        Rarity::Mythic => "mythic"@,
        Rarity::Special => "special"@,
        Rarity::Bonus => "bonus"@,
    }
}

/// The rarity a tag names, or nothing for an unrecognized tag.
pub open spec fn spec_rarity_from_tag(t: Seq<char>) -> Option<Rarity> {
    if t == "common"@ {
        Some(Rarity::Common)
    } else if t == "uncommon"@ {
        Some(Rarity::Uncommon)
    } else if t == "rare"@ {
        Some(Rarity::Rare)
    } else if t == "mythic"@ {
        Some(Rarity::Mythic)
    } else if t == "special"@ {
        Some(Rarity::Special)
    } else if t == "bonus"@ {
        Some(Rarity::Bonus)
    } else {
        None
    }
}

impl Rarity {
    /// Reads a rarity tag exactly; unrecognized text is refused.
    pub fn try_from_tag(tag: &str) -> (r: Option<Rarity>)
        ensures
            r == spec_rarity_from_tag(tag@),
    {
        if str_eq(tag, "common") {
            Some(Rarity::Common)
        } else if str_eq(tag, "uncommon") {
            Some(Rarity::Uncommon)
        } else if str_eq(tag, "rare") {
            Some(Rarity::Rare)
        } else if str_eq(tag, "mythic") {
            Some(Rarity::Mythic)
        } else if str_eq(tag, "special") {
            Some(Rarity::Special)
        } else if str_eq(tag, "bonus") {
            Some(Rarity::Bonus)
        } else {
            None
        }
    }

    /// Reads a rarity tag as conversion does: anything unrecognized
    /// becomes common.
    pub fn from_tag_or_common(tag: &str) -> (r: Rarity)
        ensures
            r == match spec_rarity_from_tag(tag@) {
                Some(x) => x,
                None => Rarity::Common,
            },
    {
        match Rarity::try_from_tag(tag) {
            Some(x) => x,
            None => Rarity::Common,
        }
    }

    /// The lowercase tag this rarity is stored as.
    pub fn as_tag(&self) -> (r: String)
        ensures
            r@ == spec_rarity_tag(*self),
    {
        match self {
            Rarity::Common => String::from_str("common"),
            Rarity::Uncommon => String::from_str("uncommon"),
            Rarity::Rare => String::from_str("rare"),
            Rarity::Mythic => String::from_str("mythic"),
            Rarity::Special => String::from_str("special"),
            Rarity::Bonus => String::from_str("bonus"),
        }
    }
}

/// Up to six optional image links for one printing.
#[derive(Debug, PartialEq, Eq, Hash)]
pub struct ImageUris {
    pub small: Option<String>,
    pub normal: Option<String>,
    pub large: Option<String>,
    pub png: Option<String>,
    pub art_crop: Option<String>,
    pub border_crop: Option<String>,
}

pub open spec fn image_uris_eq(a: ImageUris, b: ImageUris) -> bool {
    &&& opt_string_eq(a.small, b.small)
    &&& opt_string_eq(a.normal, b.normal)
    &&& opt_string_eq(a.large, b.large)
    &&& opt_string_eq(a.png, b.png)
    &&& opt_string_eq(a.art_crop, b.art_crop)
    &&& opt_string_eq(a.border_crop, b.border_crop)
}

impl Clone for ImageUris {
    fn clone(&self) -> (res: ImageUris)
        ensures
            image_uris_eq(res, *self),
    {
        ImageUris {
            small: clone_opt_string(&self.small),
            normal: clone_opt_string(&self.normal),
            large: clone_opt_string(&self.large),
            png: clone_opt_string(&self.png),
            art_crop: clone_opt_string(&self.art_crop),
            border_crop: clone_opt_string(&self.border_crop),
        }
    }
}

/// Four optional currency values and the moment they were fetched.
#[derive(Debug, Clone, Copy, PartialEq, Eq, Hash, Structural)]
pub struct PriceSnapshot {
    pub usd: Option<DecimalValue>,
    pub usd_foil: Option<DecimalValue>,
    pub eur: Option<DecimalValue>,
    pub tix: Option<DecimalValue>,
    pub fetched_at: Timestamp,
}

/// The rules-identity record, one per oracle identifier: its faces, color
/// identity, keywords and per-format legality.
#[derive(Debug, PartialEq, Eq)]
pub struct OracleCard {
    pub oracle_id: Uuid,
    pub layout: CardLayout,
    pub faces: Vec<CardFace>,
    pub color_identity: ColorSet,
    pub keywords: Vec<Keyword>,
    pub legalities: Legalities,
    pub edh_rank: Option<u32>,
    pub reserved: bool,
}

/// Two oracle cards read the same in every field, faces in order.
pub open spec fn oracle_card_eq(a: OracleCard, b: OracleCard) -> bool {
    &&& a.oracle_id == b.oracle_id
    &&& layout_eq(a.layout, b.layout)
    &&& a.faces@.len() == b.faces@.len()
    &&& forall|i: int| 0 <= i < a.faces@.len() ==> face_eq(#[trigger] a.faces@[i], b.faces@[i])
    &&& a.color_identity == b.color_identity
    &&& a.keywords@.len() == b.keywords@.len()
    &&& forall|i: int|
        0 <= i < a.keywords@.len() ==> keyword_eq(#[trigger] a.keywords@[i], b.keywords@[i])
    &&& legalities_eq(a.legalities, b.legalities)
    &&& a.edh_rank == b.edh_rank
    &&& a.reserved == b.reserved
}

impl Clone for OracleCard {
    fn clone(&self) -> (res: OracleCard)
        ensures
            oracle_card_eq(res, *self),
    {
        let mut faces: Vec<CardFace> = Vec::new();
        let mut i: usize = 0;
        while i < self.faces.len()
            invariant
                0 <= i <= self.faces.len(),
                faces@.len() == i,
                forall|k: int| 0 <= k < i ==> face_eq(#[trigger] faces@[k], self.faces@[k]),
            decreases self.faces.len() - i,
        {
            faces.push(self.faces[i].clone());
            i = i + 1;
        }
        let mut keywords: Vec<Keyword> = Vec::new();
        let mut j: usize = 0;
        while j < self.keywords.len()
            invariant
                0 <= j <= self.keywords.len(),
                keywords@.len() == j,
                forall|k: int| 0 <= k < j ==> keyword_eq(#[trigger] keywords@[k], self.keywords@[k]),
            decreases self.keywords.len() - j,
        {
            keywords.push(self.keywords[j].clone());
            j = j + 1;
        }
        OracleCard {
            oracle_id: self.oracle_id,
            layout: self.layout.clone(),
            faces,
            color_identity: self.color_identity,
            keywords,
            legalities: self.legalities.clone(),
            edh_rank: self.edh_rank,
            reserved: self.reserved,
        }
    }
}

impl OracleCard {
    /// The first face; every card that exists has at least one.
    pub fn primary_face(&self) -> (r: &CardFace)
        requires
            self.faces@.len() > 0,
        ensures
            *r == self.faces@[0],
    {
        &self.faces[0]
    }

    /// The primary face's name.
    pub fn name(&self) -> (r: &str)
        requires
            self.faces@.len() > 0,
        ensures
            r@ == self.faces@[0].name@,
    {
        self.faces[0].name.as_str()
    }
}

/// One specific printing of an oracle card, keyed by its own identifier.
#[derive(Debug, PartialEq, Eq)]
pub struct Printing {
    pub id: Uuid,
    pub oracle_id: Uuid,
    pub set_code: String,
    pub collector_number: String,
    pub rarity: Rarity,
    pub lang: String,
    pub released_at: Date,
    pub image_uris: Option<ImageUris>,
    pub promo: bool,
    pub digital: bool,
    pub full_art: bool,
    pub textless: bool,
    pub reprint: bool,
    pub prices: Option<PriceSnapshot>,
}

pub open spec fn opt_image_uris_eq(a: Option<ImageUris>, b: Option<ImageUris>) -> bool {
    match (a, b) {
        (Option::Some(x), Option::Some(y)) => image_uris_eq(x, y),
        (Option::None, Option::None) => true,
        _ => false,
    }
}

/// Two printings read the same in every field.
pub open spec fn printing_eq(a: Printing, b: Printing) -> bool {
    &&& a.id == b.id
    &&& a.oracle_id == b.oracle_id
    &&& a.set_code@ == b.set_code@
    &&& a.collector_number@ == b.collector_number@
    &&& a.rarity == b.rarity
    &&& a.lang@ == b.lang@
    &&& a.released_at == b.released_at
    &&& opt_image_uris_eq(a.image_uris, b.image_uris)
    &&& a.promo == b.promo
    &&& a.digital == b.digital
    &&& a.full_art == b.full_art
    &&& a.textless == b.textless
    &&& a.reprint == b.reprint
    &&& a.prices == b.prices
}

impl Clone for Printing {
    fn clone(&self) -> (res: Printing)
        ensures
            printing_eq(res, *self),
    {
        Printing {
            id: self.id,
            oracle_id: self.oracle_id,
            set_code: self.set_code.clone(),
            collector_number: self.collector_number.clone(),
            rarity: self.rarity,
            lang: self.lang.clone(),
            released_at: self.released_at,
            image_uris: match &self.image_uris {
                Option::Some(u) => Option::Some(u.clone()),
                Option::None => Option::None,
            },
            promo: self.promo,
            digital: self.digital,
            full_art: self.full_art,
            textless: self.textless,
            reprint: self.reprint,
            prices: self.prices,
        }
    }
}

} // verus!
