//! A card-catalog and collection-management library for a trading card game.
//!
//! The crate models cards, their printings, user collections and price
//! history, together with an in-memory storage backend, a bulk-ingestion
//! pipeline for a third-party provider's JSON export, and the supporting
//! value types (colors, mana costs, type lines, legalities).

pub mod bulk;
pub mod card;
pub mod collection;
pub mod color;
pub mod convert;
pub mod decimal;
pub mod deck;
pub mod error;
pub mod external;
pub mod game;
pub mod ident;
pub mod keyword;
pub mod laws;
pub mod legality;
pub mod mana;
pub mod models;
pub mod oracle;
pub mod rows;
pub mod ruling;
pub mod store;
pub mod strutil;
pub mod time;
pub mod types;

pub use bulk::{BulkIngestor, IngestStats};
pub use card::{CardFace, CardLayout, ImageUris, OracleCard, PriceSnapshot, Printing, Rarity};
pub use collection::{Collection, CollectionEntry, Condition};
pub use color::{Color, ColorSet};
pub use deck::{ArenaParser, Deck, DeckEntry, MoxfieldParser, MtgoParser};
pub use decimal::DecimalValue;
pub use error::{CoreError, DbError, DeckError, ScryfallError};
pub use game::{ObjectId, ZoneId};
pub use ident::Uuid;
pub use keyword::Keyword;
pub use legality::{Format, Legalities, LegalityStatus};
pub use mana::{ManaCost, ManaSymbol};
pub use models::{ScryfallCard, ScryfallCardFace};
pub use oracle::{OracleText, OracleTextSegment};
pub use ruling::Ruling;
pub use store::Storage;
pub use time::{Date, Timestamp};
pub use types::{CardType, Subtype, Supertype, TypeLine};
