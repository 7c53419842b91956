use vstd::prelude::*;

verus! {

/// Comprehensive-Rules keyword abilities and keyword actions, with a
/// fallback for keywords the publisher adds later.
#[derive(Debug, PartialEq, Eq, Hash)]
#[non_exhaustive]
pub enum Keyword {
    Deathtouch,
    Defender,
    DoubleStrike,
    Enchant,
    Equip,
    FirstStrike,
    Flash,
    Flying,
    Haste,
    Hexproof,
    Indestructible,
    Intimidate,
    Landwalk,
    Lifelink,
    Menace,
    Protection,
    Reach,
    Shroud,
    Trample,
    Vigilance,
    Infect,
    Wither,
    Persist,
    Undying,
    Riot,
    Cascade,
    Convoke,
    Delve,
    Emerge,
    Escape,
    Foretell,
    Jumpstart,
    Kicker,
    Mutate,
    Overload,
    Replicate,
    Spectacle,
    Surge,
    Transmute,
    Unearth,
    Improvise,
    Affinity,
    Aftermath,
    Bestow,
    Cycling,
    Dash,
    Evoke,
    Flashback,
    Madness,
    Miracle,
    Morph,
    Ninjutsu,
    Prowl,
    Suspend,
    Transfigure,
    Ward,
    Ravenous,
    Squad,
    Scry,
    Surveil,
    Mill,
    Investigate,
    Explore,
    Unknown(String),
}

/// Two keywords are the same ability, unknown ones by their text.
pub open spec fn keyword_eq(a: Keyword, b: Keyword) -> bool {
    match (a, b) {
        (Keyword::Deathtouch, Keyword::Deathtouch) => true,
        (Keyword::Defender, Keyword::Defender) => true,
        (Keyword::DoubleStrike, Keyword::DoubleStrike) => true,
        (Keyword::Enchant, Keyword::Enchant) => true,
        (Keyword::Equip, Keyword::Equip) => true,
        (Keyword::FirstStrike, Keyword::FirstStrike) => true,
        (Keyword::Flash, Keyword::Flash) => true,
        (Keyword::Flying, Keyword::Flying) => true,
        (Keyword::Haste, Keyword::Haste) => true,
        (Keyword::Hexproof, Keyword::Hexproof) => true,
        (Keyword::Indestructible, Keyword::Indestructible) => true,
        (Keyword::Intimidate, Keyword::Intimidate) => true,
        (Keyword::Landwalk, Keyword::Landwalk) => true,
        (Keyword::Lifelink, Keyword::Lifelink) => true,
        (Keyword::Menace, Keyword::Menace) => true,
        (Keyword::Protection, Keyword::Protection) => true,
        (Keyword::Reach, Keyword::Reach) => true,
        (Keyword::Shroud, Keyword::Shroud) => true,
        (Keyword::Trample, Keyword::Trample) => true,
        (Keyword::Vigilance, Keyword::Vigilance) => true,
        (Keyword::Infect, Keyword::Infect) => true,
        (Keyword::Wither, Keyword::Wither) => true,
        (Keyword::Persist, Keyword::Persist) => true,
        (Keyword::Undying, Keyword::Undying) => true,
        (Keyword::Riot, Keyword::Riot) => true,
        (Keyword::Cascade, Keyword::Cascade) => true,
        (Keyword::Convoke, Keyword::Convoke) => true,
        (Keyword::Delve, Keyword::Delve) => true,
        (Keyword::Emerge, Keyword::Emerge) => true,
        (Keyword::Escape, Keyword::Escape) => true,
        (Keyword::Foretell, Keyword::Foretell) => true,
        (Keyword::Jumpstart, Keyword::Jumpstart) => true,
        (Keyword::Kicker, Keyword::Kicker) => true,
        (Keyword::Mutate, Keyword::Mutate) => true,
        (Keyword::Overload, Keyword::Overload) => true,
        (Keyword::Replicate, Keyword::Replicate) => true,
        (Keyword::Spectacle, Keyword::Spectacle) => true,
        (Keyword::Surge, Keyword::Surge) => true,
        (Keyword::Transmute, Keyword::Transmute) => true,
        (Keyword::Unearth, Keyword::Unearth) => true,
        (Keyword::Improvise, Keyword::Improvise) => true,
        (Keyword::Affinity, Keyword::Affinity) => true,
        (Keyword::Aftermath, Keyword::Aftermath) => true,
        (Keyword::Bestow, Keyword::Bestow) => true,
        (Keyword::Cycling, Keyword::Cycling) => true,
        (Keyword::Dash, Keyword::Dash) => true,
        (Keyword::Evoke, Keyword::Evoke) => true,
        (Keyword::Flashback, Keyword::Flashback) => true,
        (Keyword::Madness, Keyword::Madness) => true,
        (Keyword::Miracle, Keyword::Miracle) => true,
        (Keyword::Morph, Keyword::Morph) => true,
        (Keyword::Ninjutsu, Keyword::Ninjutsu) => true,
        (Keyword::Prowl, Keyword::Prowl) => true,
        (Keyword::Suspend, Keyword::Suspend) => true,
        (Keyword::Transfigure, Keyword::Transfigure) => true,
        (Keyword::Ward, Keyword::Ward) => true,
        (Keyword::Ravenous, Keyword::Ravenous) => true,
        (Keyword::Squad, Keyword::Squad) => true,
        (Keyword::Scry, Keyword::Scry) => true,
        (Keyword::Surveil, Keyword::Surveil) => true,
        (Keyword::Mill, Keyword::Mill) => true,
        (Keyword::Investigate, Keyword::Investigate) => true,
        (Keyword::Explore, Keyword::Explore) => true,
        (Keyword::Unknown(x), Keyword::Unknown(y)) => x@ == y@,
        _ => false,
    }
}

/// Copies a keyword list, element for element.
pub fn clone_keywords(v: &Vec<Keyword>) -> (r: Vec<Keyword>)
    ensures
        r@.len() == v@.len(),
        forall|i: int| 0 <= i < v@.len() ==> keyword_eq(#[trigger] r@[i], v@[i]),
{
    let mut r: Vec<Keyword> = Vec::new();
    let mut i: usize = 0;
    while i < v.len()
        invariant
            0 <= i <= v.len(),
            r@.len() == i,
            forall|k: int| 0 <= k < i ==> keyword_eq(#[trigger] r@[k], v@[k]),
        decreases v.len() - i,
    {
        r.push(v[i].clone());
        i = i + 1;
    }
    r
}

impl Clone for Keyword {
    fn clone(&self) -> (res: Keyword)
        ensures
            keyword_eq(res, *self),
    {
        match self {
            Keyword::Deathtouch => Keyword::Deathtouch,
            Keyword::Defender => Keyword::Defender,
            Keyword::DoubleStrike => Keyword::DoubleStrike,
            Keyword::Enchant => Keyword::Enchant,
            Keyword::Equip => Keyword::Equip,
            Keyword::FirstStrike => Keyword::FirstStrike,
            Keyword::Flash => Keyword::Flash,
            Keyword::Flying => Keyword::Flying,
            Keyword::Haste => Keyword::Haste,
            Keyword::Hexproof => Keyword::Hexproof,
            Keyword::Indestructible => Keyword::Indestructible,
            Keyword::Intimidate => Keyword::Intimidate,
            Keyword::Landwalk => Keyword::Landwalk,
            Keyword::Lifelink => Keyword::Lifelink,
            Keyword::Menace => Keyword::Menace,
            Keyword::Protection => Keyword::Protection,
            Keyword::Reach => Keyword::Reach,
            Keyword::Shroud => Keyword::Shroud,
            Keyword::Trample => Keyword::Trample,
            Keyword::Vigilance => Keyword::Vigilance,
            Keyword::Infect => Keyword::Infect,
            Keyword::Wither => Keyword::Wither,
            Keyword::Persist => Keyword::Persist,
            Keyword::Undying => Keyword::Undying,
            Keyword::Riot => Keyword::Riot,
            Keyword::Cascade => Keyword::Cascade,
            Keyword::Convoke => Keyword::Convoke,
            Keyword::Delve => Keyword::Delve,
            Keyword::Emerge => Keyword::Emerge,
            Keyword::Escape => Keyword::Escape,
            Keyword::Foretell => Keyword::Foretell,
            Keyword::Jumpstart => Keyword::Jumpstart,
            Keyword::Kicker => Keyword::Kicker,
            Keyword::Mutate => Keyword::Mutate,
            Keyword::Overload => Keyword::Overload,
            Keyword::Replicate => Keyword::Replicate,
            Keyword::Spectacle => Keyword::Spectacle,
            Keyword::Surge => Keyword::Surge,
            Keyword::Transmute => Keyword::Transmute,
            Keyword::Unearth => Keyword::Unearth,
            Keyword::Improvise => Keyword::Improvise,
            Keyword::Affinity => Keyword::Affinity,
            Keyword::Aftermath => Keyword::Aftermath,
            Keyword::Bestow => Keyword::Bestow,
            Keyword::Cycling => Keyword::Cycling,
            Keyword::Dash => Keyword::Dash,
            Keyword::Evoke => Keyword::Evoke,
            Keyword::Flashback => Keyword::Flashback,
            Keyword::Madness => Keyword::Madness,
            Keyword::Miracle => Keyword::Miracle,
            Keyword::Morph => Keyword::Morph,
            Keyword::Ninjutsu => Keyword::Ninjutsu,
            Keyword::Prowl => Keyword::Prowl,
            Keyword::Suspend => Keyword::Suspend,
            Keyword::Transfigure => Keyword::Transfigure,
            Keyword::Ward => Keyword::Ward,
            Keyword::Ravenous => Keyword::Ravenous,
            Keyword::Squad => Keyword::Squad,
            Keyword::Scry => Keyword::Scry,
            Keyword::Surveil => Keyword::Surveil,
            Keyword::Mill => Keyword::Mill,
            Keyword::Investigate => Keyword::Investigate,
            Keyword::Explore => Keyword::Explore,
            Keyword::Unknown(s) => Keyword::Unknown(s.clone()),
        }
    }
}

} // verus!
