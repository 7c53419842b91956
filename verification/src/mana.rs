use vstd::prelude::*;
use vstd::string::StringExecFns;
use crate::color::Color;
use crate::error::CoreError;

verus! {

/// A single cost symbol: a colored pip, a generic number, the variable
/// symbol, and so on, with a textual fallback for unrecognized symbols.
#[derive(Debug, PartialEq, Eq, Hash)]
#[non_exhaustive]
pub enum ManaSymbol {
    Colored(Color),
    Generic(u32),
    Variable,
    Colorless,
    Snow,
    Hybrid(Color, Color),
    TwoBrid(Color),
    Phyrexian(Color),
    HybridPhyrexian(Color, Color),
    Tap,
    Unknown(String),
}

/// Two symbols are the same pip, unknown ones by their text.
pub open spec fn mana_symbol_eq(a: ManaSymbol, b: ManaSymbol) -> bool {
    match (a, b) {
        (ManaSymbol::Colored(x), ManaSymbol::Colored(y)) => x == y,
        (ManaSymbol::Generic(x), ManaSymbol::Generic(y)) => x == y,
        (ManaSymbol::Variable, ManaSymbol::Variable) => true,
        (ManaSymbol::Colorless, ManaSymbol::Colorless) => true,
        (ManaSymbol::Snow, ManaSymbol::Snow) => true,
        (ManaSymbol::Hybrid(x1, x2), ManaSymbol::Hybrid(y1, y2)) => x1 == y1 && x2 == y2,
        (ManaSymbol::TwoBrid(x), ManaSymbol::TwoBrid(y)) => x == y,
        (ManaSymbol::Phyrexian(x), ManaSymbol::Phyrexian(y)) => x == y,
        (ManaSymbol::HybridPhyrexian(x1, x2), ManaSymbol::HybridPhyrexian(y1, y2)) => x1 == y1
            && x2 == y2,
        (ManaSymbol::Tap, ManaSymbol::Tap) => true,
        (ManaSymbol::Unknown(x), ManaSymbol::Unknown(y)) => x@ == y@,
        _ => false,
    }
}

impl Clone for ManaSymbol {
    fn clone(&self) -> (res: ManaSymbol)
        ensures
            mana_symbol_eq(res, *self),
    {
        match self {
            ManaSymbol::Colored(c) => ManaSymbol::Colored(*c),
            ManaSymbol::Generic(n) => ManaSymbol::Generic(*n),
            ManaSymbol::Variable => ManaSymbol::Variable,
            ManaSymbol::Colorless => ManaSymbol::Colorless,
            ManaSymbol::Snow => ManaSymbol::Snow,
            ManaSymbol::Hybrid(c1, c2) => ManaSymbol::Hybrid(*c1, *c2),
            ManaSymbol::TwoBrid(c) => ManaSymbol::TwoBrid(*c),
            ManaSymbol::Phyrexian(c) => ManaSymbol::Phyrexian(*c),
            ManaSymbol::HybridPhyrexian(c1, c2) => ManaSymbol::HybridPhyrexian(*c1, *c2),
            ManaSymbol::Tap => ManaSymbol::Tap,
            ManaSymbol::Unknown(s) => ManaSymbol::Unknown(s.clone()),
        }
    }
}

/// A mana cost: the ordered sequence of its symbols.
#[derive(Debug, PartialEq, Eq, Hash)]
pub struct ManaCost(pub Vec<ManaSymbol>);

/// Two costs hold the same symbols in the same order.
pub open spec fn mana_cost_eq(a: ManaCost, b: ManaCost) -> bool {
    &&& a.0@.len() == b.0@.len()
    &&& forall|i: int| 0 <= i < a.0@.len() ==> mana_symbol_eq(#[trigger] a.0@[i], b.0@[i])
}

impl Clone for ManaCost {
    fn clone(&self) -> (res: ManaCost)
        ensures
            mana_cost_eq(res, *self),
    {
        let mut symbols: Vec<ManaSymbol> = Vec::new();
        let mut i: usize = 0;
        while i < self.0.len()
            invariant
                0 <= i <= self.0.len(),
                symbols@.len() == i,
                forall|k: int| 0 <= k < i ==> mana_symbol_eq(#[trigger] symbols@[k], self.0@[k]),
            decreases self.0.len() - i,
        {
            symbols.push(self.0[i].clone());
            i = i + 1;
        }
        ManaCost(symbols)
    }
}

impl Default for ManaCost {
    /// A cost with no symbols.
    fn default() -> (r: ManaCost)
        ensures
            r.0@.len() == 0,
    {
        ManaCost(Vec::new())
    }
}

impl ManaCost {
    /// Textual mana-cost parsing is not offered in this revision: every
    /// input is answered with a parse failure, which conversion tolerates
    /// by falling back to a single unrecognized symbol.
    pub fn parse(s: &str) -> (r: Result<ManaCost, CoreError>)
        ensures
            r matches Err(e) && e matches CoreError::ParseError(_),
    {
        Err(CoreError::ParseError(String::from_str("not implemented")))
    }
}

} // verus!
