use vstd::prelude::*;
use crate::keyword::{keyword_eq, Keyword};
use crate::mana::{mana_cost_eq, ManaCost};

verus! {

/// One unit of structured rules text: prose, an inline cost, a keyword
/// ability, reminder text, a non-mana symbol, or a paragraph break.
#[derive(Debug, PartialEq, Eq, Hash)]
#[non_exhaustive]
pub enum OracleTextSegment {
    Text(String),
    ManaCost(ManaCost),
    Keyword { keyword: Keyword, parameter: Option<String> },
    Reminder(String),
    Symbol(String),
    Paragraph,
}

pub open spec fn opt_string_eq(a: Option<String>, b: Option<String>) -> bool {
    match (a, b) {
        (Option::Some(x), Option::Some(y)) => x@ == y@,
        (Option::None, Option::None) => true,
        _ => false,
    }
}

pub open spec fn segment_eq(a: OracleTextSegment, b: OracleTextSegment) -> bool {
    match (a, b) {
        (OracleTextSegment::Text(x), OracleTextSegment::Text(y)) => x@ == y@,
        (OracleTextSegment::ManaCost(x), OracleTextSegment::ManaCost(y)) => mana_cost_eq(x, y),
        (
            OracleTextSegment::Keyword { keyword: xk, parameter: xp },
            OracleTextSegment::Keyword { keyword: yk, parameter: yp },
        ) => keyword_eq(xk, yk) && opt_string_eq(xp, yp),
        (OracleTextSegment::Reminder(x), OracleTextSegment::Reminder(y)) => x@ == y@,
        (OracleTextSegment::Symbol(x), OracleTextSegment::Symbol(y)) => x@ == y@,
        (OracleTextSegment::Paragraph, OracleTextSegment::Paragraph) => true,
        _ => false,
    }
}

pub fn clone_opt_string(s: &Option<String>) -> (r: Option<String>)
    ensures
        opt_string_eq(r, *s),
{
    match s {
        Option::Some(x) => Option::Some(x.clone()),
        Option::None => Option::None,
    }
}

impl Clone for OracleTextSegment {
    fn clone(&self) -> (res: OracleTextSegment)
        ensures
            segment_eq(res, *self),
    {
        match self {
            OracleTextSegment::Text(s) => OracleTextSegment::Text(s.clone()),
            OracleTextSegment::ManaCost(m) => OracleTextSegment::ManaCost(m.clone()),
            OracleTextSegment::Keyword { keyword, parameter } => OracleTextSegment::Keyword {
                keyword: keyword.clone(),
                parameter: clone_opt_string(parameter),
            },
            OracleTextSegment::Reminder(s) => OracleTextSegment::Reminder(s.clone()),
            OracleTextSegment::Symbol(s) => OracleTextSegment::Symbol(s.clone()),
            OracleTextSegment::Paragraph => OracleTextSegment::Paragraph,
        }
    }
}

/// Structured oracle text: the ordered sequence of its segments. Raw prose
/// appears only as the content of text or reminder segments, never as the
/// canonical form itself.
#[derive(Debug, PartialEq, Eq, Hash)]
pub struct OracleText(pub Vec<OracleTextSegment>);

pub open spec fn oracle_text_eq(a: OracleText, b: OracleText) -> bool {
    &&& a.0@.len() == b.0@.len()
    &&& forall|i: int| 0 <= i < a.0@.len() ==> segment_eq(#[trigger] a.0@[i], b.0@[i])
}

impl Clone for OracleText {
    fn clone(&self) -> (res: OracleText)
        ensures
            oracle_text_eq(res, *self),
    {
        let mut segments: Vec<OracleTextSegment> = Vec::new();
        let mut i: usize = 0;
        while i < self.0.len()
            invariant
                0 <= i <= self.0.len(),
                segments@.len() == i,
                forall|k: int| 0 <= k < i ==> segment_eq(#[trigger] segments@[k], self.0@[k]),
            decreases self.0.len() - i,
        {
            segments.push(self.0[i].clone());
            i = i + 1;
        }
        OracleText(segments)
    }
}

impl Default for OracleText {
    /// Text with no segments.
    fn default() -> (r: OracleText)
        ensures
            r.0@.len() == 0,
    {
        OracleText(Vec::new())
    }
}

/// The keywords named by the keyword segments of a segment sequence, in
/// order of appearance.
pub open spec fn spec_keywords(segs: Seq<OracleTextSegment>) -> Seq<Keyword>
    decreases segs.len(),
{
    if segs.len() == 0 {
        Seq::empty()
    } else {
        spec_keywords(segs.drop_last()) + (match segs.last() {
            OracleTextSegment::Keyword { keyword, .. } => seq![keyword],
            _ => Seq::empty(),
        })
    }
}

impl OracleText {
    /// The keywords of this text's keyword segments, in order.
    pub fn keywords(&self) -> (r: Vec<Keyword>)
        ensures
            r@.len() == spec_keywords(self.0@).len(),
            forall|i: int|
                0 <= i < r@.len() ==> keyword_eq(#[trigger] r@[i], spec_keywords(self.0@)[i]),
    {
        let mut r: Vec<Keyword> = Vec::new();
        let mut i: usize = 0;
        while i < self.0.len()
            invariant
                0 <= i <= self.0.len(),
                r@.len() == spec_keywords(self.0@.take(i as int)).len(),
                forall|k: int|
                    0 <= k < r@.len() ==> keyword_eq(
                        #[trigger] r@[k],
                        spec_keywords(self.0@.take(i as int))[k],
                    ),
            decreases self.0.len() - i,
        {
            proof {
                assert(self.0@.take(i + 1).drop_last() =~= self.0@.take(i as int));
                assert(self.0@.take(i + 1).last() == self.0@[i as int]);
            }
            if let OracleTextSegment::Keyword { keyword, .. } = &self.0[i] {
                r.push(keyword.clone());
            }
            i = i + 1;
        }
        proof {
            assert(self.0@.take(self.0@.len() as int) =~= self.0@);
        }
        r
    }
}

} // verus!
