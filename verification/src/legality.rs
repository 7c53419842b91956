use vstd::prelude::*;

verus! {

/// A format-scoped legality status.
#[derive(Debug, Clone, Copy, PartialEq, Eq, Hash, Structural)]
pub enum LegalityStatus {
    Legal,
    Restricted,
    Banned,
    NotLegal,
}

/// The name of a constructed or limited format; an open set.
#[derive(Debug, PartialEq, Eq, Hash)]
pub struct Format(pub String);

pub open spec fn format_eq(a: Format, b: Format) -> bool {
    a.0@ == b.0@
}

impl Clone for Format {
    fn clone(&self) -> (res: Format)
        ensures
            format_eq(res, *self),
    {
        Format(self.0.clone())
    }
}

/// The per-format legality of a card, kept as (format, status) pairs.
/// A later pair for the same format name overrides an earlier one, so the
/// mapping read out of the pairs is the one a map built by repeated
/// insertion would hold.
#[derive(Debug, PartialEq, Eq)]
pub struct Legalities(pub Vec<(Format, LegalityStatus)>);

/// The mapping the pair list stands for, later entries winning.
pub open spec fn legalities_map(s: Seq<(Format, LegalityStatus)>) -> Map<
    Seq<char>,
    LegalityStatus,
>
    decreases s.len(),
{
    if s.len() == 0 {
        Map::empty()
    } else {
        legalities_map(s.drop_last()).insert(s.last().0.0@, s.last().1)
    }
}

pub open spec fn legalities_eq(a: Legalities, b: Legalities) -> bool {
    &&& a.0@.len() == b.0@.len()
    &&& forall|i: int|
        0 <= i < a.0@.len() ==> format_eq((#[trigger] a.0@[i]).0, b.0@[i].0) && a.0@[i].1
            == b.0@[i].1
}

impl Clone for Legalities {
    fn clone(&self) -> (res: Legalities)
        ensures
            legalities_eq(res, *self),
    {
        let mut pairs: Vec<(Format, LegalityStatus)> = Vec::new();
        let mut i: usize = 0;
        while i < self.0.len()
            invariant
                0 <= i <= self.0.len(),
                pairs@.len() == i,
                forall|k: int|
                    0 <= k < i ==> format_eq((#[trigger] pairs@[k]).0, self.0@[k].0) && pairs@[k].1
                        == self.0@[k].1,
            decreases self.0.len() - i,
        {
            let pair = &self.0[i];
            pairs.push((pair.0.clone(), pair.1));
            i = i + 1;
        }
        Legalities(pairs)
    }
}

impl Default for Legalities {
    /// No format entries at all.
    fn default() -> (r: Legalities)
        ensures
            r.0@.len() == 0,
    {
        Legalities(Vec::new())
    }
}

/// Pairwise-equal legality lists stand for the same mapping.
pub proof fn lemma_legalities_eq_map(a: Legalities, b: Legalities)
    requires
        legalities_eq(a, b),
    ensures
        legalities_map(a.0@) == legalities_map(b.0@),
{
    lemma_legalities_map_prefix(a.0@, b.0@);
}

proof fn lemma_legalities_map_prefix(sa: Seq<(Format, LegalityStatus)>, sb: Seq<(Format, LegalityStatus)>)
    requires
        sa.len() == sb.len(),
        forall|i: int| 0 <= i < sa.len() ==> format_eq(#[trigger] sa[i].0, sb[i].0) && sa[i].1 == sb[i].1,
    ensures
        legalities_map(sa) == legalities_map(sb),
    decreases sa.len(),
{
    if sa.len() > 0 {
        let ta = sa.drop_last();
        let tb = sb.drop_last();
        assert forall|i: int| 0 <= i < ta.len() implies format_eq(#[trigger] ta[i].0, tb[i].0)
            && ta[i].1 == tb[i].1 by {
            assert(ta[i] == sa[i] && tb[i] == sb[i]);
        }
        lemma_legalities_map_prefix(ta, tb);
        assert(sa.last().0.0@ == sb.last().0.0@ && sa.last().1 == sb.last().1);
    }
}

/// The status a wire tag names; anything unrecognized is not legal.
pub open spec fn spec_status_from_tag(t: Seq<char>) -> LegalityStatus {
    if t == "legal"@ {
        LegalityStatus::Legal
    } else if t == "restricted"@ {
        LegalityStatus::Restricted
    } else if t == "banned"@ {
        LegalityStatus::Banned
    } else {
        LegalityStatus::NotLegal
    }
}

impl LegalityStatus {
    /// Reads a wire status tag; unrecognized text, like `not_legal`,
    /// reads as not legal.
    pub fn from_tag(tag: &str) -> (r: LegalityStatus)
        ensures
            r == spec_status_from_tag(tag@),
    {
        if crate::strutil::str_eq(tag, "legal") {
            LegalityStatus::Legal
        } else if crate::strutil::str_eq(tag, "restricted") {
            LegalityStatus::Restricted
        } else if crate::strutil::str_eq(tag, "banned") {
            LegalityStatus::Banned
        } else {
            LegalityStatus::NotLegal
        }
    }
}

impl Legalities {
    /// True exactly when the format's entry is present and reads legal;
    /// an absent format, or any other status, is not legal.
    pub fn is_legal_in(&self, format: &Format) -> (r: bool)
        ensures
            r == (legalities_map(self.0@).contains_key(format.0@) && legalities_map(self.0@)[format.0@]
                is Legal),
    {
        let n = self.0.len();
        proof {
            assert(self.0@.take(n as int) =~= self.0@);
        }
        let mut i: usize = n;
        while i > 0
            invariant
                0 <= i <= n,
                n == self.0@.len(),
                legalities_map(self.0@).contains_key(format.0@) == legalities_map(
                    self.0@.take(i as int),
                ).contains_key(format.0@),
                legalities_map(self.0@).contains_key(format.0@) ==> legalities_map(
                    self.0@,
                )[format.0@] == legalities_map(self.0@.take(i as int))[format.0@],
            decreases i,
        {
            i = i - 1;
            proof {
                assert(self.0@.take(i + 1).drop_last() =~= self.0@.take(i as int));
                assert(self.0@.take(i + 1).last() == self.0@[i as int]);
            }
            let pair = &self.0[i];
            if pair.0.0 == format.0 {
                return matches!(pair.1, LegalityStatus::Legal);
            }
        }
        proof {
            assert(self.0@.take(0) =~= Seq::<(Format, LegalityStatus)>::empty());
        }
        false
    }
}

} // verus!
