use vstd::prelude::*;

verus! {

/// A treaty between two civilizations; wars run until peace is made.
#[derive(Debug, Clone, Copy, PartialEq, Eq, Structural)]
pub enum Treaty {
    NonAggression { turns_remaining: u32 },
    Alliance { turns_remaining: u32 },
    TradePact { turns_remaining: u32 },
    War { started_turn: u32 },
}

/// What happened between civilizations.
#[derive(Debug, Clone, Copy, PartialEq, Eq, Structural)]
pub enum DiplomaticEventType {
    WarDeclared,
    PeaceSigned,
    AllianceFormed,
    AllianceBroken,
    TradeAgreementSigned,
    DiplomaticInsult,
}

/// The kind of a diplomatic proposal: the four that change treaties, and the others.
#[derive(Debug, Clone, Copy, PartialEq, Eq, Structural)]
pub enum ProposalKind {
    TradePact,
    NonAggressionPact,
    Alliance,
    PeaceTreaty,
    Other,
}

/// Turns a non-aggression pact lasts.
pub const NON_AGGRESSION_TURNS: u32 = 50;
/// Turns an alliance lasts.
pub const ALLIANCE_TURNS: u32 = 100;

/// A treaty one turn later: `None` when it runs out, else with one turn less; a war
/// stays as it is.
pub open spec fn tick_treaty(t: Treaty) -> Option<Treaty> {
    match t {
        Treaty::NonAggression { turns_remaining } =>
            if turns_remaining >= 2 { Some(Treaty::NonAggression { turns_remaining: (turns_remaining - 1) as u32 }) } else { None },
        Treaty::Alliance { turns_remaining } =>
            if turns_remaining >= 2 { Some(Treaty::Alliance { turns_remaining: (turns_remaining - 1) as u32 }) } else { None },
        Treaty::TradePact { turns_remaining } =>
            if turns_remaining >= 2 { Some(Treaty::TradePact { turns_remaining: (turns_remaining - 1) as u32 }) } else { None },
        Treaty::War { started_turn } => Some(t),
    }
}

/// The treaties one turn later, in order.
pub open spec fn tick_treaties(s: Seq<Treaty>) -> Seq<Treaty>
    decreases s.len(),
{
    if s.len() == 0 {
        Seq::empty()
    } else {
        let rest = tick_treaties(s.drop_last());
        match tick_treaty(s.last()) {
            Some(t) => rest.push(t),
            None => rest,
        }
    }
}

/// The treaties without the wars, in order.
pub open spec fn without_wars(s: Seq<Treaty>) -> Seq<Treaty>
    decreases s.len(),
{
    if s.len() == 0 {
        Seq::empty()
    } else {
        let rest = without_wars(s.drop_last());
        if s.last() is War { rest } else { rest.push(s.last()) }
    }
}

/// The treaties of a relation after a proposal of kind `kind` is accepted.
pub open spec fn treaties_after(kind: ProposalKind, s: Seq<Treaty>) -> Seq<Treaty> {
    match kind {
        ProposalKind::NonAggressionPact => s.push(Treaty::NonAggression { turns_remaining: NON_AGGRESSION_TURNS }),
        ProposalKind::Alliance => s.push(Treaty::Alliance { turns_remaining: ALLIANCE_TURNS }),
        ProposalKind::PeaceTreaty => without_wars(s),
        _ => s,
    }
}

/// Keeping, managing and judging relations between civilizations.
pub struct DiplomaticSystem;

impl DiplomaticSystem {
    /// Moves a relation's treaties one turn on: each pact loses a turn and ends when none
    /// is left; wars go on.
    pub fn update_treaty_durations(treaties: &mut Vec<Treaty>)
        ensures
            final(treaties)@ == tick_treaties(old(treaties)@),
    {
        let mut all: Vec<Treaty> = Vec::new();
        std::mem::swap(&mut all, treaties);
        let ghost orig = all@;
        let mut i: usize = 0;
        while i < all.len()
            invariant
                all@ == orig,
                i <= orig.len(),
                treaties@ == tick_treaties(orig.take(i as int)),
            decreases orig.len() - i,
        {
            proof {
                assert(orig.take(i + 1).drop_last() =~= orig.take(i as int));
                assert(orig.take(i + 1).last() == orig[i as int]);
            }
            let kept = match all[i] {
                Treaty::NonAggression { turns_remaining } => {
                    let left = if turns_remaining > 0 { turns_remaining - 1 } else { 0 };
                    if left > 0 { Some(Treaty::NonAggression { turns_remaining: left }) } else { None }
                },
                Treaty::Alliance { turns_remaining } => {
                    let left = if turns_remaining > 0 { turns_remaining - 1 } else { 0 };
                    if left > 0 { Some(Treaty::Alliance { turns_remaining: left }) } else { None }
                },
                Treaty::TradePact { turns_remaining } => {
                    let left = if turns_remaining > 0 { turns_remaining - 1 } else { 0 };
                    if left > 0 { Some(Treaty::TradePact { turns_remaining: left }) } else { None }
                },
                Treaty::War { started_turn } => Some(Treaty::War { started_turn }),
            };
            match kept {
                Some(t) => treaties.push(t),
                None => {},
            }
            i = i + 1;
        }
        proof {
            assert(orig.take(orig.len() as int) =~= orig);
        }
    }

    /// Takes effect of an accepted proposal of kind `kind` on a relation: a trade pact
    /// sets the trade agreement; a non-aggression pact adds one for 50 turns; an alliance
    /// adds one for 100 turns; a peace treaty ends every war. Returns how much the
    /// relation's value rises: 10, 15, 25 and 20 for those, 0 for any other proposal.
    pub fn accept_proposal(kind: ProposalKind, treaties: &mut Vec<Treaty>, trade_agreement: &mut bool) -> (relation_gain: u32)
        ensures
            final(treaties)@ == treaties_after(kind, old(treaties)@),
            *final(trade_agreement) == (kind == ProposalKind::TradePact || *old(trade_agreement)),
            relation_gain == match kind {
                ProposalKind::TradePact => 10u32,
                ProposalKind::NonAggressionPact => 15u32,
                ProposalKind::Alliance => 25u32,
                ProposalKind::PeaceTreaty => 20u32,
                ProposalKind::Other => 0u32,
            },
    {
        match kind {
            ProposalKind::TradePact => {
                *trade_agreement = true;
                10
            },
            ProposalKind::NonAggressionPact => {
                treaties.push(Treaty::NonAggression { turns_remaining: NON_AGGRESSION_TURNS });
                15
            },
            ProposalKind::Alliance => {
                treaties.push(Treaty::Alliance { turns_remaining: ALLIANCE_TURNS });
                25
            },
            ProposalKind::PeaceTreaty => {
                let mut all: Vec<Treaty> = Vec::new();
                std::mem::swap(&mut all, treaties);
                let ghost orig = all@;
                let mut i: usize = 0;
                while i < all.len()
                    invariant
                        all@ == orig,
                        i <= orig.len(),
                        treaties@ == without_wars(orig.take(i as int)),
                    decreases orig.len() - i,
                {
                    proof {
                        assert(orig.take(i + 1).drop_last() =~= orig.take(i as int));
                        assert(orig.take(i + 1).last() == orig[i as int]);
                    }
                    let t = all[i];
                    match t {
                        Treaty::War { .. } => {},
                        _ => treaties.push(t),
                    }
                    i = i + 1;
                }
                proof {
                    assert(orig.take(orig.len() as int) =~= orig);
                }
                20
            },
            ProposalKind::Other => 0,
        }
    }

    /// The event that an accepted proposal of kind `kind` records: an alliance formed,
    /// peace signed, or (for any other kind) a trade agreement signed.
    pub fn proposal_event_type(kind: ProposalKind) -> (e: DiplomaticEventType)
        ensures
            e == match kind {
                ProposalKind::Alliance => DiplomaticEventType::AllianceFormed,
                ProposalKind::PeaceTreaty => DiplomaticEventType::PeaceSigned,
                _ => DiplomaticEventType::TradeAgreementSigned,
            },
    {
        match kind {
            ProposalKind::Alliance => DiplomaticEventType::AllianceFormed,
            ProposalKind::PeaceTreaty => DiplomaticEventType::PeaceSigned,
            _ => DiplomaticEventType::TradeAgreementSigned,
        }
    }
}

/// A turn never ends a war, and never lengthens a treaty: every war stays, and there are
/// never more treaties after a turn than before.
pub proof fn lemma_wars_outlast_turns(s: Seq<Treaty>)
    ensures
        tick_treaties(s).len() <= s.len(),
        forall|i: int| 0 <= i < s.len() && (#[trigger] s[i]) is War ==> tick_treaties(s).contains(s[i]),
    decreases s.len(),
{
    if s.len() > 0 {
        let p = s.drop_last();
        lemma_wars_outlast_turns(p);
        assert forall|i: int| 0 <= i < s.len() && (#[trigger] s[i]) is War implies tick_treaties(s).contains(s[i]) by {
            if i < s.len() - 1 {
                assert(p[i] == s[i]);
                let k = choose|k: int| 0 <= k < tick_treaties(p).len() && tick_treaties(p)[k] == p[i];
                match tick_treaty(s.last()) {
                    Some(t) => assert(tick_treaties(s)[k] == s[i]),
                    None => {},
                }
            } else {
                assert(tick_treaties(s)[tick_treaties(p).len() as int] == s[i]);
            }
        }
    }
}

/// After peace no war is left, and every other treaty is kept.
pub proof fn lemma_peace_ends_wars(s: Seq<Treaty>)
    ensures
        forall|i: int| 0 <= i < without_wars(s).len() ==> !((#[trigger] without_wars(s)[i]) is War),
        forall|i: int| 0 <= i < s.len() && !((#[trigger] s[i]) is War) ==> without_wars(s).contains(s[i]),
    decreases s.len(),
{
    if s.len() > 0 {
        let p = s.drop_last();
        lemma_peace_ends_wars(p);
        assert forall|i: int| 0 <= i < s.len() && !((#[trigger] s[i]) is War) implies without_wars(s).contains(s[i]) by {
            if i < s.len() - 1 {
                assert(p[i] == s[i]);
                let k = choose|k: int| 0 <= k < without_wars(p).len() && without_wars(p)[k] == p[i];
                assert(without_wars(s)[k] == s[i]);
            } else {
                assert(without_wars(s)[without_wars(p).len() as int] == s[i]);
            }
        }
    }
}

/// Whether a treaty keeps its parties from starting a war: a non-aggression pact, an
/// alliance, or a war already under way.
pub open spec fn bars_war(t: Treaty) -> bool {
    match t {
        Treaty::NonAggression { .. } | Treaty::Alliance { .. } | Treaty::War { .. } => true,
        Treaty::TradePact { .. } => false,
    }
}

/// Whether some treaty of `treaties` keeps its parties from starting a war.
pub fn war_barred(treaties: &Vec<Treaty>) -> (b: bool)
    ensures
        b == exists|i: int| 0 <= i < treaties@.len() && bars_war(#[trigger] treaties@[i]),
{
    let mut i: usize = 0;
    while i < treaties.len()
        invariant
            0 <= i <= treaties.len(),
            forall|j: int| 0 <= j < i ==> !bars_war(#[trigger] treaties@[j]),
        decreases treaties.len() - i,
    {
        match treaties[i] {
            Treaty::TradePact { .. } => {},
            _ => {
                return true;
            },
        }
        i = i + 1;
    }
    false
}

/// Whether `treaties` include an alliance.
pub fn has_alliance(treaties: &Vec<Treaty>) -> (b: bool)
    ensures
        b == exists|i: int| 0 <= i < treaties@.len() && (#[trigger] treaties@[i]) is Alliance,
{
    let mut i: usize = 0;
    while i < treaties.len()
        invariant
            0 <= i <= treaties.len(),
            forall|j: int| 0 <= j < i ==> !((#[trigger] treaties@[j]) is Alliance),
        decreases treaties.len() - i,
    {
        match treaties[i] {
            Treaty::Alliance { .. } => {
                return true;
            },
            _ => {},
        }
        i = i + 1;
    }
    false
}

/// One turn on, each pact (non-aggression, alliance, trade) with `n >= 2` turns left is
/// kept, in its place, with `n - 1` turns left; one with at most one turn left is
/// removed; a war is kept as it is. The treaties before it are moved on the same way.
pub proof fn lemma_pacts_count_down(s: Seq<Treaty>, t: Treaty)
    ensures
        t matches Treaty::NonAggression { turns_remaining: n } ==> tick_treaties(s.push(t))
            == if n >= 2 { tick_treaties(s).push(Treaty::NonAggression { turns_remaining: (n - 1) as u32 }) } else { tick_treaties(s) },
        t matches Treaty::Alliance { turns_remaining: n } ==> tick_treaties(s.push(t))
            == if n >= 2 { tick_treaties(s).push(Treaty::Alliance { turns_remaining: (n - 1) as u32 }) } else { tick_treaties(s) },
        t matches Treaty::TradePact { turns_remaining: n } ==> tick_treaties(s.push(t))
            == if n >= 2 { tick_treaties(s).push(Treaty::TradePact { turns_remaining: (n - 1) as u32 }) } else { tick_treaties(s) },
        t is War ==> tick_treaties(s.push(t)) == tick_treaties(s).push(t),
        tick_treaties(s.push(t)).len() <= tick_treaties(s).len() + 1,
{
    assert(s.push(t).drop_last() =~= s);
    assert(s.push(t).last() == t);
}

/// Accepting a proposal changes a relation's treaties as follows: a non-aggression pact
/// adds one pact of 50 turns at the end, an alliance adds one of 100 turns at the end,
/// a trade pact and any other proposal leave the treaties as they were.
pub proof fn lemma_accepted_proposals_add_their_treaty(s: Seq<Treaty>)
    ensures
        treaties_after(ProposalKind::NonAggressionPact, s) == s.push(Treaty::NonAggression { turns_remaining: 50 }),
        treaties_after(ProposalKind::Alliance, s) == s.push(Treaty::Alliance { turns_remaining: 100 }),
        treaties_after(ProposalKind::TradePact, s) == s,
        treaties_after(ProposalKind::Other, s) == s,
{
}

} // verus!
