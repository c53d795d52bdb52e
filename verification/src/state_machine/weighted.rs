use super::Randomness;
use crate::format::animation::ChoiceItem;
use vstd::prelude::*;

verus! {

/// A choice is open at `level` unless it names a higher minimum level.
pub open spec fn eligible(c: ChoiceItem, level: u8) -> bool {
    match c.min_level {
        Some(m) => level >= m,
        None => true,
    }
}

/// Some choice of `choices` is open at `level`.
pub open spec fn any_eligible(choices: Seq<ChoiceItem>, level: u8) -> bool {
    exists|i: int| 0 <= i < choices.len() && eligible(#[trigger] choices[i], level)
}

/// The positions of the choices open at `level`, in order.
pub open spec fn eligible_positions(choices: Seq<ChoiceItem>, level: u8) -> Seq<int>
    decreases choices.len(),
{
    if choices.len() == 0 {
        Seq::empty()
    } else {
        let before = eligible_positions(choices.drop_last(), level);
        if eligible(choices.last(), level) {
            before.push(choices.len() - 1)
        } else {
            before
        }
    }
}

/// The weights handed to the randomness source: those of the open choices, in order.
pub open spec fn eligible_weights(choices: Seq<ChoiceItem>, level: u8) -> Seq<u64> {
    eligible_positions(choices, level).map_values(|p: int| choices[p].weight_bits)
}

/// The position of the choice a draw of `drawn` gives: the `drawn`-th open choice, the
/// last open one for a draw past their end, and none when no choice is open.
pub open spec fn drawn_position(choices: Seq<ChoiceItem>, level: u8, drawn: int) -> Option<int> {
    let ps = eligible_positions(choices, level);
    if ps.len() == 0 {
        None
    } else if drawn < ps.len() {
        Some(ps[drawn])
    } else {
        Some(ps.last())
    }
}

proof fn lemma_eligible_positions(choices: Seq<ChoiceItem>, level: u8)
    ensures
        forall|k: int| 0 <= k < eligible_positions(choices, level).len() ==> {
            let p = #[trigger] eligible_positions(choices, level)[k];
            0 <= p < choices.len() && eligible(choices[p], level)
        },
        (eligible_positions(choices, level).len() == 0) == !any_eligible(choices, level),
    decreases choices.len(),
{
    if choices.len() > 0 {
        let shorter = choices.drop_last();
        lemma_eligible_positions(shorter, level);
        assert forall|k: int| 0 <= k < shorter.len() implies #[trigger] shorter[k] == choices[k] by {}
        if any_eligible(shorter, level) {
            let j = choose|j: int| 0 <= j < shorter.len() && eligible(#[trigger] shorter[j], level);
            assert(eligible(choices[j], level));
        }
        if eligible(choices.last(), level) {
            assert(eligible(choices[choices.len() - 1], level));
        }
        if any_eligible(choices, level) && !eligible(choices.last(), level) {
            let j = choose|j: int| 0 <= j < choices.len() && eligible(#[trigger] choices[j], level);
            assert(j != choices.len() - 1);
            assert(eligible(shorter[j], level));
        }
    }
}

/// The positions of the choices open at `level`, in order.
fn open_positions(choices: &[ChoiceItem], level: u8) -> (ps: Vec<usize>)
    ensures
        ps@.len() == eligible_positions(choices@, level).len(),
        forall|k: int| 0 <= k < ps@.len() ==> ps@[k] as int == #[trigger] eligible_positions(choices@, level)[k],
{
    let mut ps: Vec<usize> = Vec::new();
    let mut i: usize = 0;
    while i < choices.len()
        invariant
            i <= choices@.len(),
            ps@.len() == eligible_positions(choices@.take(i as int), level).len(),
            forall|k: int| 0 <= k < ps@.len() ==> ps@[k] as int == #[trigger] eligible_positions(choices@.take(i as int), level)[k],
        decreases choices@.len() - i,
    {
        proof {
            assert(choices@.take(i + 1).drop_last() =~= choices@.take(i as int));
            assert(choices@.take(i + 1).last() == choices@[i as int]);
        }
        let open = match choices[i].min_level {
            Some(m) => level >= m,
            None => true,
        };
        if open {
            ps.push(i);
        }
        i = i + 1;
    }
    assert(choices@.take(i as int) =~= choices@);
    ps
}

/// The weights a weighted draw over `choices` at `level` is made with: those of the open
/// choices, in order.
pub fn weights_for_draw(choices: &[ChoiceItem], level: u8) -> (weights: Vec<u64>)
    ensures
        weights@ == eligible_weights(choices@, level),
{
    proof { lemma_eligible_positions(choices@, level); }
    let ps = open_positions(choices, level);
    let mut weights: Vec<u64> = Vec::new();
    let mut k: usize = 0;
    while k < ps.len()
        invariant
            ps@.len() == eligible_positions(choices@, level).len(),
            forall|j: int| 0 <= j < ps@.len() ==> ps@[j] as int == #[trigger] eligible_positions(choices@, level)[j],
            forall|j: int| 0 <= j < eligible_positions(choices@, level).len() ==> {
                let p = #[trigger] eligible_positions(choices@, level)[j];
                0 <= p < choices@.len()
            },
            k <= ps@.len(),
            weights@ == eligible_weights(choices@, level).take(k as int),
        decreases ps@.len() - k,
    {
        let p = ps[k];
        assert(p as int == eligible_positions(choices@, level)[k as int]);
        weights.push(choices[p].weight_bits);
        assert(weights@ =~= eligible_weights(choices@, level).take(k + 1));
        k = k + 1;
    }
    assert(weights@ =~= eligible_weights(choices@, level));
    weights
}

/// The choice a draw of `drawn` gives (see `drawn_position`).
pub fn choice_for_draw<'a>(choices: &'a [ChoiceItem], level: u8, drawn: usize) -> (picked: Option<&'a ChoiceItem>)
    ensures
        match drawn_position(choices@, level, drawn as int) {
            Some(i) => picked == Some(&choices@[i]),
            None => picked is None,
        },
{
    proof { lemma_eligible_positions(choices@, level); }
    let ps = open_positions(choices, level);
    if ps.len() == 0 {
        return None;
    }
    let k = if drawn < ps.len() { drawn } else { ps.len() - 1 };
    let p = ps[k];
    assert(p as int == eligible_positions(choices@, level)[k as int]);
    Some(&choices[p])
}

/// Picks one of the choices open at `level`: the randomness source draws with the open
/// choices' weights (`weights_for_draw`), and the draw gives the choice
/// `choice_for_draw` names for it. `None` exactly when no choice is open.
pub fn pick_weighted<'a, R: Randomness>(choices: &'a [ChoiceItem], level: u8, rng: &mut R) -> (picked: Option<&'a ChoiceItem>)
    ensures
        picked is None <==> !any_eligible(choices@, level),
        picked matches Some(c) ==> exists|i: int| 0 <= i < choices@.len() && eligible(choices@[i], level) && *c == #[trigger] choices@[i],
        picked matches Some(c) ==> exists|d: int|
            0 <= d && (#[trigger] drawn_position(choices@, level, d) matches Some(i) && c == &choices@[i]),
{
    proof { lemma_eligible_positions(choices@, level); }
    let weights = weights_for_draw(choices, level);
    if weights.len() == 0 {
        return None;
    }
    let drawn = rng.pick_weighted(&weights);
    let picked = choice_for_draw(choices, level, drawn);
    proof {
        let i = drawn_position(choices@, level, drawn as int)->0;
        let ps = eligible_positions(choices@, level);
        if (drawn as int) < ps.len() {
            assert(ps[drawn as int] == i);
        } else {
            assert(ps[ps.len() - 1] == i);
        }
        assert(eligible(choices@[i], level));
    }
    picked
}

} // verus!
