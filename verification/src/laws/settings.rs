//! What the operator's settings say.
use crate::config::{
    effort_map_of, first_reaching, highest_at, resolved_effort, terms_of_lines, tier_for, tier_of,
    tiers_among, tiers_for, tiers_of, trimmed_pieces, with_mapping, with_mappings, with_segment,
    with_segments, EffortMapSpec, TierSpec,
};
use crate::laws::texts::{law_blank, law_split_in_parts, law_split_once_at};
use crate::text::{blank, find, lemma_find_first, number_up_to, split, split_once, trim};
use vstd::prelude::*;

verus! {

proof fn lemma_equals_sign()
    ensures
        "="@ == seq!['='],
        ":"@ == seq![':'],
{
    reveal_strlit("=");
    reveal_strlit(":");
    assert("="@ =~= seq!['=']);
    assert(":"@ =~= seq![':']);
}

/// A text without a character is not cut by it.
proof fn lemma_uncut(s: Seq<char>, c: char)
    requires
        !s.contains(c),
    ensures
        split_once(s, seq![c]) is None,
{
    let one = seq![c];
    lemma_find_first(s, one);
    if find(s, one) is Some {
        let i = find(s, one)->0;
        assert(s.subrange(i, i + 1)[0] == one[0]);
        assert(s[i] == c);
    }
}

/// `source=target` maps the one name to the other, both trimmed, whatever was mapped before; a
/// segment with an empty side, or without the sign, maps nothing.
pub proof fn law_mapping_is_read(segments: Seq<Seq<char>>, source: Seq<char>, target: Seq<char>)
    requires
        !source.contains('='),
    ensures
        with_mappings(Seq::empty()) == Map::<Seq<char>, Seq<char>>::empty(),
        ({
            let before = with_mappings(segments);
            let after = with_mappings(segments.push(source + seq!['='] + target));
            &&& !blank(source) && !blank(target) ==> after == before.insert(
                trim(source),
                trim(target),
            )
            &&& blank(source) || blank(target) ==> after == before
        }),
        with_mappings(segments.push(source)) == with_mappings(segments),
{
    lemma_equals_sign();
    let segment = source + seq!['='] + target;
    law_split_once_at(source, '=', target);
    assert(segments.push(segment).drop_last() =~= segments);
    assert(segments.push(source).drop_last() =~= segments);
    law_blank(source);
    law_blank(target);
    lemma_uncut(source, '=');
}

/// Settings are read segment by segment: what a semicolon separates is read in turn.
pub proof fn law_mappings_are_read_in_turn(a: Seq<char>, b: Seq<char>)
    requires
        !b.contains(';'),
    ensures
        with_mappings(split(a + seq![';'] + b, ';')) == with_mapping(with_mappings(split(a, ';')), b),
        effort_map_of(a + seq![';'] + b) == with_segment(effort_map_of(a), b),
{
    law_split_in_parts(a, b, ';');
    lemma_unsplit(b, ';');
    let all = split(a, ';') + seq![b];
    assert(all.drop_last() =~= split(a, ';'));
    assert(all.last() == b);
}

/// A text without the separator is its only piece.
proof fn lemma_unsplit(s: Seq<char>, c: char)
    requires
        !s.contains(c),
    ensures
        split(s, c) == seq![s],
{
    let one = seq![c];
    lemma_find_first(s, one);
    if find(s, one) is Some {
        let i = find(s, one)->0;
        assert(s.subrange(i, i + 1)[0] == one[0]);
        assert(s[i] == c);
    }
}

/// Terms are the trimmed pieces that are not blank, in order; line ends and semicolons part them.
pub proof fn law_terms_are_read(
    pieces: Seq<Seq<char>>,
    piece: Seq<char>,
    all: Seq<Seq<char>>,
    line: Seq<char>,
)
    ensures
        trimmed_pieces(Seq::empty()).len() == 0,
        blank(piece) ==> trimmed_pieces(pieces.push(piece)) == trimmed_pieces(pieces),
        !blank(piece) ==> trimmed_pieces(pieces.push(piece)) == trimmed_pieces(pieces).push(
            trim(piece),
        ),
        terms_of_lines(Seq::empty()).len() == 0,
        terms_of_lines(all.push(line)) == terms_of_lines(all) + trimmed_pieces(split(line, ';')),
{
    assert(pieces.push(piece).drop_last() =~= pieces);
    assert(all.push(line).drop_last() =~= all);
    law_blank(piece);
}

/// `effort:limit` is a tier where the limit is a number of 32 bits and the effort is not blank.
pub proof fn law_tier_is_read(effort: Seq<char>, limit: Seq<char>)
    requires
        !effort.contains(':'),
    ensures
        ({
            let number = number_up_to(trim(limit), u32::MAX as nat);
            let tier = tier_of(effort + seq![':'] + limit);
            &&& number is Some && !blank(effort) ==> tier is Some && tier->0.effort == trim(effort)
                && tier->0.max_budget == number->0
            &&& number is None || blank(effort) ==> tier is None
        }),
        tier_of(effort) is None,
{
    lemma_equals_sign();
    law_split_once_at(effort, ':', limit);
    law_blank(effort);
    lemma_uncut(effort, ':');
}

/// The tiers of a list, in order; what is no tier is passed over.
pub proof fn law_tiers_are_read(pieces: Seq<Seq<char>>, piece: Seq<char>)
    ensures
        tiers_among(Seq::empty()).len() == 0,
        tier_of(piece) is None ==> tiers_among(pieces.push(piece)) == tiers_among(pieces),
        tier_of(piece) is Some ==> tiers_among(pieces.push(piece)) == tiers_among(pieces).push(
            tier_of(piece)->0,
        ),
        forall|text: Seq<char>| #[trigger] tiers_of(text) == tiers_among(split(text, ',')),
{
    assert(pieces.push(piece).drop_last() =~= pieces);
}

/// A segment `model=tiers` gives that model tiers of its own and leaves the others theirs; one
/// without the sign gives the tiers of all models that have none of their own; a blank one gives
/// nothing.
pub proof fn law_segment_gives_tiers(
    map: EffortMapSpec,
    model: Seq<char>,
    tiers: Seq<char>,
    other: Seq<char>,
)
    requires
        !model.contains('='),
        other != trim(model),
    ensures
        ({
            let after = with_segment(map, model + seq!['='] + tiers);
            &&& tiers_for(after, trim(model)) == tiers_of(tiers)
            &&& tiers_for(after, other) == tiers_for(map, other)
        }),
        !blank(model) ==> {
            let after = with_segment(map, model);
            &&& after.global == tiers_of(model)
            &&& after.overrides == map.overrides
        },
        blank(model) ==> with_segment(map, model) == map,
        with_segments(Seq::empty()).global.len() == 0,
        with_segments(Seq::empty()).overrides.len() == 0,
{
    lemma_equals_sign();
    law_split_once_at(model, '=', tiers);
    lemma_uncut(model, '=');
    let after = with_segment(map, model + seq!['='] + tiers);
    assert(after.overrides.drop_last() =~= map.overrides);
}

/// The tiers of a model are the last that were given for it, or else those of all models.
pub proof fn law_own_tiers_count_first(map: EffortMapSpec, model: Seq<char>)
    ensures
        (forall|i: int| 0 <= i < map.overrides.len() ==> (#[trigger] map.overrides[i]).0 != model)
            ==> tiers_for(map, model) == map.global,
        forall|i: int|
            #![trigger map.overrides[i]]
            0 <= i < map.overrides.len() && map.overrides[i].0 == model && (forall|k: int|
                i < k < map.overrides.len() ==> (#[trigger] map.overrides[k]).0 != model)
                ==> tiers_for(map, model) == map.overrides[i].1,
    decreases map.overrides.len(),
{
    if map.overrides.len() > 0 {
        let n = map.overrides.len() - 1;
        let rest = EffortMapSpec { global: map.global, overrides: map.overrides.drop_last() };
        law_own_tiers_count_first(rest, model);
        assert(map.overrides[n] == map.overrides.last());
        if map.overrides.last().0 != model {
            if forall|i: int|
                0 <= i < map.overrides.len() ==> (#[trigger] map.overrides[i]).0 != model {
                assert forall|i: int| 0 <= i < rest.overrides.len() implies (
                #[trigger] rest.overrides[i]).0 != model by {
                    assert(rest.overrides[i] == map.overrides[i]);
                }
            }
            assert forall|i: int|
                #![trigger map.overrides[i]]
                0 <= i < map.overrides.len() && map.overrides[i].0 == model && (forall|k: int|
                    i < k < map.overrides.len() ==> (#[trigger] map.overrides[k]).0
                        != model) implies tiers_for(map, model) == map.overrides[i].1 by {
                assert(i < n);
                assert(rest.overrides[i] == map.overrides[i]);
                assert forall|k: int| i < k < rest.overrides.len() implies (
                #[trigger] rest.overrides[k]).0 != model by {
                    assert(rest.overrides[k] == map.overrides[k]);
                }
            }
        }
    }
}

proof fn lemma_highest(tiers: Seq<TierSpec>)
    requires
        tiers.len() > 0,
    ensures
        0 <= highest_at(tiers) < tiers.len(),
        forall|k: int|
            0 <= k < tiers.len() ==> (#[trigger] tiers[k]).max_budget
                <= tiers[highest_at(tiers)].max_budget,
        forall|k: int|
            0 <= k < highest_at(tiers) ==> (#[trigger] tiers[k]).max_budget
                < tiers[highest_at(tiers)].max_budget,
    decreases tiers.len(),
{
    if tiers.len() > 1 {
        let before = tiers.drop_last();
        lemma_highest(before);
        let at = highest_at(before);
        assert(before[at] == tiers[at]);
        assert forall|k: int| 0 <= k < before.len() implies (#[trigger] tiers[k]).max_budget
            <= tiers[at].max_budget by {
            assert(before[k] == tiers[k]);
        }
        assert forall|k: int| 0 <= k < at implies (#[trigger] tiers[k]).max_budget
            < tiers[at].max_budget by {
            assert(before[k] == tiers[k]);
        }
    }
}

/// The effort for a budget, of which no more than 16384 counts: that of the first tier that
/// reaches it; where none does, that of the first among the highest; none where there are none.
pub proof fn law_budget_picks_a_tier(map: EffortMapSpec, model: Seq<char>, budget: u32) -> (at: int)
    ensures
        ({
            let tiers = tiers_for(map, model);
            let asked = if budget <= 16384 {
                budget
            } else {
                16384
            };
            let effort = resolved_effort(map, model, budget);
            if tiers.len() == 0 {
                effort is None
            } else {
                &&& 0 <= at < tiers.len()
                &&& effort == Some(tiers[at].effort)
                &&& tiers[at].max_budget >= asked ==> forall|k: int|
                    0 <= k < at ==> (#[trigger] tiers[k]).max_budget < asked
                &&& tiers[at].max_budget < asked ==> {
                    &&& forall|k: int|
                        0 <= k < tiers.len() ==> (#[trigger] tiers[k]).max_budget
                            <= tiers[at].max_budget
                    &&& forall|k: int|
                        0 <= k < at ==> (#[trigger] tiers[k]).max_budget < tiers[at].max_budget
                }
            }
        }),
{
    let tiers = tiers_for(map, model);
    let asked: u32 = if budget <= 16384 {
        budget
    } else {
        16384
    };
    assert(resolved_effort(map, model, budget) == tier_for(tiers, asked));
    if tiers.len() == 0 {
        0
    } else if exists|i: int| 0 <= i < tiers.len() && (#[trigger] tiers[i]).max_budget >= asked {
        let i = choose|i: int| 0 <= i < tiers.len() && (#[trigger] tiers[i]).max_budget >= asked;
        lemma_some_reaches(tiers, asked, i);
        choose|k: int| first_reaching(tiers, asked, k)
    } else {
        lemma_highest(tiers);
        highest_at(tiers)
    }
}

/// Where a tier reaches the budget, there is a first that does.
proof fn lemma_some_reaches(tiers: Seq<TierSpec>, asked: u32, i: int)
    requires
        0 <= i < tiers.len(),
        tiers[i].max_budget >= asked,
    ensures
        exists|k: int| first_reaching(tiers, asked, k),
    decreases i,
{
    if exists|k: int| 0 <= k < i && (#[trigger] tiers[k]).max_budget >= asked {
        let k = choose|k: int| 0 <= k < i && (#[trigger] tiers[k]).max_budget >= asked;
        lemma_some_reaches(tiers, asked, k);
    } else {
        assert(first_reaching(tiers, asked, i));
    }
}

} // verus!
