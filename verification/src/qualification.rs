//! Helper for items qualification.
//!
//! The knowledge base uses an "instance of" property to qualify items,
//! which is helpful to identify voies, especially the pseudo-voies not
//! furthermore described in FANTOIR. When an item carries several such
//! classification values, one winner is picked along a fixed priority
//! order, from the most specific and most important down.

use vstd::prelude::*;
use vstd::string::*;

use crate::text::str_eq;

verus! {

/// The priority order over classification values, most important first.
pub open spec fn spec_p31_winners() -> Seq<Seq<char>> {
    seq![
        // Important values
        "Q928830"@,  // metro station
        "Q18615527"@,  // tram bridge
        "Q1793804"@,  // express-network rail station
        "Q55488"@,  // rail station
        "Q55485"@,  // dead-end rail station
        "Q510662"@,  // ring road
        "Q2376564"@,  // motorway interchange
        // Less important values, as probably already qualified by FANTOIR
        "Q3558430"@,  // villa, a name used for private roads
        "Q15070223"@,  // cité, same thing
        "Q207934"@,  // allée
        "Q54114"@,  // boulevard
        "Q99228502"@,  // avenue (a road called avenue, not the avenue concept)
        "Q7543083"@,  // avenue (a true one)
        "Q283977"@,  // parvis
        "Q174782"@,  // place
        "Q164419"@,  // galerie
        "Q12731"@,  // impasse, should lose against avenue
        "Q13634881"@,  // passage
        "Q1251403"@,  // ruelle
        "Q3840711"@,  // quai
        "Q88372"@,  // esplanade, should win against public garden
        "Q787113"@,  // promenade
        "Q17383262"@,  // cour
        "Q1068842"@,  // passerelle
        "Q641406"@,  // terrasse
        "Q16634966"@,  // escalier
        "Q628179"@,  // sentier
        "Q5004679"@,  // chemin
        "Q3352369"@,  // chemin piétonnier
        "Q1529"@,  // rond-point
        "Q1525"@,  // carrefour giratoire
        "Q4421"@,  // forêt
        "Q22698"@,  // parc
        "Q2026833"@,  // square, public-garden kind
        "Q22746"@,  // jardin public
        "Q3215290"@,  // lac artificiel
        "Q12280"@,  // pont, should lose against place
        "Q158438"@,  // pont en arc
        "Q537127"@,  // pont routier
        "Q1440300"@,  // tour d'observation
        "Q16560"@,  // palais
        "Q2080521"@,  // halle
        "Q16917"@,  // hôpital
        // Those values are probably too generic, so they are kept last
        "Q1302778"@,  // voie rapide
        "Q79007"@,  // street, wins against road but loses against boulevard
        "Q83620"@,  // voie de communication
    ]
}

fn p31_winners() -> (r: Vec<&'static str>)
    ensures
        r.deep_view() == spec_p31_winners(),
{
    let mut r: Vec<&'static str> = Vec::new();
    r.push("Q928830");
    r.push("Q18615527");
    r.push("Q1793804");
    r.push("Q55488");
    r.push("Q55485");
    r.push("Q510662");
    r.push("Q2376564");
    r.push("Q3558430");
    r.push("Q15070223");
    r.push("Q207934");
    r.push("Q54114");
    r.push("Q99228502");
    r.push("Q7543083");
    r.push("Q283977");
    r.push("Q174782");
    r.push("Q164419");
    r.push("Q12731");
    r.push("Q13634881");
    r.push("Q1251403");
    r.push("Q3840711");
    r.push("Q88372");
    r.push("Q787113");
    r.push("Q17383262");
    r.push("Q1068842");
    r.push("Q641406");
    r.push("Q16634966");
    r.push("Q628179");
    r.push("Q5004679");
    r.push("Q3352369");
    r.push("Q1529");
    r.push("Q1525");
    r.push("Q4421");
    r.push("Q22698");
    r.push("Q2026833");
    r.push("Q22746");
    r.push("Q3215290");
    r.push("Q12280");
    r.push("Q158438");
    r.push("Q537127");
    r.push("Q1440300");
    r.push("Q16560");
    r.push("Q2080521");
    r.push("Q16917");
    r.push("Q1302778");
    r.push("Q79007");
    r.push("Q83620");
    proof {
        assert(r.deep_view() =~= spec_p31_winners());
    }
    r
}

/// The first entry of `winners` that also appears among `candidates`.
pub open spec fn first_winner(winners: Seq<Seq<char>>, candidates: Seq<Seq<char>>) -> Option<
    Seq<char>,
>
    decreases winners.len(),
{
    if winners.len() == 0 {
        None
    } else if candidates.contains(winners[0]) {
        Some(winners[0])
    } else {
        first_winner(winners.skip(1), candidates)
    }
}

/// The winning classification: a lone candidate wins at once; otherwise the
/// best-placed priority entry present among the candidates, and failing
/// that the first candidate.
pub open spec fn spec_p31_winner(candidates: Seq<Seq<char>>) -> Seq<char> {
    if candidates.len() == 1 {
        candidates[0]
    } else {
        match first_winner(spec_p31_winners(), candidates) {
            Some(w) => w,
            None => candidates[0],
        }
    }
}

/// Determines amongst a set of classification values which one is the most
/// relevant to describe a pseudo-voie. Deterministic and total: it never
/// fails, falling back to the first candidate when none is known.
pub fn determine_p31_winner(candidates: &Vec<String>) -> (r: String)
    requires
        candidates@.len() >= 1,
    ensures
        r@ == spec_p31_winner(candidates.deep_view()),
{
    let ghost cv = candidates.deep_view();
    proof {
        assert(cv.len() == candidates@.len());
    }
    if candidates.len() == 1 {
        // If there is only one, that is the one to use.
        return candidates[0].clone();
    }
    let winners = p31_winners();
    let mut i: usize = 0;
    proof {
        assert(spec_p31_winners().skip(0) =~= spec_p31_winners());
    }
    while i < winners.len()
        invariant
            0 <= i <= winners@.len(),
            winners.deep_view() == spec_p31_winners(),
            winners@.len() == spec_p31_winners().len(),
            cv == candidates.deep_view(),
            cv.len() == candidates@.len(),
            candidates@.len() >= 2,
            first_winner(spec_p31_winners(), cv) == first_winner(
                spec_p31_winners().skip(i as int),
                cv,
            ),
        decreases winners@.len() - i,
    {
        let winner_candidate = winners[i];
        proof {
            assert(winners.deep_view()[i as int] == winners@[i as int]@);
            assert(spec_p31_winners().skip(i as int)[0] == spec_p31_winners()[i as int]);
        }
        let mut j: usize = 0;
        while j < candidates.len()
            invariant
                0 <= j <= candidates@.len(),
                cv == candidates.deep_view(),
                cv.len() == candidates@.len(),
                candidates@.len() >= 2,
                winner_candidate@ == spec_p31_winners()[i as int],
                0 <= i < spec_p31_winners().len(),
                first_winner(spec_p31_winners(), cv) == first_winner(
                    spec_p31_winners().skip(i as int),
                    cv,
                ),
                forall|k: int| 0 <= k < j ==> cv[k] != winner_candidate@,
            decreases candidates@.len() - j,
        {
            proof {
                assert(cv[j as int] == candidates@[j as int]@);
            }
            if str_eq(winner_candidate, candidates[j].as_str()) {
                proof {
                    assert(cv.contains(spec_p31_winners()[i as int]));
                }
                return candidates[j].clone();
            }
            j += 1;
        }
        proof {
            assert(!cv.contains(spec_p31_winners()[i as int])) by {
                if cv.contains(spec_p31_winners()[i as int]) {
                    let k = choose|k: int|
                        0 <= k < cv.len() && cv[k] == spec_p31_winners()[i as int];
                }
            }
            assert(spec_p31_winners().skip(i as int).skip(1) =~= spec_p31_winners().skip(i + 1));
        }
        i += 1;
    }
    proof {
        assert(spec_p31_winners().skip(spec_p31_winners().len() as int) =~= Seq::<
            Seq<char>,
        >::empty());
    }
    candidates[0].clone()
}

proof fn lemma_first_winner_same_membership(
    winners: Seq<Seq<char>>,
    a: Seq<Seq<char>>,
    b: Seq<Seq<char>>,
)
    requires
        forall|x: Seq<char>| a.contains(x) <==> b.contains(x),
    ensures
        first_winner(winners, a) == first_winner(winners, b),
    decreases winners.len(),
{
    if winners.len() > 0 {
        lemma_first_winner_same_membership(winners.skip(1), a, b);
    }
}

proof fn lemma_first_winner_is_some(winners: Seq<Seq<char>>, candidates: Seq<Seq<char>>, p: Seq<char>)
    requires
        winners.contains(p),
        candidates.contains(p),
    ensures
        first_winner(winners, candidates) is Some,
    decreases winners.len(),
{
    if !candidates.contains(winners[0]) {
        assert(winners[0] != p);
        let k = choose|k: int| 0 <= k < winners.len() && winners[k] == p;
        assert(winners.skip(1)[k - 1] == p);
        lemma_first_winner_is_some(winners.skip(1), candidates, p);
    }
}

/// With several candidates, at least one of which stands in the priority
/// list, the winner depends only on which values are present among the
/// candidates, not on the order they arrived in.
pub proof fn lemma_p31_winner_set_membership(a: Seq<Seq<char>>, b: Seq<Seq<char>>)
    requires
        a.len() >= 2,
        b.len() >= 2,
        a.to_set() == b.to_set(),
        exists|p: Seq<char>| #[trigger] spec_p31_winners().contains(p) && a.contains(p),
    ensures
        spec_p31_winner(a) == spec_p31_winner(b),
{
    assert(forall|x: Seq<char>| a.contains(x) <==> b.contains(x)) by {
        assert(forall|x: Seq<char>| #[trigger] a.contains(x) <==> a.to_set().contains(x));
        assert(forall|x: Seq<char>| #[trigger] b.contains(x) <==> b.to_set().contains(x));
    }
    lemma_first_winner_same_membership(spec_p31_winners(), a, b);
    let p = choose|p: Seq<char>| #[trigger] spec_p31_winners().contains(p) && a.contains(p);
    lemma_first_winner_is_some(spec_p31_winners(), a, p);
}

} // verus!
