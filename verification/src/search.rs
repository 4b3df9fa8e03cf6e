//! The fuzzy ranking engine: every recipe is flattened into one searchable
//! document, scored against the query, unmatched recipes are dropped, the
//! survivors are sorted by ascending score — the literal, lowest-quality-
//! first order of the service — and the page is cut with offset and limit.

use vstd::prelude::*;
use vstd::multiset::Multiset;
use fuzzy_matcher::FuzzyMatcher;
use crate::model::ResponseRecipe;
use crate::model::ResponseRecipeView;
use crate::model::response_views;

verus! {

/// The score the fuzzy matcher gives a document for a query; `None` when
/// the query's characters do not occur in order in the document.
pub uninterp spec fn fuzzy_score_of(doc: Seq<char>, query: Seq<char>) -> Option<i64>;

/// Relies on fuzzy-matcher's `SkimMatcherV2::fuzzy_match` under the
/// default configuration: the score is a function of the document and
/// query text alone.
#[verifier::external_body]
fn fuzzy_match(doc: &String, query: &String) -> (r: Option<i64>)
    ensures
        r == fuzzy_score_of(doc@, query@),
{
    fuzzy_matcher::skim::SkimMatcherV2::default().fuzzy_match(doc.as_str(), query.as_str())
}

/// The ingredient titles joined with `", "`.
pub open spec fn joined_titles(titles: Seq<Seq<char>>) -> Seq<char>
    decreases titles.len(),
{
    if titles.len() == 0 {
        Seq::empty()
    } else if titles.len() == 1 {
        titles[0]
    } else {
        joined_titles(titles.drop_last()) + ", "@ + titles.last()
    }
}

/// The document a recipe is searched as: title, description and joined
/// ingredient titles, separated by single spaces, in that fixed order.
pub open spec fn doc_of(r: ResponseRecipeView) -> Seq<char> {
    r.title + " "@ + r.description + " "@ + joined_titles(r.ingredients)
}

/// The recipe's score for the query.
pub open spec fn doc_score(r: ResponseRecipeView, q: Seq<char>) -> Option<i64> {
    fuzzy_score_of(doc_of(r), q)
}

/// Whether the query matches the recipe's document at all.
pub open spec fn matches_query(r: ResponseRecipeView, q: Seq<char>) -> bool {
    doc_score(r, q).is_some()
}

/// The recipe's score, meaningful when [`matches_query`] holds.
pub open spec fn score_val(r: ResponseRecipeView, q: Seq<char>) -> i64 {
    doc_score(r, q).unwrap()
}

/// Scores never descend along the sequence.
pub open spec fn scores_sorted(s: Seq<ResponseRecipeView>, q: Seq<char>) -> bool {
    forall|i: int, j: int|
        0 <= i <= j < s.len() ==> score_val(#[trigger] s[i], q) <= score_val(#[trigger] s[j], q)
}

/// The subsequence of recipes whose documents the query matches, in the
/// order they came in.
pub open spec fn matched_of(s: Seq<ResponseRecipeView>, q: Seq<char>) -> Seq<ResponseRecipeView>
    decreases s.len(),
{
    if s.len() == 0 {
        Seq::empty()
    } else {
        matched_of(s.drop_last(), q) + if matches_query(s.last(), q) {
            seq![s.last()]
        } else {
            Seq::empty()
        }
    }
}

/// One recipe inserted into an already ranked list: it lands before the
/// first entry whose score is not below its own. The list it is inserted
/// into holds only recipes ranked from later submissions, so an equal
/// score keeps the earlier submission first.
pub open spec fn insert_stable(
    x: ResponseRecipeView,
    s: Seq<ResponseRecipeView>,
    q: Seq<char>,
) -> Seq<ResponseRecipeView>
    decreases s.len(),
{
    if s.len() == 0 {
        seq![x]
    } else if score_val(x, q) <= score_val(s[0], q) {
        seq![x] + s
    } else {
        seq![s[0]] + insert_stable(x, s.drop_first(), q)
    }
}

/// The ranking the service returns for a matched sequence: ascending
/// score, equal scores keeping their order in `s`.
pub open spec fn stable_rank(s: Seq<ResponseRecipeView>, q: Seq<char>) -> Seq<ResponseRecipeView>
    decreases s.len(),
{
    if s.len() == 0 {
        Seq::empty()
    } else {
        insert_stable(s.first(), stable_rank(s.drop_first(), q), q)
    }
}

/// The matched subsequence distributes over concatenation.
pub proof fn lemma_matched_of_concat(
    a: Seq<ResponseRecipeView>,
    b: Seq<ResponseRecipeView>,
    q: Seq<char>,
)
    ensures
        matched_of(a + b, q) == matched_of(a, q) + matched_of(b, q),
    decreases b.len(),
{
    if b.len() == 0 {
        assert(a + b =~= a);
        assert(matched_of(a, q) + matched_of(b, q) =~= matched_of(a, q));
    } else {
        assert((a + b).drop_last() =~= a + b.drop_last());
        lemma_matched_of_concat(a, b.drop_last(), q);
        assert((a + b).last() == b.last());
        assert(matched_of(a + b, q) =~= matched_of(a, q) + matched_of(b, q));
    }
}

/// Where [`insert_stable`] puts the new entry: right at the first index
/// whose score is not below the entry's own.
proof fn lemma_insert_stable_at(
    x: ResponseRecipeView,
    s: Seq<ResponseRecipeView>,
    q: Seq<char>,
    p: int,
)
    requires
        0 <= p <= s.len(),
        forall|t: int| 0 <= t < p ==> score_val(#[trigger] s[t], q) < score_val(x, q),
        p < s.len() ==> score_val(s[p], q) >= score_val(x, q),
    ensures
        insert_stable(x, s, q) == s.take(p) + seq![x] + s.skip(p),
    decreases p,
{
    if p == 0 {
        if s.len() == 0 {
            assert(insert_stable(x, s, q) =~= s.take(0) + seq![x] + s.skip(0));
        } else {
            assert(score_val(x, q) <= score_val(s[0], q));
            assert(seq![x] + s =~= s.take(0) + seq![x] + s.skip(0));
        }
    } else {
        assert(score_val(s[0], q) < score_val(x, q));
        let d = s.drop_first();
        assert forall|t: int| 0 <= t < p - 1 implies score_val(#[trigger] d[t], q) < score_val(
            x,
            q,
        ) by {
            assert(d[t] == s[t + 1]);
        }
        if p - 1 < d.len() {
            assert(d[p - 1] == s[p]);
        }
        lemma_insert_stable_at(x, d, q, p - 1);
        assert(seq![s[0]] + (d.take(p - 1) + seq![x] + d.skip(p - 1)) =~= s.take(p) + seq![x]
            + s.skip(p));
    }
}

/// A query that matches no document leaves nothing to rank.
pub proof fn lemma_no_match_empty(s: Seq<ResponseRecipeView>, q: Seq<char>)
    requires
        forall|i: int| 0 <= i < s.len() ==> !matches_query(#[trigger] s[i], q),
    ensures
        matched_of(s, q).len() == 0,
    decreases s.len(),
{
    if s.len() > 0 {
        assert(!matches_query(s[s.len() - 1], q));
        lemma_no_match_empty(s.drop_last(), q);
    }
}

/// Builds the searchable document for one recipe: title, description and
/// the ingredient titles joined with `", "`, separated by single spaces.
pub fn build_document(rec: &ResponseRecipe) -> (r: String)
    ensures
        r@ == doc_of(rec@),
{
    let mut s = rec.title.clone();
    s.append(" ");
    s.append(rec.description.as_str());
    s.append(" ");
    proof {
        assert(rec@.ingredients.take(0) =~= Seq::<Seq<char>>::empty());
        assert(s@ =~= rec@.title + " "@ + rec@.description + " "@ + joined_titles(
            rec@.ingredients.take(0),
        ));
    }
    let n = rec.ingredients.len();
    for i in 0..n
        invariant
            n == rec.ingredients.len(),
            s@ == rec@.title + " "@ + rec@.description + " "@ + joined_titles(
                rec@.ingredients.take(i as int),
            ),
    {
        if i > 0 {
            s.append(", ");
        }
        s.append(rec.ingredients[i].as_str());
        proof {
            let ts = rec@.ingredients;
            assert(ts[i as int] == rec.ingredients@[i as int]@);
            assert(ts.take(i as int + 1).drop_last() =~= ts.take(i as int));
            assert(ts.take(i as int + 1).last() == ts[i as int]);
            if i == 0 {
                assert(joined_titles(ts.take(1)) == ts[0]);
            } else {
                assert(joined_titles(ts.take(i as int + 1)) == joined_titles(ts.take(i as int))
                    + ", "@ + ts[i as int]);
            }
            assert(s@ =~= rec@.title + " "@ + rec@.description + " "@ + joined_titles(
                ts.take(i as int + 1),
            ));
        }
    }
    proof {
        assert(rec@.ingredients.take(n as int) =~= rec@.ingredients);
    }
    s
}

/// Scores never descend along the pairs' keys.
pub open spec fn pairs_sorted(s: Seq<(ResponseRecipe, i64)>) -> bool {
    forall|i: int, j: int| 0 <= i <= j < s.len() ==> (#[trigger] s[i]).1 <= (#[trigger] s[j]).1
}

/// The views of the pairs' recipes, keys dropped.
pub open spec fn pair_firsts(s: Seq<(ResponseRecipe, i64)>) -> Seq<ResponseRecipeView> {
    s.map_values(|p: (ResponseRecipe, i64)| p.0@)
}

/// Inserts the pair before the first key not below its own, keeping the
/// keys sorted; an equal key already present stays in front, which is
/// what [`insert_stable`] says of the views.
fn insert_sorted(
    out: &mut Vec<(ResponseRecipe, i64)>,
    item: (ResponseRecipe, i64),
    Ghost(q): Ghost<Seq<char>>,
)
    requires
        pairs_sorted(old(out)@),
        forall|t: int|
            0 <= t < old(out)@.len() ==> (#[trigger] old(out)@[t]).1 == score_val(
                old(out)@[t].0@,
                q,
            ),
        item.1 == score_val(item.0@, q),
    ensures
        pairs_sorted(final(out)@),
        final(out)@.len() == old(out)@.len() + 1,
        pair_firsts(final(out)@) == insert_stable(item.0@, pair_firsts(old(out)@), q),
        pair_firsts(final(out)@).to_multiset() == pair_firsts(old(out)@).to_multiset().insert(
            item.0@,
        ),
        forall|t: int|
            0 <= t < final(out)@.len() ==> (#[trigger] final(out)@[t]) == item || old(
                out,
            )@.contains(final(out)@[t]),
{
    let ghost pre = out@;
    let mut p = out.len();
    while p > 0 && out[p - 1].1 >= item.1
        invariant
            p <= out.len(),
            out@ == pre,
            forall|t: int| p <= t < out@.len() ==> (#[trigger] out@[t]).1 >= item.1,
        decreases p,
    {
        p = p - 1;
    }
    out.insert(p, item);
    proof {
        broadcast use vstd::seq_lib::to_multiset_insert;

        assert(out@ == pre.insert(p as int, item));
        assert forall|t: int| 0 <= t < p implies (#[trigger] pre[t]).1 < item.1 by {
            assert(pre[t].1 <= pre[p - 1].1);
            assert(pre[p - 1].1 < item.1);
        }
        assert(pairs_sorted(out@)) by {
            assert forall|i: int, j: int| 0 <= i <= j < out@.len() implies (#[trigger] out@[i]).1
                <= (#[trigger] out@[j]).1 by {
                if p > 0 && i < p {
                    assert(pre[i].1 <= pre[p - 1].1);
                }
            }
        }
        let pf = pair_firsts(pre);
        assert forall|t: int| 0 <= t < p implies score_val(#[trigger] pf[t], q) < score_val(
            item.0@,
            q,
        ) by {
            assert(pf[t] == pre[t].0@);
            assert(pre[t].1 < item.1);
        }
        if (p as int) < pf.len() {
            assert(pf[p as int] == pre[p as int].0@);
            assert(pre[p as int].1 >= item.1);
        }
        lemma_insert_stable_at(item.0@, pf, q, p as int);
        assert(pair_firsts(out@) =~= pf.take(p as int) + seq![item.0@] + pf.skip(p as int));
        assert(pair_firsts(out@) =~= pf.insert(p as int, item.0@));
        assert(pf.insert(p as int, item.0@).to_multiset() == pf.to_multiset().insert(item.0@));
        assert forall|t: int| 0 <= t < out@.len() implies (#[trigger] out@[t]) == item
            || pre.contains(out@[t]) by {
            if t < p {
                assert(out@[t] == pre[t]);
            } else if t > p {
                assert(out@[t] == pre[t - 1]);
            }
        }
    }
}

/// Scores every recipe's document against the query, drops the recipes
/// the query does not match, and returns the survivors sorted by
/// ascending score: the lowest-quality match comes first, and equal
/// scores keep their submission order.
pub fn fuzzy_sort_recipes(recipes: Vec<ResponseRecipe>, query: &String) -> (r: Vec<ResponseRecipe>)
    ensures
        response_views(r@) == stable_rank(
            matched_of(response_views(recipes@), query@),
            query@,
        ),
        response_views(r@).to_multiset() == matched_of(response_views(recipes@), query@)
            .to_multiset(),
        r@.len() == matched_of(response_views(recipes@), query@).len(),
        scores_sorted(response_views(r@), query@),
        forall|k: int| 0 <= k < r@.len() ==> matches_query(response_views(r@)[k], query@),
        (forall|k: int|
            0 <= k < recipes@.len() ==> !matches_query(
                response_views(recipes@)[k],
                query@,
            )) ==> r@.len() == 0,
{
    broadcast use vstd::seq_lib::group_to_multiset_ensures;
    broadcast use vstd::multiset::group_multiset_axioms;

    let ghost orig = response_views(recipes@);
    let mut rest = recipes;
    let mut out: Vec<(ResponseRecipe, i64)> = Vec::new();
    proof {
        assert(pair_firsts(out@) =~= Seq::<ResponseRecipeView>::empty());
        assert(matched_of(orig, query@).to_multiset().add(pair_firsts(out@).to_multiset()) =~=
        matched_of(orig, query@).to_multiset());
        assert(response_views(rest@) =~= orig.take(rest@.len() as int));
        assert(orig.skip(rest@.len() as int) =~= Seq::<ResponseRecipeView>::empty());
        assert(pair_firsts(out@) =~= stable_rank(
            matched_of(orig.skip(rest@.len() as int), query@),
            query@,
        ));
    }
    while rest.len() > 0
        invariant
            pairs_sorted(out@),
            forall|t: int|
                0 <= t < out@.len() ==> (#[trigger] out@[t]).1 == score_val(out@[t].0@, query@)
                    && matches_query(out@[t].0@, query@),
            matched_of(response_views(rest@), query@).to_multiset().add(
                pair_firsts(out@).to_multiset(),
            ) == matched_of(orig, query@).to_multiset(),
            rest@.len() <= orig.len(),
            response_views(rest@) == orig.take(rest@.len() as int),
            pair_firsts(out@) == stable_rank(
                matched_of(orig.skip(rest@.len() as int), query@),
                query@,
            ),
        decreases rest.len(),
    {
        let ghost before = response_views(rest@);
        let ghost bl = before.len() as int;
        let x = rest.pop().unwrap();
        proof {
            assert(response_views(rest@) =~= before.drop_last());
            assert(before.last() == x@);
            assert(before == orig.take(bl));
            assert(1 <= bl <= orig.len());
            assert(orig.take(bl).drop_last() =~= orig.take(bl - 1));
            assert(before.drop_last() =~= orig.take(bl - 1));
            assert(x@ == orig.take(bl)[bl - 1]);
            assert(x@ == orig[bl - 1]);
            assert(orig.skip(bl - 1) =~= seq![x@] + orig.skip(bl));
        }
        let doc = build_document(&x);
        let sc = fuzzy_match(&doc, query);
        let ghost pre_out = out@;
        let ghost suffix = orig.skip(bl);
        match sc {
            Some(s) => {
                proof {
                    assert(doc_score(x@, query@) == Some(s));
                    assert(s == score_val(x@, query@));
                }
                insert_sorted(&mut out, (x, s), Ghost(query@));
                proof {
                    let md = matched_of(before.drop_last(), query@);
                    assert(matches_query(before.last(), query@));
                    assert(matched_of(before, query@) == md + seq![before.last()]);
                    assert(md + seq![before.last()] =~= md.push(before.last()));
                    md.to_multiset_ensures();
                    assert(md.push(before.last()).to_multiset() == md.to_multiset().insert(
                        before.last(),
                    ));
                    assert(md.to_multiset().add(pair_firsts(out@).to_multiset())
                        =~= matched_of(before, query@).to_multiset().add(
                        pair_firsts(pre_out).to_multiset(),
                    ));
                    lemma_matched_of_concat(seq![x@], suffix, query@);
                    assert(seq![x@].drop_last() =~= Seq::<ResponseRecipeView>::empty());
                    assert(matched_of(Seq::<ResponseRecipeView>::empty(), query@)
                        =~= Seq::<ResponseRecipeView>::empty());
                    assert(seq![x@].last() == x@);
                    assert(matched_of(seq![x@], query@) =~= seq![x@]);
                    assert(matched_of(orig.skip(bl - 1), query@) =~= seq![x@] + matched_of(
                        suffix,
                        query@,
                    ));
                    let m2 = seq![x@] + matched_of(suffix, query@);
                    assert(m2.first() == x@);
                    assert(m2.drop_first() =~= matched_of(suffix, query@));
                    assert(stable_rank(m2, query@) == insert_stable(
                        x@,
                        stable_rank(matched_of(suffix, query@), query@),
                        query@,
                    ));
                    assert(pair_firsts(out@) == stable_rank(
                        matched_of(orig.skip(bl - 1), query@),
                        query@,
                    ));
                }
            },
            None => {
                proof {
                    assert(!matches_query(before.last(), query@));
                    assert(matched_of(before, query@) =~= matched_of(
                        before.drop_last(),
                        query@,
                    ));
                    lemma_matched_of_concat(seq![x@], suffix, query@);
                    assert(seq![x@].drop_last() =~= Seq::<ResponseRecipeView>::empty());
                    assert(matched_of(Seq::<ResponseRecipeView>::empty(), query@)
                        =~= Seq::<ResponseRecipeView>::empty());
                    assert(seq![x@].last() == x@);
                    assert(matched_of(seq![x@], query@) =~= Seq::<ResponseRecipeView>::empty());
                    assert(matched_of(orig.skip(bl - 1), query@) =~= matched_of(suffix, query@));
                }
            },
        }
    }
    proof {
        assert(response_views(rest@).len() == 0);
        assert(matched_of(response_views(rest@), query@).len() == 0);
        assert(matched_of(response_views(rest@), query@).to_multiset() =~= Multiset::<
            ResponseRecipeView,
        >::empty());
        assert(pair_firsts(out@).to_multiset() =~= matched_of(orig, query@).to_multiset());
        assert(orig.skip(rest@.len() as int) =~= orig);
        assert(pair_firsts(out@) == stable_rank(matched_of(orig, query@), query@));
    }
    let ghost sorted_pairs = out@;
    let mut result: Vec<ResponseRecipe> = Vec::new();
    while out.len() > 0
        invariant
            out@ =~= sorted_pairs.skip(result@.len() as int),
            result@.len() <= sorted_pairs.len(),
            response_views(result@) =~= pair_firsts(sorted_pairs.take(result@.len() as int)),
        decreases out.len(),
    {
        let ghost k = result@.len() as int;
        let ghost prev_res = result@;
        let first = out.remove(0);
        result.push(first.0);
        proof {
            assert(sorted_pairs.skip(k).drop_first() =~= sorted_pairs.skip(k + 1));
            assert(first == sorted_pairs[k]);
            assert(sorted_pairs.take(k + 1) =~= sorted_pairs.take(k).push(sorted_pairs[k]));
            assert(pair_firsts(sorted_pairs.take(k + 1)) =~= pair_firsts(
                sorted_pairs.take(k),
            ).push(sorted_pairs[k].0@));
            assert(response_views(result@) =~= response_views(prev_res).push(first.0@));
            assert(response_views(result@) =~= pair_firsts(sorted_pairs.take(k + 1)));
        }
    }
    proof {
        assert(sorted_pairs.take(result@.len() as int) =~= sorted_pairs);
        assert(response_views(result@) == pair_firsts(sorted_pairs));
        assert(scores_sorted(response_views(result@), query@)) by {
            assert forall|i: int, j: int|
                0 <= i <= j < response_views(result@).len() implies score_val(
                #[trigger] response_views(result@)[i],
                query@,
            ) <= score_val(#[trigger] response_views(result@)[j], query@) by {
                assert(response_views(result@)[i] == sorted_pairs[i].0@);
                assert(response_views(result@)[j] == sorted_pairs[j].0@);
                assert(sorted_pairs[i].1 <= sorted_pairs[j].1);
            }
        }
        assert(response_views(result@).len() == response_views(result@).to_multiset().len());
        assert(matched_of(orig, query@).len() == matched_of(orig, query@).to_multiset().len());
        if forall|k: int| 0 <= k < orig.len() ==> !matches_query(#[trigger] orig[k], query@) {
            lemma_no_match_empty(orig, query@);
        }
    }
    result
}

/// The page cut out of a ranked sequence: the first `offset` entries are
/// dropped — unless `offset` reaches past the end, which leaves the
/// sequence whole — and the rest is cut down to at most `limit` entries.
pub open spec fn spec_paginate(
    s: Seq<ResponseRecipeView>,
    offset: Option<usize>,
    limit: Option<usize>,
) -> Seq<ResponseRecipeView> {
    let after = match offset {
        Some(o) => if (o as int) < s.len() {
            s.skip(o as int)
        } else {
            s
        },
        None => s,
    };
    match limit {
        Some(l) => if (l as int) < after.len() {
            after.take(l as int)
        } else {
            after
        },
        None => after,
    }
}

/// The length [`spec_paginate`] leaves of a sequence of length `n`.
pub open spec fn paginate_len(n: int, offset: Option<usize>, limit: Option<usize>) -> int {
    let m = match offset {
        Some(o) => if (o as int) < n {
            n - o
        } else {
            n
        },
        None => n,
    };
    match limit {
        Some(l) => if (l as int) < m {
            l as int
        } else {
            m
        },
        None => m,
    }
}

/// With nothing matched there is nothing to page: every offset and limit
/// leave the result empty. (An offset at or past a non-empty matched
/// count, by contrast, drops nothing: the page stays whole.)
pub proof fn lemma_page_of_nothing_is_empty(offset: Option<usize>, limit: Option<usize>)
    ensures
        paginate_len(0, offset, limit) == 0,
{
}

/// Cuts the requested page: drops the first `offset` entries when
/// `offset` is below the length — and nothing otherwise — then truncates
/// to `limit` entries.
pub fn paginate(items: Vec<ResponseRecipe>, offset: Option<usize>, limit: Option<usize>) -> (r:
    Vec<ResponseRecipe>)
    ensures
        response_views(r@) == spec_paginate(response_views(items@), offset, limit),
        r@.len() == paginate_len(items@.len() as int, offset, limit),
{
    let ghost orig = response_views(items@);
    let mut v = items;
    if let Some(o) = offset {
        if o < v.len() {
            for t in 0..o
                invariant
                    o < orig.len(),
                    t <= o,
                    v@.len() == orig.len() - t,
                    response_views(v@) =~= orig.skip(t as int),
            {
                let ghost before = response_views(v@);
                v.remove(0);
                proof {
                    assert(response_views(v@) =~= before.drop_first());
                    assert(before.drop_first() =~= orig.skip(t + 1));
                }
            }
        }
    }
    let ghost after_off = response_views(v@);
    proof {
        assert(after_off =~= match offset {
            Some(o) => if (o as int) < orig.len() {
                orig.skip(o as int)
            } else {
                orig
            },
            None => orig,
        });
    }
    if let Some(l) = limit {
        let ghost before = v@;
        v.truncate(l);
        proof {
            if (l as int) < before.len() {
                assert(v@ =~= before.subrange(0, l as int));
                assert(response_views(v@) =~= after_off.take(l as int));
            } else {
                assert(v@ =~= before);
            }
        }
    }
    proof {
        assert(response_views(v@) =~= spec_paginate(orig, offset, limit));
    }
    v
}

} // verus!
