//! The query engine: the filtered view of the store derived from the search
//! text and the language filter, the language filter options, and the
//! empty-result message choice.

use vstd::prelude::*;
use vstd::string::StrSliceExecFns;

use crate::snippet::Snippet;
use crate::snippet::SnippetView;
use crate::store::lemma_filter_all_true;
use crate::text::contains_seq;
use crate::text::lemma_lex_lt_trichotomy;
use crate::text::lex_lt;
use crate::text::lower_of;
use crate::text::str_contains;
use crate::text::str_eq;
use crate::text::str_lt;
use crate::text::to_lowercase;

verus! {

/// The search text occurs, case-insensitively, in the record's title, code,
/// or at least one tag.
pub open spec fn text_occurs(s: SnippetView, q: Seq<char>) -> bool {
    ||| contains_seq(lower_of(s.title), lower_of(q))
    ||| contains_seq(lower_of(s.code), lower_of(q))
    ||| exists|i: int|
        0 <= i < s.tags.len() && contains_seq(lower_of(#[trigger] s.tags[i]), lower_of(q))
}

/// The record matches the search text: the text is empty, or it occurs in
/// the record.
pub open spec fn matches_search(s: SnippetView, q: Seq<char>) -> bool {
    q.len() == 0 || text_occurs(s, q)
}

/// The record matches the language filter: the filter is empty, or it equals
/// the record's language exactly, case-sensitively.
pub open spec fn matches_language(s: SnippetView, lang: Seq<char>) -> bool {
    lang.len() == 0 || s.language == lang
}

/// The test a record must pass to appear in the filtered view.
pub open spec fn matches_query(q: Seq<char>, lang: Seq<char>) -> spec_fn(SnippetView) -> bool {
    |s: SnippetView| matches_search(s, q) && matches_language(s, lang)
}

/// The filtered view: the records matching both the search text and the
/// language filter, in store order.
pub open spec fn filtered_spec(records: Seq<SnippetView>, q: Seq<char>, lang: Seq<char>) -> Seq<
    SnippetView,
> {
    records.filter(matches_query(q, lang))
}

/// The set of languages present among the records.
pub open spec fn languages_of(records: Seq<SnippetView>) -> Set<Seq<char>> {
    records.map_values(|s: SnippetView| s.language).to_set()
}

/// Decides whether the record matches the search text.
pub fn snippet_matches_search(s: &Snippet, q: &str) -> (r: bool)
    ensures
        r == matches_search(s@, q@),
{
    if q.is_empty() {
        return true;
    }
    let lq = to_lowercase(q);
    let ltitle = to_lowercase(s.title.as_str());
    if str_contains(ltitle.as_str(), lq.as_str()) {
        return true;
    }
    let lcode = to_lowercase(s.code.as_str());
    if str_contains(lcode.as_str(), lq.as_str()) {
        return true;
    }
    let n = s.tags.len();
    let mut i: usize = 0;
    while i < n
        invariant
            n == s.tags@.len(),
            0 <= i <= n,
            lq@ == lower_of(q@),
            forall|j: int| 0 <= j < i ==> !contains_seq(lower_of(#[trigger] s@.tags[j]), lower_of(q@)),
        decreases n - i,
    {
        let ltag = to_lowercase(s.tags[i].as_str());
        if str_contains(ltag.as_str(), lq.as_str()) {
            proof {
                assert(s@.tags[i as int] == s.tags@[i as int]@);
            }
            return true;
        }
        i = i + 1;
    }
    false
}

/// Decides whether the record matches the language filter.
pub fn snippet_matches_language(s: &Snippet, lang: &str) -> (r: bool)
    ensures
        r == matches_language(s@, lang@),
{
    lang.is_empty() || str_eq(s.language.as_str(), lang)
}

/// The filtered view of the records: those matching the search text and the
/// language filter, in their original relative order.
pub fn filter_snippets(snippets: &Vec<Snippet>, q: &str, lang: &str) -> (r: Vec<Snippet>)
    ensures
        r.deep_view() == filtered_spec(snippets.deep_view(), q@, lang@),
{
    let ghost all = snippets.deep_view();
    let ghost pred = matches_query(q@, lang@);
    let n = snippets.len();
    let mut out: Vec<Snippet> = Vec::new();
    let mut i: usize = 0;
    proof {
        reveal(Seq::filter);
        assert(all.take(0) =~= Seq::<SnippetView>::empty());
        assert(out.deep_view() =~= all.take(0).filter(pred));
    }
    while i < n
        invariant
            n == snippets@.len(),
            n == all.len(),
            all == snippets.deep_view(),
            pred == matches_query(q@, lang@),
            0 <= i <= n,
            out.deep_view() == all.take(i as int).filter(pred),
        decreases n - i,
    {
        let ghost prefix = all.take(i as int);
        let ghost longer = all.take(i + 1);
        let ghost cur = all[i as int];
        proof {
            assert(longer.drop_last() =~= prefix);
            assert(longer.last() == cur);
            reveal(Seq::filter);
        }
        if snippet_matches_search(&snippets[i], q) && snippet_matches_language(&snippets[i], lang) {
            let ghost prevdv = out.deep_view();
            let ghost prev = out@;
            let copy = snippets[i].clone();
            proof {
                assert(prevdv.len() == prev.len());
                assert(copy@ == cur);
            }
            out.push(copy);
            proof {
                assert forall|j: int| 0 <= j < out.deep_view().len() implies out.deep_view()[j]
                    == prevdv.push(cur)[j] by {
                    if j < prev.len() {
                        assert(out@[j] == prev[j]);
                    }
                }
                assert(out.deep_view() =~= prevdv.push(cur));
                assert(pred(cur));
                assert(longer.filter(pred) == prefix.filter(pred).push(cur));
            }
        } else {
            proof {
                assert(!pred(cur));
                assert(longer.filter(pred) == prefix.filter(pred));
            }
        }
        i = i + 1;
    }
    proof {
        assert(all.take(n as int) =~= all);
    }
    out
}

/// Whether some entry of `v` equals `s`.
fn vec_contains_str(v: &Vec<String>, s: &str) -> (r: bool)
    ensures
        r == v.deep_view().contains(s@),
{
    let n = v.len();
    let mut i: usize = 0;
    while i < n
        invariant
            n == v@.len(),
            0 <= i <= n,
            forall|j: int| 0 <= j < i ==> v.deep_view()[j] != s@,
        decreases n - i,
    {
        if str_eq(v[i].as_str(), s) {
            proof {
                assert(v.deep_view()[i as int] == s@);
            }
            return true;
        }
        i = i + 1;
    }
    false
}

/// `lex_lt` is transitive.
proof fn lemma_lex_lt_trans(a: Seq<char>, b: Seq<char>, c: Seq<char>)
    requires
        lex_lt(a, b),
        lex_lt(b, c),
    ensures
        lex_lt(a, c),
    decreases a.len(),
{
    if a.len() > 0 && b.len() > 0 && c.len() > 0 && a[0] == b[0] && b[0] == c[0] {
        lemma_lex_lt_trans(a.drop_first(), b.drop_first(), c.drop_first());
    }
}

/// The distinct languages present among the records, in strictly increasing
/// lexicographic order; they populate the language filter options.
pub fn distinct_languages(snippets: &Vec<Snippet>) -> (r: Vec<String>)
    ensures
        r.deep_view().to_set() == languages_of(snippets.deep_view()),
        forall|i: int, j: int|
            0 <= i < j < r.deep_view().len() ==> lex_lt(
                #[trigger] r.deep_view()[i],
                #[trigger] r.deep_view()[j],
            ),
{
    let ghost all = snippets.deep_view();
    let n = snippets.len();
    let mut uniq: Vec<String> = Vec::new();
    let mut k: usize = 0;
    while k < n
        invariant
            n == snippets@.len(),
            n == all.len(),
            all == snippets.deep_view(),
            0 <= k <= n,
            forall|t: Seq<char>|
                #[trigger] uniq.deep_view().contains(t) <==> exists|i: int|
                    0 <= i < k && all[i].language == t,
            forall|i: int, j: int|
                0 <= i < j < uniq.deep_view().len() ==> lex_lt(
                    #[trigger] uniq.deep_view()[i],
                    #[trigger] uniq.deep_view()[j],
                ),
        decreases n - k,
    {
        let lang = &snippets[k].language;
        proof {
            assert(lang@ == all[k as int].language);
        }
        if !vec_contains_str(&uniq, lang.as_str()) {
            let ghost prevv = uniq@;
            let ghost prevdv = uniq.deep_view();
            let mut pos: usize = 0;
            while pos < uniq.len() && str_lt(uniq[pos].as_str(), lang.as_str())
                invariant
                    uniq@ == prevv,
                    prevdv == uniq.deep_view(),
                    prevdv.len() == prevv.len(),
                    0 <= pos <= prevv.len(),
                    forall|j: int| 0 <= j < pos ==> lex_lt(#[trigger] prevdv[j], lang@),
                decreases prevv.len() - pos,
            {
                proof {
                    assert(prevdv[pos as int] == uniq@[pos as int]@);
                }
                pos = pos + 1;
            }
            proof {
                if pos < prevv.len() {
                    assert(prevdv[pos as int] == uniq@[pos as int]@);
                    assert(!lex_lt(prevdv[pos as int], lang@));
                    assert(!prevdv.contains(lang@));
                    assert(prevdv[pos as int] != lang@);
                    lemma_lex_lt_trichotomy(prevdv[pos as int], lang@);
                    assert(lex_lt(lang@, prevdv[pos as int]));
                }
            }
            let copy = lang.clone();
            let ghost cval = copy;
            uniq.insert(pos, copy);
            proof {
                prevv.insert_ensures(pos as int, cval);
                let dv = uniq.deep_view();
                assert(cval@ == lang@);
                assert(dv.len() == prevdv.len() + 1);
                assert forall|j: int| 0 <= j < dv.len() implies dv[j] == (if j < pos {
                    prevdv[j]
                } else if j == pos {
                    lang@
                } else {
                    prevdv[j - 1]
                }) by {
                    if j < pos {
                        assert(uniq@[j] == prevv[j]);
                    } else if j == pos {
                        assert(uniq@[j] == cval);
                    } else {
                        assert(uniq@[j] == prevv[j - 1]);
                    }
                }
                assert forall|i2: int, j2: int| 0 <= i2 < j2 < dv.len() implies lex_lt(
                    #[trigger] dv[i2],
                    #[trigger] dv[j2],
                ) by {
                    if j2 < pos {
                    } else if i2 < pos && j2 == pos {
                        assert(lex_lt(prevdv[i2], lang@));
                    } else if i2 < pos && j2 > pos {
                        assert(lex_lt(prevdv[i2], prevdv[j2 - 1]));
                    } else if i2 == pos {
                        assert(lex_lt(lang@, prevdv[pos as int]));
                        if j2 - 1 > pos {
                            assert(lex_lt(prevdv[pos as int], prevdv[j2 - 1]));
                            lemma_lex_lt_trans(lang@, prevdv[pos as int], prevdv[j2 - 1]);
                        }
                    } else {
                        assert(lex_lt(prevdv[i2 - 1], prevdv[j2 - 1]));
                    }
                }
                assert forall|t: Seq<char>| #[trigger] dv.contains(t) implies (prevdv.contains(t)
                    || t == lang@) by {
                    let j = choose|j: int| 0 <= j < dv.len() && dv[j] == t;
                    if j < pos {
                        assert(prevdv[j] == t);
                    } else if j > pos {
                        assert(prevdv[j - 1] == t);
                    }
                }
                assert forall|t: Seq<char>| prevdv.contains(t) || t == lang@ implies
                    #[trigger] dv.contains(t) by {
                    if prevdv.contains(t) {
                        let j = choose|j: int| 0 <= j < prevdv.len() && prevdv[j] == t;
                        if j < pos {
                            assert(dv[j] == t);
                        } else {
                            assert(dv[j + 1] == t);
                        }
                    } else {
                        assert(dv[pos as int] == t);
                    }
                }
            }
        }
        proof {
            assert forall|t: Seq<char>| #[trigger] uniq.deep_view().contains(t) implies exists|i: int|
                0 <= i < k + 1 && all[i].language == t by {}
            assert forall|t: Seq<char>|
                (exists|i: int| 0 <= i < k + 1 && all[i].language == t) implies
                #[trigger] uniq.deep_view().contains(t) by {
                let i = choose|i: int| 0 <= i < k + 1 && all[i].language == t;
                if i == k {
                    assert(all[k as int].language == t);
                }
            }
        }
        k = k + 1;
    }
    proof {
        let f = |s: SnippetView| s.language;
        assert forall|t: Seq<char>| uniq.deep_view().contains(t) implies all.map_values(
            f,
        ).contains(t) by {
            let i = choose|i: int| 0 <= i < n && all[i].language == t;
            assert(all.map_values(f)[i] == t);
        }
        assert forall|t: Seq<char>| all.map_values(f).contains(t) implies uniq.deep_view().contains(
            t,
        ) by {
            let i = choose|i: int| 0 <= i < all.map_values(f).len() && all.map_values(f)[i] == t;
            assert(all[i].language == t);
        }
        assert(uniq.deep_view().to_set() =~= languages_of(all));
    }
    uniq
}

/// The two texts the home screen shows for an empty filtered view: an
/// invitation to add the first snippet when no filter is active, and a hint
/// to adjust the search or filters otherwise.
#[derive(PartialEq, Eq, Structural, Clone, Copy, Debug)]
pub enum EmptyStateKind {
    AddFirstSnippet,
    AdjustFilters,
}

/// Which empty-state message an empty filtered view calls for: two different
/// messages tell "no matches" apart from "no snippets at all".
pub fn empty_state(q: &str, lang: &str) -> (r: EmptyStateKind)
    ensures
        r == if q@.len() == 0 && lang@.len() == 0 {
            EmptyStateKind::AddFirstSnippet
        } else {
            EmptyStateKind::AdjustFilters
        },
{
    if q.is_empty() && lang.is_empty() {
        EmptyStateKind::AddFirstSnippet
    } else {
        EmptyStateKind::AdjustFilters
    }
}

/// Law: with a non-empty search text, every record in the filtered view
/// contains the text, case-insensitively, in its title, code or at least one
/// tag, and every record that fails all three checks is excluded.
pub proof fn lemma_search_filter_sound(records: Seq<SnippetView>, q: Seq<char>, lang: Seq<char>)
    requires
        q.len() > 0,
    ensures
        forall|i: int|
            0 <= i < filtered_spec(records, q, lang).len() ==> text_occurs(
                #[trigger] filtered_spec(records, q, lang)[i],
                q,
            ),
        forall|i: int|
            0 <= i < records.len() && !text_occurs(#[trigger] records[i], q) ==> !filtered_spec(
                records,
                q,
                lang,
            ).contains(records[i]),
{
    let pred = matches_query(q, lang);
    let out = filtered_spec(records, q, lang);
    assert forall|i: int| 0 <= i < out.len() implies text_occurs(out[i], q) by {
        Seq::lemma_filter_pred(records, pred, i);
    }
    assert forall|i: int|
        0 <= i < records.len() && !text_occurs(records[i], q) implies !out.contains(
        records[i],
    ) by {
        if out.contains(records[i]) {
            let j = choose|j: int| 0 <= j < out.len() && out[j] == records[i];
            Seq::lemma_filter_pred(records, pred, j);
        }
    }
}

/// Law: the filtered view's languages are exactly the filter when one is
/// active; with no search text and no filter every record is kept.
pub proof fn lemma_language_filter_exact(records: Seq<SnippetView>, q: Seq<char>, lang: Seq<char>)
    ensures
        lang.len() > 0 ==> forall|i: int|
            0 <= i < filtered_spec(records, q, lang).len() ==> (#[trigger] filtered_spec(
                records,
                q,
                lang,
            )[i]).language == lang,
        forall|i: int|
            0 <= i < records.len() && matches_search(#[trigger] records[i], q) && matches_language(
                records[i],
                lang,
            ) ==> filtered_spec(records, q, lang).contains(records[i]),
        q.len() == 0 && lang.len() == 0 ==> filtered_spec(records, q, lang) == records,
{
    let pred = matches_query(q, lang);
    let out = filtered_spec(records, q, lang);
    if lang.len() > 0 {
        assert forall|i: int| 0 <= i < out.len() implies (out[i]).language == lang by {
            Seq::lemma_filter_pred(records, pred, i);
        }
    }
    assert forall|i: int|
        0 <= i < records.len() && matches_search(records[i], q) && matches_language(
            records[i],
            lang,
        ) implies out.contains(records[i]) by {
        Seq::lemma_filter_contains(records, pred, i);
    }
    if q.len() == 0 && lang.len() == 0 {
        lemma_filter_all_true(records, pred);
    }
}

} // verus!
