//! The comma-separated tags notation: parsing a text field into a tag list
//! and rendering a tag list back as text.
//!
//! The field is split on commas, each piece is trimmed of surrounding
//! whitespace, and empty pieces are discarded, in order. Rendering joins the
//! tags with a comma and a space. For lists of well-formed tags the two
//! directions invert each other (`lemma_tags_round_trip`).

use vstd::prelude::*;
use vstd::string::StrSliceExecFns;

use crate::text::is_space;
use crate::text::lemma_trim_back_take;
use crate::text::lemma_trim_front_skip;
use crate::text::trim_str;
use crate::text::trimmed;

verus! {

/// Position of the first comma in `s`, or `s.len()` if there is none.
pub open spec fn first_comma(s: Seq<char>) -> int
    decreases s.len(),
{
    if s.len() == 0 {
        0
    } else if s[0] == ',' {
        0
    } else {
        1 + first_comma(s.drop_first())
    }
}

/// The pieces of `s` between its commas, in order; `s` without commas is one
/// piece, so the empty text is one empty piece.
pub open spec fn split_commas(s: Seq<char>) -> Seq<Seq<char>>
    decreases s.len(),
{
    let i = first_comma(s);
    if 0 <= i < s.len() {
        seq![s.take(i)] + split_commas(s.skip(i + 1))
    } else {
        seq![s]
    }
}

/// The tags that a piece list yields: each piece trimmed, empty ones dropped.
pub open spec fn tags_of_pieces(pieces: Seq<Seq<char>>) -> Seq<Seq<char>> {
    pieces.map_values(|p: Seq<char>| trimmed(p)).filter(|t: Seq<char>| t.len() > 0)
}

/// The tag list that the tags text field `s` denotes.
pub open spec fn parse_tags_spec(s: Seq<char>) -> Seq<Seq<char>> {
    tags_of_pieces(split_commas(s))
}

/// The rendering of a tag list as text: the tags joined by a comma and a
/// space.
pub open spec fn joined_tags(tags: Seq<Seq<char>>) -> Seq<char>
    decreases tags.len(),
{
    if tags.len() == 0 {
        Seq::empty()
    } else if tags.len() == 1 {
        tags[0]
    } else {
        tags[0] + seq![',', ' '] + joined_tags(tags.drop_first())
    }
}

/// A tag as the store keeps it: non-empty, without surrounding whitespace,
/// and without commas.
pub open spec fn wf_tag(t: Seq<char>) -> bool {
    &&& t.len() > 0
    &&& !is_space(t[0])
    &&& !is_space(t[t.len() - 1])
    &&& forall|i: int| 0 <= i < t.len() ==> t[i] != ','
}

proof fn lemma_first_comma_at(s: Seq<char>, k: int)
    requires
        0 <= k <= s.len(),
        forall|j: int| 0 <= j < k ==> s[j] != ',',
        k == s.len() || s[k] == ',',
    ensures
        first_comma(s) == k,
    decreases k,
{
    if k > 0 {
        lemma_first_comma_at(s.drop_first(), k - 1);
    }
}

proof fn lemma_tags_of_append(a: Seq<Seq<char>>, b: Seq<Seq<char>>)
    ensures
        tags_of_pieces(a + b) == tags_of_pieces(a) + tags_of_pieces(b),
{
    let f = |p: Seq<char>| trimmed(p);
    let pred = |t: Seq<char>| t.len() > 0;
    assert((a + b).map_values(f) =~= a.map_values(f) + b.map_values(f));
    Seq::filter_distributes_over_add(a.map_values(f), b.map_values(f), pred);
}

proof fn lemma_tags_of_single(p: Seq<char>)
    ensures
        tags_of_pieces(seq![p]) == if trimmed(p).len() > 0 {
            seq![trimmed(p)]
        } else {
            Seq::<Seq<char>>::empty()
        },
{
    let f = |q: Seq<char>| trimmed(q);
    let pred = |t: Seq<char>| t.len() > 0;
    let m = seq![p].map_values(f);
    assert(m =~= seq![trimmed(p)]);
    reveal_with_fuel(Seq::filter, 2);
    assert(m.drop_last() =~= Seq::<Seq<char>>::empty());
    assert(m.drop_last().filter(pred) =~= Seq::<Seq<char>>::empty());
    if pred(trimmed(p)) {
        assert(m.filter(pred) =~= seq![trimmed(p)]);
    } else {
        assert(m.filter(pred) =~= Seq::<Seq<char>>::empty());
    }
}

/// Splits the tags text field into the tag list it denotes.
pub fn parse_tags(s: &str) -> (r: Vec<String>)
    ensures
        r.deep_view() == parse_tags_spec(s@),
{
    let n = s.unicode_len();
    let mut out: Vec<String> = Vec::new();
    let mut p: usize = 0;
    let mut fin = false;
    proof {
        assert(s@.skip(0) =~= s@);
        assert(out.deep_view() =~= Seq::<Seq<char>>::empty());
        assert(out.deep_view() + parse_tags_spec(s@) =~= parse_tags_spec(s@));
    }
    while !fin
        invariant
            n == s@.len(),
            0 <= p <= n,
            !fin ==> out.deep_view() + tags_of_pieces(split_commas(s@.skip(p as int)))
                == parse_tags_spec(s@),
            fin ==> out.deep_view() == parse_tags_spec(s@),
        decreases n - p + (if fin { 0int } else { 1int }),
    {
        let ghost rem = s@.skip(p as int);
        let mut q: usize = p;
        while q < n && s.get_char(q) != ','
            invariant
                n == s@.len(),
                p <= q <= n,
                forall|j: int| p <= j < q ==> s@[j] != ',',
            decreases n - q,
        {
            q = q + 1;
        }
        proof {
            assert forall|j: int| 0 <= j < q - p implies rem[j] != ',' by {
                assert(rem[j] == s@[p + j]);
            }
            if q < n {
                assert(rem[q - p] == s@[q as int]);
            }
            lemma_first_comma_at(rem, q - p);
            assert(rem.take(q - p) =~= s@.subrange(p as int, q as int));
        }
        let piece = s.substring_char(p, q);
        let t = trim_str(piece);
        let ghost out_before = out.deep_view();
        if t.unicode_len() > 0 {
            out.push(t);
        }
        proof {
            if trimmed(s@.subrange(p as int, q as int)).len() > 0 {
                assert(out.deep_view() =~= out_before.push(
                    trimmed(s@.subrange(p as int, q as int)),
                ));
            }
            lemma_tags_of_single(s@.subrange(p as int, q as int));
        }
        if q == n {
            proof {
                assert(split_commas(rem) =~= seq![rem]);
                assert(rem =~= s@.subrange(p as int, q as int));
                assert(out.deep_view() =~= out_before + tags_of_pieces(seq![rem]));
            }
            fin = true;
        } else {
            proof {
                let rest = rem.skip(q - p + 1);
                assert(split_commas(rem) =~= seq![rem.take(q - p)] + split_commas(rest));
                lemma_tags_of_append(seq![rem.take(q - p)], split_commas(rest));
                assert(rest =~= s@.skip(q + 1));
                assert(out.deep_view() =~= out_before + tags_of_pieces(seq![rem.take(q - p)]));
            }
            p = q + 1;
        }
    }
    out
}

proof fn lemma_joined_push(tags: Seq<Seq<char>>, t: Seq<char>)
    ensures
        joined_tags(tags.push(t)) == if tags.len() == 0 {
            t
        } else {
            joined_tags(tags) + seq![',', ' '] + t
        },
    decreases tags.len(),
{
    let w = tags.push(t);
    if tags.len() == 0 {
        assert(w.len() == 1);
        assert(w[0] == t);
    } else {
        lemma_joined_push(tags.drop_first(), t);
        assert(w.drop_first() =~= tags.drop_first().push(t));
        assert(w[0] == tags[0]);
        if tags.len() == 1 {
            assert(joined_tags(w) =~= tags[0] + seq![',', ' '] + t);
            assert(joined_tags(tags) == tags[0]);
        } else {
            assert(joined_tags(w) == w[0] + seq![',', ' '] + joined_tags(w.drop_first()));
            assert(joined_tags(tags) + seq![',', ' '] + t =~= tags[0] + seq![',', ' '] + (
            joined_tags(tags.drop_first()) + seq![',', ' '] + t));
        }
    }
}

/// `pre + t` trims to `t` when `pre` is all whitespace and `t` is a
/// well-formed tag.
proof fn lemma_trim_lead(pre: Seq<char>, t: Seq<char>)
    requires
        forall|i: int| 0 <= i < pre.len() ==> is_space(pre[i]),
        wf_tag(t),
    ensures
        trimmed(pre + t) == t,
{
    let j = pre + t;
    assert forall|i: int| 0 <= i < pre.len() implies is_space(j[i]) by {
        assert(j[i] == pre[i]);
    }
    assert(j[pre.len() as int] == t[0]);
    lemma_trim_front_skip(j, pre.len() as int);
    assert(j.skip(pre.len() as int) =~= t);
    lemma_trim_back_take(t, t.len() as int);
    assert(t.take(t.len() as int) =~= t);
}

/// Parsing a whitespace prefix followed by the rendering of well-formed tags
/// recovers the tags.
proof fn lemma_parse_join_with_lead(pre: Seq<char>, tags: Seq<Seq<char>>)
    requires
        forall|i: int| 0 <= i < pre.len() ==> is_space(pre[i]),
        forall|i: int| 0 <= i < tags.len() ==> wf_tag(tags[i]),
    ensures
        parse_tags_spec(pre + joined_tags(tags)) == tags,
    decreases tags.len(),
{
    let j = pre + joined_tags(tags);
    assert forall|i: int| 0 <= i < pre.len() implies j[i] != ',' by {
        assert(j[i] == pre[i]);
        assert(is_space(pre[i]));
    }
    if tags.len() == 0 {
        assert(j =~= pre);
        lemma_first_comma_at(pre, pre.len() as int);
        assert(split_commas(pre) =~= seq![pre]);
        lemma_trim_front_skip(pre, pre.len() as int);
        assert(pre.skip(pre.len() as int) =~= Seq::<char>::empty());
        assert(trimmed(pre).len() == 0);
        lemma_tags_of_single(pre);
        assert(tags =~= Seq::<Seq<char>>::empty());
    } else if tags.len() == 1 {
        let t0 = tags[0];
        assert(j =~= pre + t0);
        assert forall|i: int| 0 <= i < j.len() implies j[i] != ',' by {
            if i >= pre.len() {
                assert(j[i] == t0[i - pre.len()]);
            }
        }
        lemma_first_comma_at(j, j.len() as int);
        assert(split_commas(j) =~= seq![j]);
        lemma_trim_lead(pre, t0);
        lemma_tags_of_single(j);
        assert(tags =~= seq![t0]);
    } else {
        let t0 = tags[0];
        let rest = tags.drop_first();
        assert forall|i: int| 0 <= i < rest.len() implies wf_tag(rest[i]) by {
            assert(rest[i] == tags[i + 1]);
        }
        let k: int = pre.len() + t0.len() as int;
        assert(j =~= pre + t0 + seq![',', ' '] + joined_tags(rest));
        assert forall|i: int| 0 <= i < k implies j[i] != ',' by {
            if i >= pre.len() {
                assert(j[i] == t0[i - pre.len()]);
            }
        }
        assert(j[k] == ',');
        lemma_first_comma_at(j, k);
        let head = j.take(k);
        let tail = j.skip(k + 1);
        assert(split_commas(j) == seq![head] + split_commas(tail));
        assert(head =~= pre + t0);
        lemma_trim_lead(pre, t0);
        lemma_tags_of_single(head);
        assert(tail =~= seq![' '] + joined_tags(rest));
        lemma_parse_join_with_lead(seq![' '], rest);
        lemma_tags_of_append(seq![head], split_commas(tail));
        assert(seq![t0] + rest =~= tags);
    }
}

/// Law: rendering a list of well-formed tags as comma-joined text and
/// parsing that text back yields the same list.
pub proof fn lemma_tags_round_trip(tags: Seq<Seq<char>>)
    requires
        forall|i: int| 0 <= i < tags.len() ==> wf_tag(tags[i]),
    ensures
        parse_tags_spec(joined_tags(tags)) == tags,
{
    lemma_parse_join_with_lead(Seq::empty(), tags);
    assert(Seq::<char>::empty() + joined_tags(tags) =~= joined_tags(tags));
}

/// Renders a tag list as the comma-joined tags text field.
pub fn join_tags(tags: &Vec<String>) -> (r: String)
    ensures
        r@ == joined_tags(tags.deep_view()),
{
    let mut r = String::new();
    let mut i: usize = 0;
    while i < tags.len()
        invariant
            0 <= i <= tags.deep_view().len(),
            tags.deep_view().len() == tags@.len(),
            r@ == joined_tags(tags.deep_view().take(i as int)),
        decreases tags@.len() - i,
    {
        proof {
            lemma_joined_push(tags.deep_view().take(i as int), tags.deep_view()[i as int]);
            assert(tags.deep_view().take(i + 1) =~= tags.deep_view().take(i as int).push(
                tags.deep_view()[i as int],
            ));
        }
        if i > 0 {
            r.append(", ");
            proof {
                reveal_strlit(", ");
                assert(", "@ =~= seq![',', ' ']);
            }
        }
        r.append(tags[i].as_str());
        i = i + 1;
    }
    proof {
        assert(tags.deep_view().take(tags.deep_view().len() as int) =~= tags.deep_view());
    }
    r
}

} // verus!
