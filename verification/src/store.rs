//! The record store: an ordered, mutable collection of snippets keyed by id.
//!
//! Every operation is total: an absent id is a silent no-op, never an error.

use vstd::prelude::*;
use vstd::string::StrSliceExecFns;

use crate::snippet::Snippet;
use crate::snippet::SnippetView;
use crate::text::str_eq;

verus! {

/// Some record in `s` carries `id`.
pub open spec fn has_id(s: Seq<SnippetView>, id: Seq<char>) -> bool {
    exists|i: int| 0 <= i < s.len() && s[i].id == id
}

/// Position of the first record in `s` carrying `id`, or -1 if there is
/// none.
pub open spec fn index_of_id(s: Seq<SnippetView>, id: Seq<char>) -> int
    decreases s.len(),
{
    if s.len() == 0 {
        -1
    } else if s[0].id == id {
        0
    } else {
        let r = index_of_id(s.drop_first(), id);
        if r < 0 {
            -1
        } else {
            1 + r
        }
    }
}

/// `index_of_id` finds the first record carrying the id, and -1 exactly when
/// there is none.
pub proof fn lemma_index_of_id(s: Seq<SnippetView>, id: Seq<char>)
    ensures
        has_id(s, id) ==> 0 <= index_of_id(s, id) < s.len(),
        has_id(s, id) ==> s[index_of_id(s, id)].id == id,
        forall|j: int| 0 <= j < index_of_id(s, id) ==> s[j].id != id,
        !has_id(s, id) ==> index_of_id(s, id) == -1,
    decreases s.len(),
{
    if s.len() > 0 && s[0].id != id {
        let tail = s.drop_first();
        lemma_index_of_id(tail, id);
        assert forall|i: int| 0 <= i < s.len() && s[i].id == id implies has_id(tail, id) by {
            assert(tail[i - 1] == s[i]);
        }
        if has_id(tail, id) {
            let r = index_of_id(tail, id);
            assert(s[1 + r] == tail[r]);
            assert forall|j: int| 0 <= j < 1 + r implies s[j].id != id by {
                if j > 0 {
                    assert(tail[j - 1] == s[j]);
                }
            }
        }
    }
}

/// The record with its favorite flag flipped.
pub open spec fn flip_favorite(e: SnippetView) -> SnippetView {
    SnippetView { is_favorite: !e.is_favorite, ..e }
}

/// The test a record must pass to survive deletion of `id`.
pub open spec fn keeps(id: Seq<char>) -> spec_fn(SnippetView) -> bool {
    |e: SnippetView| e.id != id
}

/// The store after deleting `id`: every record carrying it is removed, in
/// order.
pub open spec fn delete_spec(s: Seq<SnippetView>, id: Seq<char>) -> Seq<SnippetView> {
    s.filter(keeps(id))
}

/// The store after toggling the favorite flag of `id`: the first matching
/// record is flipped; an absent id changes nothing.
pub open spec fn toggle_spec(s: Seq<SnippetView>, id: Seq<char>) -> Seq<SnippetView> {
    if has_id(s, id) {
        s.update(index_of_id(s, id), flip_favorite(s[index_of_id(s, id)]))
    } else {
        s
    }
}

/// The store after updating `id`: the first matching record is replaced in
/// full; an absent id changes nothing.
pub open spec fn update_spec(s: Seq<SnippetView>, id: Seq<char>, n: SnippetView) -> Seq<
    SnippetView,
> {
    if has_id(s, id) {
        s.update(index_of_id(s, id), n)
    } else {
        s
    }
}

/// The ordered, mutable collection of snippets.
pub struct Store {
    /// The records, in insertion order.
    pub snippets: Vec<Snippet>,
}

impl View for Store {
    type V = Seq<SnippetView>;

    open spec fn view(&self) -> Seq<SnippetView> {
        self.snippets.deep_view()
    }
}

impl Store {
    /// An empty store.
    pub fn new() -> (r: Store)
        ensures
            r@ == Seq::<SnippetView>::empty(),
    {
        let r = Store { snippets: Vec::new() };
        proof {
            assert(r@ =~= Seq::<SnippetView>::empty());
        }
        r
    }

    /// A store seeded with the given records, in order.
    pub fn from_snippets(snippets: Vec<Snippet>) -> (r: Store)
        ensures
            r@ == snippets.deep_view(),
    {
        Store { snippets }
    }

    /// Appends the record to the end; the caller supplies the id, and no
    /// uniqueness check is made.
    pub fn create(&mut self, s: Snippet)
        ensures
            final(self)@ == old(self)@.push(s@),
    {
        self.snippets.push(s);
        proof {
            assert(self@ =~= old(self)@.push(s@));
        }
    }

    /// Returns the first record carrying `id`, or nothing.
    pub fn find(&self, id: &str) -> (r: Option<&Snippet>)
        ensures
            match r {
                Some(s) => has_id(self@, id@) && s@ == self@[index_of_id(self@, id@)],
                None => !has_id(self@, id@),
            },
    {
        let n = self.snippets.len();
        let mut i: usize = 0;
        while i < n
            invariant
                n == self.snippets@.len(),
                n == self@.len(),
                0 <= i <= n,
                forall|j: int| 0 <= j < i ==> self@[j].id != id@,
            decreases n - i,
        {
            if str_eq(self.snippets[i].id.as_str(), id) {
                proof {
                    assert(self@[i as int].id == id@);
                    lemma_index_of_id(self@, id@);
                    assert(index_of_id(self@, id@) == i as int);
                }
                return Some(&self.snippets[i]);
            }
            i = i + 1;
        }
        proof {
            lemma_index_of_id(self@, id@);
        }
        None
    }

    /// Removes every record carrying `id`, keeping the others in order; an
    /// absent id changes nothing.
    pub fn delete(&mut self, id: &str)
        ensures
            final(self)@ == delete_spec(old(self)@, id@),
    {
        let ghost pred = keeps(id@);
        let n = self.snippets.len();
        let mut kept: Vec<Snippet> = Vec::new();
        let mut i: usize = 0;
        proof {
            reveal(Seq::filter);
            assert(old(self)@.take(0) =~= Seq::<SnippetView>::empty());
            assert(kept.deep_view() =~= old(self)@.take(0).filter(pred));
        }
        while i < n
            invariant
                n == self.snippets@.len(),
                n == self@.len(),
                0 <= i <= n,
                *self == *old(self),
                kept.deep_view() == old(self)@.take(i as int).filter(keeps(id@)),
            decreases n - i,
        {
            let ghost prefix = old(self)@.take(i as int);
            let ghost longer = old(self)@.take(i + 1);
            let ghost cur = old(self)@[i as int];
            proof {
                assert(longer.drop_last() =~= prefix);
                assert(longer.last() == cur);
                reveal(Seq::filter);
            }
            if !str_eq(id, self.snippets[i].id.as_str()) {
                let ghost prevdv = kept.deep_view();
                let ghost prev = kept@;
                let copy = self.snippets[i].clone();
                proof {
                    assert(prevdv.len() == prev.len());
                    assert(copy@ == cur);
                }
                kept.push(copy);
                proof {
                    assert forall|j: int| 0 <= j < kept.deep_view().len() implies kept.deep_view()[j]
                        == prevdv.push(cur)[j] by {
                        if j < prev.len() {
                            assert(kept@[j] == prev[j]);
                        }
                    }
                    assert(kept.deep_view() =~= prevdv.push(cur));
                    assert(keeps(id@)(cur));
                    assert(longer.filter(keeps(id@)) == prefix.filter(keeps(id@)).push(cur));
                }
            } else {
                proof {
                    assert(!keeps(id@)(cur));
                    assert(longer.filter(keeps(id@)) == prefix.filter(keeps(id@)));
                }
            }
            i = i + 1;
        }
        proof {
            assert(old(self)@.take(n as int) =~= old(self)@);
        }
        self.snippets = kept;
    }

    /// Flips the favorite flag on the first record carrying `id`; an absent
    /// id changes nothing.
    pub fn toggle_favorite(&mut self, id: &str)
        ensures
            final(self)@ == toggle_spec(old(self)@, id@),
    {
        let n = self.snippets.len();
        let mut i: usize = 0;
        while i < n
            invariant
                n == self.snippets@.len(),
                n == self@.len(),
                0 <= i <= n,
                *self == *old(self),
                forall|j: int| 0 <= j < i ==> self@[j].id != id@,
            decreases n - i,
        {
            if str_eq(self.snippets[i].id.as_str(), id) {
                proof {
                    assert(self@[i as int].id == id@);
                    lemma_index_of_id(self@, id@);
                    assert(index_of_id(self@, id@) == i as int);
                }
                let cur = self.snippets[i].is_favorite;
                self.snippets[i].is_favorite = !cur;
                proof {
                    assert(self@ =~= old(self)@.update(
                        i as int,
                        flip_favorite(old(self)@[i as int]),
                    ));
                }
                return ;
            }
            i = i + 1;
        }
        proof {
            lemma_index_of_id(self@, id@);
        }
    }

    /// Replaces the first record carrying `id` in full; an absent id changes
    /// nothing.
    pub fn update(&mut self, id: &str, new: Snippet)
        ensures
            final(self)@ == update_spec(old(self)@, id@, new@),
    {
        let n = self.snippets.len();
        let mut i: usize = 0;
        while i < n
            invariant
                n == self.snippets@.len(),
                n == self@.len(),
                0 <= i <= n,
                *self == *old(self),
                forall|j: int| 0 <= j < i ==> self@[j].id != id@,
            decreases n - i,
        {
            if str_eq(self.snippets[i].id.as_str(), id) {
                proof {
                    assert(self@[i as int].id == id@);
                    lemma_index_of_id(self@, id@);
                    assert(index_of_id(self@, id@) == i as int);
                }
                let _replaced = self.snippets.remove(i);
                self.snippets.insert(i, new);
                proof {
                    assert(self@ =~= old(self)@.update(i as int, new@));
                }
                return ;
            }
            i = i + 1;
        }
        proof {
            lemma_index_of_id(self@, id@);
        }
    }

    /// Number of stored records.
    pub fn len(&self) -> (r: usize)
        ensures
            r == self@.len(),
    {
        self.snippets.len()
    }
}

/// A tag list of three entries.
fn three_tags(a: &str, b: &str, c: &str) -> (r: Vec<String>)
    ensures
        r.deep_view() == seq![a@, b@, c@],
{
    let mut v: Vec<String> = Vec::new();
    v.push(a.to_owned());
    v.push(b.to_owned());
    v.push(c.to_owned());
    proof {
        assert(v.deep_view() =~= seq![a@, b@, c@]);
    }
    v
}

/// The fixed sample list that seeds the store when the application starts.
pub fn get_sample_snippets() -> (r: Vec<Snippet>)
    ensures
        r.deep_view().len() == 3,
        r.deep_view()[0].id == "1"@,
        r.deep_view()[0].title == "Hello World in Rust"@,
        r.deep_view()[0].language == "rust"@,
        r.deep_view()[0].is_favorite,
        r.deep_view()[1].id == "2"@,
        r.deep_view()[1].title == "JavaScript For Loop"@,
        r.deep_view()[1].language == "javascript"@,
        !r.deep_view()[1].is_favorite,
        r.deep_view()[2].id == "3"@,
        r.deep_view()[2].title == "Python List Comprehension"@,
        r.deep_view()[2].language == "python"@,
        r.deep_view()[2].is_favorite,
{
    let first = Snippet {
        id: "1".to_owned(),
        title: "Hello World in Rust".to_owned(),
        language: "rust".to_owned(),
        code: "fn main() {\n    println!(\"Hello, world!\");\n}".to_owned(),
        description: Some("A simple Hello World program in Rust".to_owned()),
        tags: three_tags("beginner", "rust", "hello-world"),
        created_at: "2024-01-15".to_owned(),
        updated_at: "2024-01-15".to_owned(),
        is_favorite: true,
    };
    let second = Snippet {
        id: "2".to_owned(),
        title: "JavaScript For Loop".to_owned(),
        language: "javascript".to_owned(),
        code: "for (let i = 0; i < 10; i++) {\n    console.log(`Count: ${i}`);\n}".to_owned(),
        description: Some("Basic for loop example in JavaScript".to_owned()),
        tags: three_tags("javascript", "loop", "basics"),
        created_at: "2024-01-14".to_owned(),
        updated_at: "2024-01-14".to_owned(),
        is_favorite: false,
    };
    let third = Snippet {
        id: "3".to_owned(),
        title: "Python List Comprehension".to_owned(),
        language: "python".to_owned(),
        code: "squares = [x**2 for x in range(10)]\nprint(squares)".to_owned(),
        description: Some("Creating a list of squares using list comprehension".to_owned()),
        tags: three_tags("python", "list-comprehension", "functional"),
        created_at: "2024-01-13".to_owned(),
        updated_at: "2024-01-13".to_owned(),
        is_favorite: true,
    };
    let mut r: Vec<Snippet> = Vec::new();
    r.push(first);
    r.push(second);
    r.push(third);
    r
}

/// Law: toggling the favorite flag of an id twice restores the store, so
/// each record's flag returns to its original value.
pub proof fn lemma_toggle_favorite_idempotent(s: Seq<SnippetView>, id: Seq<char>)
    ensures
        toggle_spec(toggle_spec(s, id), id) == s,
{
    if has_id(s, id) {
        lemma_index_of_id(s, id);
        let i = index_of_id(s, id);
        let s1 = s.update(i, flip_favorite(s[i]));
        assert(s1[i].id == id);
        assert(has_id(s1, id));
        lemma_index_of_id(s1, id);
        let i1 = index_of_id(s1, id);
        assert forall|j: int| 0 <= j < i implies s1[j].id != id by {
            assert(s1[j] == s[j]);
        }
        assert(i1 == i);
        assert(flip_favorite(flip_favorite(s[i])) =~= s[i]);
        assert(toggle_spec(s1, id) =~= s);
    }
}

/// Law: after a deletion the deleted id resolves to nothing, and deleting
/// an absent id leaves the store unchanged.
pub proof fn lemma_delete_resolves(s: Seq<SnippetView>, id: Seq<char>)
    ensures
        !has_id(delete_spec(s, id), id),
        !has_id(s, id) ==> delete_spec(s, id) == s,
{
    let pred = |e: SnippetView| e.id != id;
    let out = delete_spec(s, id);
    assert forall|i: int| 0 <= i < out.len() implies out[i].id != id by {
        Seq::lemma_filter_pred(s, pred, i);
    }
    if !has_id(s, id) {
        lemma_filter_all_true(s, pred);
    }
}

/// A filter whose test every element passes changes nothing.
pub(crate) proof fn lemma_filter_all_true(s: Seq<SnippetView>, pred: spec_fn(SnippetView) -> bool)
    requires
        forall|i: int| 0 <= i < s.len() ==> pred(s[i]),
    ensures
        s.filter(pred) == s,
    decreases s.len(),
{
    reveal(Seq::filter);
    if s.len() > 0 {
        lemma_filter_all_true(s.drop_last(), pred);
        assert(pred(s.last()));
        assert(s.drop_last().push(s.last()) =~= s);
    }
}

} // verus!
