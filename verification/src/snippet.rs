//! The snippet record and the form logic that builds one.

use vstd::prelude::*;
use vstd::string::StrSliceExecFns;

use crate::tags::parse_tags;
use crate::tags::parse_tags_spec;

verus! {

/// The mathematical value of a snippet: every text field as its character
/// sequence.
#[verifier::ext_equal]
pub ghost struct SnippetView {
    pub id: Seq<char>,
    pub title: Seq<char>,
    pub language: Seq<char>,
    pub code: Seq<char>,
    pub description: Option<Seq<char>>,
    pub tags: Seq<Seq<char>>,
    pub created_at: Seq<char>,
    pub updated_at: Seq<char>,
    pub is_favorite: bool,
}

/// A stored code snippet: a code body with its display metadata.
pub struct Snippet {
    /// Opaque identifier, assigned at creation and immutable thereafter.
    pub id: String,
    /// Display name.
    pub title: String,
    /// Language tag, free text.
    pub language: String,
    /// The code body, unconstrained.
    pub code: String,
    /// Optional free-text description.
    pub description: Option<String>,
    /// Ordered tag list, duplicates permitted.
    pub tags: Vec<String>,
    /// Date stamp fixed at creation.
    pub created_at: String,
    /// Date stamp refreshed on every edit.
    pub updated_at: String,
    /// Favorite flag, toggled independently of edits.
    pub is_favorite: bool,
}

impl View for Snippet {
    type V = SnippetView;

    open spec fn view(&self) -> SnippetView {
        SnippetView {
            id: self.id@,
            title: self.title@,
            language: self.language@,
            code: self.code@,
            description: self.description.deep_view(),
            tags: self.tags.deep_view(),
            created_at: self.created_at@,
            updated_at: self.updated_at@,
            is_favorite: self.is_favorite,
        }
    }
}

impl DeepView for Snippet {
    type V = SnippetView;

    open spec fn deep_view(&self) -> SnippetView {
        self.view()
    }
}

/// Copies a tag list.
fn clone_tags(tags: &Vec<String>) -> (r: Vec<String>)
    ensures
        r.deep_view() == tags.deep_view(),
{
    let mut r: Vec<String> = Vec::new();
    let mut i: usize = 0;
    while i < tags.len()
        invariant
            0 <= i <= tags@.len(),
            r.deep_view() =~= tags.deep_view().take(i as int),
        decreases tags@.len() - i,
    {
        let ghost prev = r@;
        proof {
            assert(r.deep_view().len() == prev.len());
            assert(prev.len() == i as int);
        }
        r.push(tags[i].clone());
        proof {
            assert(r@ == prev.push(tags@[i as int]));
            assert forall|j: int| 0 <= j < r.deep_view().len() implies r.deep_view()[j]
                == tags.deep_view().take(i + 1)[j] by {
                if j < i {
                    assert(r@[j] == prev[j]);
                }
            }
            assert(r.deep_view() =~= tags.deep_view().take(i + 1));
        }
        i = i + 1;
    }
    proof {
        assert(tags.deep_view().take(tags@.len() as int) =~= tags.deep_view());
    }
    r
}

/// Copies an optional description.
fn clone_description(d: &Option<String>) -> (r: Option<String>)
    ensures
        r.deep_view() == d.deep_view(),
{
    match d {
        Some(text) => Some(text.clone()),
        None => None,
    }
}

impl Clone for Snippet {
    /// The copy carries the same value.
    fn clone(&self) -> (r: Self)
        ensures
            r@ == self@,
    {
        let r = Snippet {
            id: self.id.clone(),
            title: self.title.clone(),
            language: self.language.clone(),
            code: self.code.clone(),
            description: clone_description(&self.description),
            tags: clone_tags(&self.tags),
            created_at: self.created_at.clone(),
            updated_at: self.updated_at.clone(),
            is_favorite: self.is_favorite,
        };
        proof {
            assert(r@ =~= self@);
        }
        r
    }
}

/// Builds the snippet that saving the add form yields: the tags field is
/// parsed, an empty description becomes "none", both date stamps are the
/// creation stamp, and the record starts out not favorite.
pub fn new_snippet(
    id: String,
    title: String,
    language: String,
    code: String,
    description: String,
    tags_text: &str,
    now: String,
) -> (r: Snippet)
    ensures
        r@.id == id@,
        r@.title == title@,
        r@.language == language@,
        r@.code == code@,
        r@.description == if description@.len() == 0 {
            Option::<Seq<char>>::None
        } else {
            Option::<Seq<char>>::Some(description@)
        },
        r@.tags == parse_tags_spec(tags_text@),
        r@.created_at == now@,
        r@.updated_at == now@,
        r@.is_favorite == false,
{
    let created = now.clone();
    Snippet {
        id,
        title,
        language,
        code,
        description: if description.unicode_len() == 0 {
            None
        } else {
            Some(description)
        },
        tags: parse_tags(tags_text),
        created_at: created,
        updated_at: now,
        is_favorite: false,
    }
}

/// Builds the snippet that saving the edit form yields: the identifier, the
/// creation stamp and the favorite flag of the original are preserved, the
/// update stamp is refreshed, and the remaining fields are replaced from the
/// form.
pub fn edited_snippet(
    original: &Snippet,
    title: String,
    language: String,
    code: String,
    description: String,
    tags_text: &str,
    now: String,
) -> (r: Snippet)
    ensures
        r@.id == original@.id,
        r@.created_at == original@.created_at,
        r@.is_favorite == original@.is_favorite,
        r@.title == title@,
        r@.language == language@,
        r@.code == code@,
        r@.description == if description@.len() == 0 {
            Option::<Seq<char>>::None
        } else {
            Option::<Seq<char>>::Some(description@)
        },
        r@.tags == parse_tags_spec(tags_text@),
        r@.updated_at == now@,
{
    Snippet {
        id: original.id.clone(),
        title,
        language,
        code,
        description: if description.unicode_len() == 0 {
            None
        } else {
            Some(description)
        },
        tags: parse_tags(tags_text),
        created_at: original.created_at.clone(),
        updated_at: now,
        is_favorite: original.is_favorite,
    }
}

/// The card preview of a code body: the first hundred characters, with an
/// ellipsis when the body is longer.
pub open spec fn preview_of(code: Seq<char>) -> Seq<char> {
    if code.len() > 100 {
        code.take(100) + seq!['.', '.', '.']
    } else {
        code
    }
}

/// Renders the card preview of a code body.
pub fn code_preview(code: &str) -> (r: String)
    ensures
        r@ == preview_of(code@),
{
    if code.unicode_len() > 100 {
        let mut r = code.substring_char(0, 100).to_owned();
        r.append("...");
        proof {
            reveal_strlit("...");
            assert("..."@ =~= seq!['.', '.', '.']);
            assert(code@.subrange(0, 100) =~= code@.take(100));
        }
        r
    } else {
        code.to_owned()
    }
}

} // verus!
