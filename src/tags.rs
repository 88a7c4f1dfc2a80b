//! Tags from the text that the generation service returns.
//!
//! The text is cut at line breaks and commas; each piece is trimmed,
//! lowercased and stripped of the marks `* : . ( ) [ ] { }`, and the pieces
//! left empty are dropped.

use vstd::prelude::*;
use crate::error::OllamaError;
use crate::text::{trim, trim_text};

verus! {

/// What `str::to_lowercase` makes of a string.
pub uninterp spec fn lower_of(s: Seq<char>) -> Seq<char>;

/// Relies on `str::to_lowercase`: the result depends on the characters
/// alone, and the empty string stays empty.
#[verifier::external_body]
fn lowercase(s: &str) -> (r: String)
    ensures
        r@ == lower_of(s@),
        s@.len() == 0 ==> r@.len() == 0,
{
    s.to_lowercase()
}

/// The characters at which the text is cut into pieces.
pub open spec fn is_separator(c: char) -> bool {
    c == '\n' || c == ','
}

/// The marks that are removed from every tag.
pub open spec fn is_mark(c: char) -> bool {
    c == '*' || c == ':' || c == '.' || c == '(' || c == ')' || c == '[' || c == ']' || c == '{'
        || c == '}'
}

/// The pieces between separators, in order; there is always at least one.
pub open spec fn pieces(s: Seq<char>) -> Seq<Seq<char>>
    decreases s.len(),
{
    if s.len() == 0 {
        seq![Seq::<char>::empty()]
    } else {
        let p = pieces(s.drop_last());
        if is_separator(s.last()) {
            p.push(Seq::<char>::empty())
        } else {
            p.update(p.len() - 1, p.last().push(s.last()))
        }
    }
}

/// `s` without the marks.
pub open spec fn strip_marks(s: Seq<char>) -> Seq<char>
    decreases s.len(),
{
    if s.len() == 0 {
        s
    } else if is_mark(s.last()) {
        strip_marks(s.drop_last())
    } else {
        strip_marks(s.drop_last()).push(s.last())
    }
}

/// The tag that one piece gives, empty when it gives none.
pub open spec fn clean(piece: Seq<char>) -> Seq<char> {
    strip_marks(lower_of(trim(piece)))
}

/// The non-empty tags of the pieces, in order.
pub open spec fn tags_of_pieces(ps: Seq<Seq<char>>) -> Seq<Seq<char>>
    decreases ps.len(),
{
    if ps.len() == 0 {
        Seq::empty()
    } else if clean(ps.last()).len() > 0 {
        tags_of_pieces(ps.drop_last()).push(clean(ps.last()))
    } else {
        tags_of_pieces(ps.drop_last())
    }
}

/// The tags given when a response holds none.
pub open spec fn default_tags() -> Seq<Seq<char>> {
    seq![seq!['r', 'u', 's', 't'], seq!['c', 'l', 'i']]
}

/// The tags of a response text.
pub open spec fn response_tags(s: Seq<char>) -> Seq<Seq<char>> {
    let t = tags_of_pieces(pieces(s));
    if t.len() == 0 {
        default_tags()
    } else {
        t
    }
}

/// The contents of a list of strings.
pub open spec fn texts(v: Seq<String>) -> Seq<Seq<char>> {
    v.map_values(|s: String| s@)
}

/// A well-formed tag: not empty, and free of marks.
pub open spec fn is_clean_tag(t: Seq<char>) -> bool {
    t.len() > 0 && forall|i: int| 0 <= i < t.len() ==> !is_mark(#[trigger] t[i])
}

/// What `strip_marks` leaves holds no mark.
pub proof fn lemma_strip_marks_clean(s: Seq<char>)
    ensures
        forall|i: int| 0 <= i < strip_marks(s).len() ==> !is_mark(#[trigger] strip_marks(s)[i]),
    decreases s.len(),
{
    if s.len() > 0 {
        let prev = strip_marks(s.drop_last());
        lemma_strip_marks_clean(s.drop_last());
        assert forall|i: int| 0 <= i < strip_marks(s).len() implies !is_mark(
            #[trigger] strip_marks(s)[i],
        ) by {
            if i < prev.len() {
                assert(strip_marks(s)[i] == prev[i]);
            }
        }
    }
}

/// Every tag drawn from pieces is well formed.
pub proof fn lemma_tags_of_pieces_clean(ps: Seq<Seq<char>>)
    ensures
        forall|k: int| 0 <= k < tags_of_pieces(ps).len() ==> is_clean_tag(#[trigger] tags_of_pieces(ps)[k]),
    decreases ps.len(),
{
    if ps.len() > 0 {
        let prev = tags_of_pieces(ps.drop_last());
        lemma_tags_of_pieces_clean(ps.drop_last());
        lemma_strip_marks_clean(lower_of(trim(ps.last())));
        assert forall|k: int| 0 <= k < tags_of_pieces(ps).len() implies is_clean_tag(
            #[trigger] tags_of_pieces(ps)[k],
        ) by {
            if k < prev.len() {
                assert(tags_of_pieces(ps)[k] == prev[k]);
            }
        }
    }
}

/// Removes the marks from a string.
pub fn remove_marks(s: &str) -> (r: String)
    ensures
        r@ == strip_marks(s@),
{
    let n = s.unicode_len();
    let mut out = String::new();
    let mut i: usize = 0;
    while i < n
        invariant
            n == s@.len(),
            i <= n,
            out@ == strip_marks(s@.subrange(0, i as int)),
        decreases n - i,
    {
        let c = s.get_char(i);
        assert(s@.subrange(0, i + 1).drop_last() =~= s@.subrange(0, i as int));
        if !(c == '*' || c == ':' || c == '.' || c == '(' || c == ')' || c == '[' || c == ']' || c
            == '{' || c == '}') {
            out.append(s.substring_char(i, i + 1));
            assert(out@ =~= strip_marks(s@.subrange(0, i + 1)));
        }
        i = i + 1;
    }
    assert(s@.subrange(0, n as int) =~= s@);
    out
}

/// The tag of one piece: trimmed, lowercased, without marks.
pub fn clean_piece(piece: &str) -> (r: String)
    ensures
        r@ == clean(piece@),
{
    let t = trim_text(piece);
    let l = lowercase(t);
    remove_marks(l.as_str())
}

/// The tags of a response text: its pieces cleaned, the empty ones dropped,
/// and `rust`, `cli` when none is left.
pub fn extract_tags(text: &str) -> (r: Vec<String>)
    ensures
        texts(r@) == response_tags(text@),
        forall|k: int| 0 <= k < r@.len() ==> is_clean_tag(#[trigger] r@[k]@),
{
    let n = text.unicode_len();
    let mut tags: Vec<String> = Vec::new();
    let mut start: usize = 0;
    let mut i: usize = 0;
    proof {
        assert(text@.subrange(0, 0) =~= Seq::<char>::empty());
        assert(texts(tags@) =~= Seq::<Seq<char>>::empty());
    }
    while i < n
        invariant
            n == text@.len(),
            start <= i <= n,
            pieces(text@.subrange(0, i as int)).len() > 0,
            pieces(text@.subrange(0, i as int)).last() == text@.subrange(start as int, i as int),
            texts(tags@) == tags_of_pieces(pieces(text@.subrange(0, i as int)).drop_last()),
        decreases n - i,
    {
        let ghost before = pieces(text@.subrange(0, i as int));
        let c = text.get_char(i);
        assert(text@.subrange(0, i + 1).drop_last() =~= text@.subrange(0, i as int));
        if c == '\n' || c == ',' {
            let piece = text.substring_char(start, i);
            let tag = clean_piece(piece);
            assert(before.drop_last().push(before.last()) =~= before);
            if tag.unicode_len() > 0 {
                let ghost prev = tags@;
                tags.push(tag);
                assert(texts(tags@) =~= texts(prev).push(tag@));
            }
            start = i + 1;
            proof {
                let after = pieces(text@.subrange(0, i + 1));
                assert(after.drop_last() =~= before);
                assert(after.last() =~= text@.subrange(start as int, i + 1));
            }
        } else {
            proof {
                let after = pieces(text@.subrange(0, i + 1));
                assert(after.drop_last() =~= before.drop_last());
                assert(after.last() =~= text@.subrange(start as int, i + 1));
            }
        }
        i = i + 1;
    }
    assert(text@.subrange(0, n as int) =~= text@);
    let ghost all = pieces(text@);
    assert(all.drop_last().push(all.last()) =~= all);
    let piece = text.substring_char(start, n);
    let tag = clean_piece(piece);
    if tag.unicode_len() > 0 {
        let ghost prev = tags@;
        tags.push(tag);
        assert(texts(tags@) =~= texts(prev).push(tag@));
    }
    proof {
        lemma_tags_of_pieces_clean(all);
        assert(texts(tags@) == tags_of_pieces(all));
    }
    if tags.len() == 0 {
        let mut defaults: Vec<String> = Vec::new();
        defaults.push(String::from_str("rust"));
        defaults.push(String::from_str("cli"));
        proof {
            reveal_strlit("rust");
            reveal_strlit("cli");
            assert(defaults@[0]@ =~= seq!['r', 'u', 's', 't']);
            assert(defaults@[1]@ =~= seq!['c', 'l', 'i']);
            assert(texts(defaults@) =~= default_tags());
            assert(is_clean_tag(defaults@[0]@));
            assert(is_clean_tag(defaults@[1]@));
        }
        defaults
    } else {
        proof {
            assert forall|k: int| 0 <= k < tags@.len() implies is_clean_tag(#[trigger] tags@[k]@) by {
                assert(texts(tags@)[k] == tags@[k]@);
                assert(tags_of_pieces(all)[k] == tags@[k]@);
            }
        }
        tags
    }
}

/// The tags of a project from the outcome of its enrichment: a failed
/// request gives no tags.
pub fn tags_from_enrichment(outcome: &Result<String, OllamaError>) -> (r: Vec<String>)
    ensures
        outcome matches Ok(t) ==> texts(r@) == response_tags(t@),
        outcome is Err ==> r@.len() == 0,
        forall|k: int| 0 <= k < r@.len() ==> is_clean_tag(#[trigger] r@[k]@),
{
    match outcome {
        Ok(t) => extract_tags(t.as_str()),
        Err(_) => Vec::new(),
    }
}

/// Every tag of a response text is well formed.
pub proof fn lemma_response_tags_clean(s: Seq<char>)
    ensures
        forall|k: int| 0 <= k < response_tags(s).len() ==> is_clean_tag(#[trigger] response_tags(s)[k]),
{
    lemma_tags_of_pieces_clean(pieces(s));
    let d = default_tags();
    assert(is_clean_tag(d[0]));
    assert(is_clean_tag(d[1]));
}

} // verus!
