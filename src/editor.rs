//! Validation of an article submitted from the editor.

use vstd::prelude::*;
use vstd::utf8::encode_utf8;
use crate::feed::strings_view;
use crate::text::{chars_of, same_text, string_of};

verus! {

pub const TITLE_MIN_LENGTH: usize = 4;

pub const DESCRIPTION_MIN_LENGTH: usize = 4;

pub const BODY_MIN_LENGTH: usize = 10;

pub const TITLE_TOO_SHORT: &'static str = "You need to provide a title with at least 4 characters";

pub const DESCRIPTION_TOO_SHORT: &'static str =
    "You need to provide a description with at least 4 characters";

pub const BODY_TOO_SHORT: &'static str = "You need to provide a body with at least 10 characters";

/// An article that passed validation, with its distinct tags.
#[derive(Debug)]
pub struct ArticleUpdate {
    pub title: String,
    pub description: String,
    pub body: String,
    pub tag_list: Vec<String>,
}

/// The length of a text in UTF-8 bytes, as `str::len` gives it.
pub open spec fn byte_len(s: Seq<char>) -> usize {
    encode_utf8(s).len() as usize
}

/// The whitespace that separates tags: space, tab, line feed, form feed
/// and carriage return.
pub open spec fn is_separator(c: char) -> bool {
    c == ' ' || c == '\t' || c == '\n' || c == '\x0C' || c == '\r'
}

pub open spec fn flush(word: Seq<char>) -> Seq<Seq<char>> {
    if word.len() > 0 {
        seq![word]
    } else {
        Seq::empty()
    }
}

/// The words of `s` after the partial word `word`, scanning from the left.
pub open spec fn words_after(s: Seq<char>, word: Seq<char>) -> Seq<Seq<char>>
    decreases s.len(),
{
    if s.len() == 0 {
        flush(word)
    } else if is_separator(s[0]) {
        flush(word) + words_after(s.drop_first(), Seq::empty())
    } else {
        words_after(s.drop_first(), word.push(s[0]))
    }
}

/// The maximal runs of non-separator characters of `s`, in order.
pub open spec fn words(s: Seq<char>) -> Seq<Seq<char>> {
    words_after(s, Seq::empty())
}

/// Adds `w` to `tags` unless it is there already.
fn add_tag(tags: &mut Vec<String>, w: String)
    requires
        strings_view(old(tags)@).no_duplicates(),
    ensures
        strings_view(final(tags)@).no_duplicates(),
        strings_view(final(tags)@).to_set() == strings_view(old(tags)@).to_set().insert(w@),
{
    let ghost before = strings_view(tags@);
    let mut i: usize = 0;
    while i < tags.len()
        invariant
            i <= tags@.len(),
            before == strings_view(tags@),
            before.no_duplicates(),
            forall|j: int| 0 <= j < i ==> tags@[j]@ != w@,
        decreases tags@.len() - i,
    {
        if same_text(tags[i].as_str(), w.as_str()) {
            assert(before[i as int] == w@);
            assert(before.to_set().insert(w@) =~= before.to_set());
            return;
        }
        i = i + 1;
    }
    tags.push(w);
    proof {
        let after = strings_view(tags@);
        assert(after =~= before.push(w@));
        before.lemma_push_to_set_commute(w@);
        assert forall|a: int, b: int| 0 <= a < b < after.len() implies after[a] != after[b] by {
            if b == before.len() {
                assert(after[a] == before[a]);
            }
        }
    }
}

/// Validates an article: the title and description need at least 4 bytes
/// and the body at least 10, checked in that order, each failure with its
/// message. The tags are the distinct words of `tag_list`, split at ASCII
/// whitespace.
pub fn validate_article(title: String, description: String, body: String, tag_list: String) -> (r:
    Result<ArticleUpdate, String>)
    ensures
        byte_len(title@) < 4 ==> (r matches Err(m) && m@ == TITLE_TOO_SHORT@),
        byte_len(title@) >= 4 && byte_len(description@) < 4 ==> (r matches Err(m) && m@
            == DESCRIPTION_TOO_SHORT@),
        byte_len(title@) >= 4 && byte_len(description@) >= 4 && byte_len(body@) < 10 ==> (
        r matches Err(m) && m@ == BODY_TOO_SHORT@),
        r is Ok <==> byte_len(title@) >= 4 && byte_len(description@) >= 4 && byte_len(body@) >= 10,
        r matches Ok(a) ==> {
            &&& a.title@ == title@
            &&& a.description@ == description@
            &&& a.body@ == body@
            &&& strings_view(a.tag_list@).no_duplicates()
            &&& strings_view(a.tag_list@).to_set() == words(tag_list@).to_set()
        },
{
    if title.as_str().len() < TITLE_MIN_LENGTH {
        return Err(String::from_str(TITLE_TOO_SHORT));
    }
    if description.as_str().len() < DESCRIPTION_MIN_LENGTH {
        return Err(String::from_str(DESCRIPTION_TOO_SHORT));
    }
    if body.as_str().len() < BODY_MIN_LENGTH {
        return Err(String::from_str(BODY_TOO_SHORT));
    }
    let v = chars_of(tag_list.as_str());
    let mut tags: Vec<String> = Vec::new();
    let mut start: usize = 0;
    let mut i: usize = 0;
    let ghost mut seen: Seq<Seq<char>> = Seq::empty();
    assert(v@.skip(0) =~= v@);
    assert(v@.subrange(0, 0) =~= Seq::<char>::empty());
    while i < v.len()
        invariant
            start <= i <= v@.len(),
            v@ == tag_list@,
            strings_view(tags@).no_duplicates(),
            strings_view(tags@).to_set() == seen.to_set(),
            seen + words_after(v@.skip(i as int), v@.subrange(start as int, i as int)) == words(
                v@,
            ),
        decreases v@.len() - i,
    {
        let ghost rest = v@.skip(i as int);
        let ghost word = v@.subrange(start as int, i as int);
        assert(rest.drop_first() =~= v@.skip(i + 1));
        let c = v[i];
        if c == ' ' || c == '\t' || c == '\n' || c == '\x0C' || c == '\r' {
            if start < i {
                let w = string_of(&v, start, i);
                add_tag(&mut tags, w);
                proof {
                    seen.lemma_push_to_set_commute(word);
                    assert(seen + seq![word] =~= seen.push(word));
                }
            }
            proof {
                assert(flush(word) =~= (if start < i { seq![word] } else { Seq::empty() }));
                assert(seen + words_after(rest, word) =~= (seen + flush(word)) + words_after(
                    v@.skip(i + 1),
                    Seq::empty(),
                ));
                if start < i {
                    seen = seen.push(word);
                } else {
                    assert(seen + flush(word) =~= seen);
                }
                assert(v@.subrange(i + 1, i + 1) =~= Seq::<char>::empty());
            }
            start = i + 1;
        } else {
            assert(v@.subrange(start as int, i + 1) =~= word.push(c));
        }
        i = i + 1;
    }
    let ghost word = v@.subrange(start as int, i as int);
    assert(v@.skip(i as int) =~= Seq::<char>::empty());
    if start < i {
        let w = string_of(&v, start, i);
        add_tag(&mut tags, w);
        proof {
            seen.lemma_push_to_set_commute(word);
            assert(seen + flush(word) =~= seen.push(word));
        }
    } else {
        assert(seen + flush(word) =~= seen);
    }
    Ok(ArticleUpdate { title, description, body, tag_list: tags })
}

} // verus!
