//! Full-text search over articles: the query plan, the paging arithmetic
//! of a result, and search over the in-memory `ArticleStore`.
//!
//! A relational store answers a search with its own full-text index, which
//! splits text into tokens, orders matches by rank and cuts snippets by a
//! number of tokens. The in-memory search here is simpler and exact: an
//! article matches when the query occurs as a substring (case counts) of
//! its title, description or body; matches come newest first; and a
//! snippet keeps a number of characters on each side of the first match.

use vstd::prelude::*;
use crate::error::FeedError;
use crate::pagination::lemma_page_offset_bound;
use crate::feed::{ArticleModel, ArticleStore, StoreModel, opt_view, window};
use crate::text::{chars_of, range_equals, string_of};

verus! {

/// One article found by a search. Each field holds the text with every
/// match wrapped in the highlight markers; a field without a match holds
/// its text unmarked.
#[derive(Clone, Debug, Default)]
pub struct MatchedArticles {
    pub slug: String,
    pub title: Option<String>,
    pub description: Option<String>,
    pub body: Option<String>,
}

pub struct MatchedModel {
    pub slug: Seq<char>,
    pub title: Option<Seq<char>>,
    pub description: Option<Seq<char>>,
    pub body: Option<Seq<char>>,
}

impl View for MatchedArticles {
    type V = MatchedModel;

    open spec fn view(&self) -> MatchedModel {
        MatchedModel {
            slug: self.slug@,
            title: opt_view(self.title),
            description: opt_view(self.description),
            body: opt_view(self.body),
        }
    }
}

/// Whether `q` occurs in `s`.
pub open spec fn occurs(s: Seq<char>, q: Seq<char>) -> bool
    decreases s.len(),
{
    if s.len() < q.len() {
        false
    } else if s.take(q.len() as int) == q {
        true
    } else if s.len() == 0 {
        false
    } else {
        occurs(s.drop_first(), q)
    }
}

/// `s` with each occurrence of `q`, scanned from the left without
/// overlap, wrapped between `open` and `close`.
pub open spec fn highlight(s: Seq<char>, q: Seq<char>, open: Seq<char>, close: Seq<char>) -> Seq<
    char,
>
    decreases s.len(),
{
    if q.len() == 0 || s.len() == 0 {
        s
    } else if s.len() >= q.len() && s.take(q.len() as int) == q {
        open + q + close + highlight(s.skip(q.len() as int), q, open, close)
    } else {
        seq![s[0]] + highlight(s.drop_first(), q, open, close)
    }
}

/// Position of the first occurrence of `q` in `s`, when there is one.
pub open spec fn first_match(s: Seq<char>, q: Seq<char>) -> nat
    decreases s.len(),
{
    if s.len() < q.len() {
        0
    } else if s.take(q.len() as int) == q {
        0
    } else if s.len() == 0 {
        0
    } else {
        1 + first_match(s.drop_first(), q)
    }
}

/// The first occurrence ends within the text.
pub proof fn lemma_first_match_in_bounds(s: Seq<char>, q: Seq<char>)
    requires
        occurs(s, q),
    ensures
        first_match(s, q) + q.len() <= s.len(),
    decreases s.len(),
{
    if s.len() >= q.len() && s.take(q.len() as int) != q && s.len() > 0 {
        lemma_first_match_in_bounds(s.drop_first(), q);
    }
}

/// Whether `q` occurs in `s` at position `j`.
pub open spec fn match_at(s: Seq<char>, q: Seq<char>, j: int) -> bool {
    0 <= j && j + q.len() <= s.len() && s.subrange(j, j + q.len()) == q
}

proof fn lemma_match_at_shift(s: Seq<char>, q: Seq<char>, j: int)
    requires
        s.len() > 0,
        0 <= j,
    ensures
        match_at(s.drop_first(), q, j) == match_at(s, q, j + 1),
{
    if j + q.len() <= s.len() - 1 {
        assert(s.drop_first().subrange(j, j + q.len()) =~= s.subrange(j + 1, j + 1 + q.len()));
    }
}

proof fn lemma_match_at_zero(s: Seq<char>, q: Seq<char>)
    ensures
        match_at(s, q, 0) == (s.len() >= q.len() && s.take(q.len() as int) == q),
{
    if s.len() >= q.len() {
        assert(s.subrange(0, q.len() as int) =~= s.take(q.len() as int));
    }
}

/// `first_match` is where `q` first occurs: it occurs there and nowhere
/// before.
pub proof fn lemma_first_match_is_first(s: Seq<char>, q: Seq<char>)
    requires
        q.len() > 0,
        occurs(s, q),
    ensures
        match_at(s, q, first_match(s, q) as int),
        forall|j: int| 0 <= j < first_match(s, q) ==> !#[trigger] match_at(s, q, j),
    decreases s.len(),
{
    lemma_match_at_zero(s, q);
    if !(s.take(q.len() as int) == q) {
        let t = s.drop_first();
        lemma_first_match_is_first(t, q);
        lemma_match_at_shift(s, q, first_match(t, q) as int);
        assert forall|j: int| 0 <= j < first_match(s, q) implies !#[trigger] match_at(s, q, j) by {
            if j > 0 {
                lemma_match_at_shift(s, q, j - 1);
            }
        }
    }
}

/// A position where `q` occurs, with no occurrence before it, is
/// `first_match`.
pub proof fn lemma_first_match_at(s: Seq<char>, q: Seq<char>, p: int)
    requires
        q.len() > 0,
        match_at(s, q, p),
        forall|j: int| 0 <= j < p ==> !#[trigger] match_at(s, q, j),
    ensures
        occurs(s, q),
        first_match(s, q) == p,
    decreases s.len(),
{
    lemma_match_at_zero(s, q);
    if p > 0 {
        let t = s.drop_first();
        lemma_match_at_shift(s, q, p - 1);
        assert forall|j: int| 0 <= j < p - 1 implies !#[trigger] match_at(t, q, j) by {
            lemma_match_at_shift(s, q, j);
        }
        lemma_first_match_at(t, q, p - 1);
    }
}

/// The first occurrence of `q` in `t` is wrapped in the markers, with the
/// text before it unchanged.
pub proof fn lemma_highlight_first(t: Seq<char>, q: Seq<char>, open: Seq<char>, close: Seq<char>)
    requires
        q.len() > 0,
        occurs(t, q),
    ensures
        highlight(t, q, open, close) == t.take(first_match(t, q) as int) + open + q + close
            + highlight(t.skip(first_match(t, q) + q.len() as int), q, open, close),
    decreases t.len(),
{
    let n = q.len() as int;
    if t.take(n) == q {
        assert(t.take(0) =~= Seq::<char>::empty());
        assert(t.take(0) + open + q + close =~= open + q + close);
    } else {
        let d = t.drop_first();
        assert(t.len() >= n && t.len() > 0);
        assert(occurs(d, q));
        lemma_highlight_first(d, q, open, close);
        lemma_first_match_in_bounds(d, q);
        let f = first_match(d, q) as int;
        assert(t.take(f + 1) =~= seq![t[0]] + d.take(f));
        assert(t.skip(f + 1 + n) =~= d.skip(f + n));
        assert(highlight(t, q, open, close) =~= t.take(f + 1) + open + q + close + highlight(
            t.skip(f + 1 + n),
            q,
            open,
            close,
        ));
    }
}

/// In a field where the query occurs, the snippet shows the first
/// occurrence wrapped between the markers: it is made of some text, then
/// `open`, the query, `close`, then more text.
pub proof fn lemma_snippet_marks_match(s: Seq<char>, q: Seq<char>, style: StyleModel)
    requires
        q.len() > 0,
        occurs(s, q),
    ensures
        exists|before: Seq<char>, after: Seq<char>|
            snippet(s, q, style) == before + style.open + q + style.close + after,
{
    let fm = first_match(s, q) as int;
    let n = q.len() as int;
    let lo = excerpt_start(s, q, style.context);
    let hi = excerpt_end(s, q, style.context);
    lemma_first_match_is_first(s, q);
    let e = s.subrange(lo, hi);
    assert forall|j: int| 0 <= j && j + n <= e.len() implies #[trigger] match_at(e, q, j)
        == match_at(s, q, lo + j) by {
        assert(e.subrange(j, j + n) =~= s.subrange(lo + j, lo + j + n));
    }
    assert(match_at(e, q, fm - lo));
    assert forall|j: int| 0 <= j < fm - lo implies !#[trigger] match_at(e, q, j) by {
        if match_at(e, q, j) {
            assert(match_at(s, q, lo + j));
        }
    }
    lemma_first_match_at(e, q, fm - lo);
    lemma_highlight_first(e, q, style.open, style.close);
    let pre = if lo > 0 {
        style.ellipsis
    } else {
        Seq::empty()
    };
    let post = if hi < s.len() {
        style.ellipsis
    } else {
        Seq::empty()
    };
    let before = pre + e.take(fm - lo);
    let after = highlight(e.skip(fm - lo + n), q, style.open, style.close) + post;
    assert(snippet(s, q, style) =~= before + style.open + q + style.close + after);
}

/// How matched text is marked and cut: each match is wrapped between
/// `open` and `close`, and a matched field keeps only `context` characters
/// on each side of its first match, with `ellipsis` where text was cut.
#[derive(Clone, Debug)]
pub struct SnippetStyle {
    pub open: String,
    pub close: String,
    pub ellipsis: String,
    pub context: usize,
}

pub struct StyleModel {
    pub open: Seq<char>,
    pub close: Seq<char>,
    pub ellipsis: Seq<char>,
    pub context: nat,
}

impl View for SnippetStyle {
    type V = StyleModel;

    open spec fn view(&self) -> StyleModel {
        StyleModel {
            open: self.open@,
            close: self.close@,
            ellipsis: self.ellipsis@,
            context: self.context as nat,
        }
    }
}

/// Where the excerpt of `s` around the first match of `q` starts.
pub open spec fn excerpt_start(s: Seq<char>, q: Seq<char>, context: nat) -> int {
    if first_match(s, q) > context {
        first_match(s, q) - context as int
    } else {
        0
    }
}

/// Where the excerpt of `s` around the first match of `q` ends.
pub open spec fn excerpt_end(s: Seq<char>, q: Seq<char>, context: nat) -> int {
    let e = first_match(s, q) + q.len();
    if e + context < s.len() {
        (e + context) as int
    } else {
        s.len() as int
    }
}

/// A field as a search result shows it: unchanged when `q` does not
/// occur in it; else the excerpt around the first match, with the matches
/// in it marked and `ellipsis` on each side where text was cut.
pub open spec fn snippet(s: Seq<char>, q: Seq<char>, style: StyleModel) -> Seq<char> {
    if !occurs(s, q) {
        s
    } else {
        let lo = excerpt_start(s, q, style.context);
        let hi = excerpt_end(s, q, style.context);
        (if lo > 0 {
            style.ellipsis
        } else {
            Seq::empty()
        }) + highlight(s.subrange(lo, hi), q, style.open, style.close) + (if hi < s.len() {
            style.ellipsis
        } else {
            Seq::empty()
        })
    }
}

/// Whether an article matches query `q` in its title, description or body.
pub open spec fn article_matches(a: ArticleModel, q: Seq<char>) -> bool {
    occurs(a.title, q) || occurs(a.description, q) || occurs(a.body, q)
}

/// The articles at index `lo` and later that match `q`, newest first.
pub open spec fn matches_from(s: StoreModel, q: Seq<char>, lo: int) -> Seq<ArticleModel>
    decreases s.articles.len() - lo,
{
    if lo < 0 || lo >= s.articles.len() {
        Seq::empty()
    } else {
        let rest = matches_from(s, q, lo + 1);
        if article_matches(s.articles[lo], q) {
            rest.push(s.articles[lo])
        } else {
            rest
        }
    }
}

/// Every article that matches `q`, newest first.
pub open spec fn search_rows(s: StoreModel, q: Seq<char>) -> Seq<ArticleModel> {
    matches_from(s, q, 0)
}

/// Article `a` as a search result for `q`.
pub open spec fn matched_of(a: ArticleModel, q: Seq<char>, style: StyleModel) -> MatchedModel {
    MatchedModel {
        slug: a.slug,
        title: Some(snippet(a.title, q, style)),
        description: Some(snippet(a.description, q, style)),
        body: Some(snippet(a.body, q, style)),
    }
}

/// The matches that page `page` of size `amount` shows.
pub open spec fn search_page(
    s: StoreModel,
    q: Seq<char>,
    page: u32,
    amount: u32,
    style: StyleModel,
) -> Seq<MatchedModel> {
    window(search_rows(s, q), page * amount, amount as int).map_values(
        |a: ArticleModel| matched_of(a, q, style),
    )
}

/// A page never holds more than the page size, nor more than the total
/// number of matches, whatever page is asked for.
pub proof fn lemma_search_page_bounds(
    s: StoreModel,
    q: Seq<char>,
    page: u32,
    amount: u32,
    style: StyleModel,
)
    ensures
        search_page(s, q, page, amount, style).len() <= amount,
        search_page(s, q, page, amount, style).len() <= search_rows(s, q).len(),
{
}

/// The rows to ask of the store for one page of search results.
#[derive(Clone, Copy, Debug, PartialEq, Eq, Structural)]
pub struct SearchPlan {
    pub limit: u32,
    pub offset: u64,
}

/// Plans one page of a search: an empty query is refused before any
/// query is made; otherwise `limit = amount` and `offset = page * amount`.
pub fn plan_search(query: &str, page: u32, amount: u32) -> (r: Result<SearchPlan, FeedError>)
    ensures
        r is Err <==> query@.len() == 0,
        r matches Err(e) ==> e == FeedError::ValidationFailure,
        r matches Ok(p) ==> p.limit == amount && p.offset == page as int * amount as int,
{
    if query.is_empty() {
        return Err(FeedError::ValidationFailure);
    }
    proof {
        lemma_page_offset_bound(page, amount);
    }
    Ok(SearchPlan { limit: amount, offset: page as u64 * amount as u64 })
}

/// One page of search results with the total number of matches, so that
/// the caller can tell which results it shows and whether more exist.
#[derive(Clone, Debug)]
pub struct SearchResult {
    pub total_count: u64,
    pub page: u32,
    pub amount: u32,
    pub matches: Vec<MatchedArticles>,
}

impl SearchResult {
    /// Position, counted from 1, of the first result of this page.
    pub fn first_shown(&self) -> (r: u64)
        ensures
            r == self.page as int * self.amount as int + 1,
    {
        proof {
            lemma_page_offset_bound(self.page, self.amount);
        }
        self.page as u64 * self.amount as u64 + 1
    }

    /// Position, counted from 1, of the last result that this page can
    /// show: the end of the page, or the total when that comes first.
    pub fn last_shown(&self) -> (r: u64)
        ensures
            r == if (self.page as int + 1) * self.amount as int <= self.total_count {
                (self.page as int + 1) * self.amount as int
            } else {
                self.total_count as int
            },
    {
        let end = self.page_end();
        if end <= self.total_count {
            end
        } else {
            self.total_count
        }
    }

    fn page_end(&self) -> (r: u64)
        ensures
            r == (self.page as int + 1) * self.amount as int,
    {
        proof {
            lemma_page_offset_bound(self.page, self.amount);
        }
        (self.page as u64 + 1) * self.amount as u64
    }

    /// Whether results exist after this page.
    pub fn has_next_page(&self) -> (r: bool)
        ensures
            r == (self.total_count > (self.page as int + 1) * self.amount as int),
    {
        self.total_count > self.page_end()
    }

    /// Whether pages come before this one.
    pub fn has_previous_page(&self) -> (r: bool)
        ensures
            r == (self.page > 0),
    {
        self.page > 0
    }
}

/// Marks the matches of `q` in `v`.
fn highlight_chars(v: &Vec<char>, q: &Vec<char>, open: &str, close: &str) -> (r: String)
    requires
        q@.len() > 0,
    ensures
        r@ == highlight(v@, q@, open@, close@),
{
    let mut out = String::new();
    let mut i: usize = 0;
    assert(v@.skip(0) =~= v@);
    while i < v.len()
        invariant
            q@.len() > 0,
            i <= v@.len(),
            out@ + highlight(v@.skip(i as int), q@, open@, close@) == highlight(
                v@,
                q@,
                open@,
                close@,
            ),
        decreases v@.len() - i,
    {
        let ghost rest = v@.skip(i as int);
        let ghost before = out@;
        let n = q.len();
        let hit = n <= v.len() - i && range_equals(&v, i, i + n, q);
        if hit {
            assert(rest.take(n as int) =~= v@.subrange(i as int, i + n));
            out.append(open);
            let mut j: usize = 0;
            while j < n
                invariant
                    j <= n == q@.len(),
                    out@ == before + open@ + q@.take(j as int),
                decreases n - j,
            {
                out.push(q[j]);
                assert(q@.take(j as int + 1) =~= q@.take(j as int).push(q@[j as int]));
                j = j + 1;
            }
            assert(q@.take(n as int) =~= q@);
            out.append(close);
            assert(rest.skip(n as int) =~= v@.skip(i + n));
            assert(out@ + highlight(v@.skip(i + n), q@, open@, close@) =~= before + highlight(
                rest,
                q@,
                open@,
                close@,
            ));
            i = i + n;
        } else {
            if n <= v.len() - i {
                assert(rest.take(n as int) =~= v@.subrange(i as int, i + n));
            }
            out.push(v[i]);
            assert(rest.drop_first() =~= v@.skip(i + 1));
            assert(out@ + highlight(v@.skip(i + 1), q@, open@, close@) =~= before + highlight(
                rest,
                q@,
                open@,
                close@,
            ));
            i = i + 1;
        }
    }
    assert(v@.skip(i as int) =~= Seq::<char>::empty());
    assert(out@ + Seq::<char>::empty() =~= out@);
    out
}

fn sub_chars(v: &Vec<char>, lo: usize, hi: usize) -> (r: Vec<char>)
    requires
        lo <= hi <= v@.len(),
    ensures
        r@ == v@.subrange(lo as int, hi as int),
{
    let mut r: Vec<char> = Vec::new();
    let mut i: usize = lo;
    while i < hi
        invariant
            lo <= i <= hi <= v@.len(),
            r@ == v@.subrange(lo as int, i as int),
        decreases hi - i,
    {
        r.push(v[i]);
        assert(r@ =~= v@.subrange(lo as int, i as int + 1));
        i = i + 1;
    }
    r
}

/// The position of the first match of `q` in `v`, if any.
fn first_match_pos(v: &Vec<char>, q: &Vec<char>) -> (r: Option<usize>)
    requires
        q@.len() > 0,
    ensures
        r is Some <==> occurs(v@, q@),
        r matches Some(p) ==> p == first_match(v@, q@),
{
    let n = q.len();
    let mut i: usize = 0;
    assert(v@.skip(0) =~= v@);
    loop
        invariant
            n == q@.len() > 0,
            i <= v@.len(),
            occurs(v@.skip(i as int), q@) == occurs(v@, q@),
            first_match(v@, q@) == i + first_match(v@.skip(i as int), q@),
        decreases v@.len() - i,
    {
        let ghost rest = v@.skip(i as int);
        if v.len() - i < n {
            return None;
        }
        assert(rest.take(n as int) =~= v@.subrange(i as int, i + n));
        if range_equals(v, i, i + n, q) {
            return Some(i);
        }
        assert(rest.drop_first() =~= v@.skip(i + 1));
        i = i + 1;
    }
}

/// A field as a search result shows it, and whether `q` occurs in it.
fn snippet_text(s: &str, q: &Vec<char>, style: &SnippetStyle) -> (r: (String, bool))
    requires
        q@.len() > 0,
    ensures
        r.0@ == snippet(s@, q@, style@),
        r.1 == occurs(s@, q@),
{
    let v = chars_of(s);
    match first_match_pos(&v, q) {
        None => {
            assert(v@.subrange(0, v@.len() as int) =~= v@);
            (string_of(&v, 0, v.len()), false)
        },
        Some(p) => {
            proof {
                assert(occurs(v@, q@));
                assert(p == first_match(v@, q@));
                lemma_first_match_in_bounds(v@, q@);
                assert(p + q@.len() <= v@.len());
            }
            let vlen = v.len();
            let k = style.context;
            let lo = if p > k {
                p - k
            } else {
                0
            };
            let e = p + q.len();
            let hi = if k < vlen - e {
                e + k
            } else {
                vlen
            };
            let mut out = String::new();
            if lo > 0 {
                out.append(style.ellipsis.as_str());
            }
            let excerpt = sub_chars(&v, lo, hi);
            let marked = highlight_chars(&excerpt, q, style.open.as_str(), style.close.as_str());
            out.append(marked.as_str());
            if hi < vlen {
                out.append(style.ellipsis.as_str());
            }
            assert(out@ =~= snippet(s@, q@, style@));
            (out, true)
        },
    }
}

impl ArticleStore {
    /// Searches the articles whose title, description or body contains
    /// `query`, newest first, and returns page `page` of size `amount`
    /// with the total number of matches. Each field is shown as a snippet
    /// in `style`. An empty query is refused.
    pub fn search(&self, query: &str, page: u32, amount: u32, style: &SnippetStyle) -> (r: Result<
        SearchResult,
        FeedError,
    >)
        ensures
            r is Err <==> query@.len() == 0,
            r matches Err(e) ==> e == FeedError::ValidationFailure,
            r matches Ok(res) ==> {
                &&& res.total_count == search_rows(self.view(), query@).len()
                &&& res.page == page
                &&& res.amount == amount
                &&& res.matches@.map_values(|m: MatchedArticles| m@) == search_page(
                    self.view(),
                    query@,
                    page,
                    amount,
                    style@,
                )
            },
    {
        let plan = match plan_search(query, page, amount) {
            Ok(p) => p,
            Err(e) => return Err(e),
        };
        let q = chars_of(query);
        let ghost s = self.view();
        let ghost rows = search_rows(s, q@);
        let mut found: Vec<MatchedArticles> = Vec::new();
        let mut i: usize = self.article_count();
        while i > 0
            invariant
                q@ == query@,
                q@.len() > 0,
                s == self.view(),
                i <= s.articles.len(),
                found@.len() == matches_from(s, q@, i as int).len(),
                forall|k: int|
                    0 <= k < found@.len() ==> #[trigger] found@[k]@ == matched_of(
                        matches_from(s, q@, i as int)[k],
                        q@,
                        style@,
                    ),
            decreases i,
        {
            i = i - 1;
            let a = self.article(i);
            let ghost before = found@;
            let ghost rest = matches_from(s, q@, i + 1);
            let (title, t_hit) = snippet_text(a.title.as_str(), &q, style);
            let (description, d_hit) = snippet_text(a.description.as_str(), &q, style);
            let (body, b_hit) = snippet_text(a.body.as_str(), &q, style);
            assert(matches_from(s, q@, i as int) == if article_matches(s.articles[i as int], q@) {
                rest.push(s.articles[i as int])
            } else {
                rest
            });
            if t_hit || d_hit || b_hit {
                found.push(
                    MatchedArticles {
                        slug: a.slug.clone(),
                        title: Some(title),
                        description: Some(description),
                        body: Some(body),
                    },
                );
                assert forall|k: int| 0 <= k < found@.len() implies #[trigger] found@[k]@
                    == matched_of(matches_from(s, q@, i as int)[k], q@, style@) by {
                    if k < before.len() {
                        assert(found@[k] == before[k]);
                        assert(matches_from(s, q@, i as int)[k] == rest[k]);
                    }
                }
            } else {
                assert forall|k: int| 0 <= k < found@.len() implies #[trigger] found@[k]@
                    == matched_of(matches_from(s, q@, i as int)[k], q@, style@) by {
                    assert(matches_from(s, q@, i as int)[k] == rest[k]);
                }
            }
        }
        assert(rows == matches_from(s, q@, 0));
        let n = found.len() as u64;
        let lo: u64 = if plan.offset < n {
            plan.offset
        } else {
            n
        };
        let hi: u64 = if plan.limit as u64 <= n - lo {
            lo + plan.limit as u64
        } else {
            n
        };
        let mut matches: Vec<MatchedArticles> = Vec::new();
        let mut k: u64 = lo;
        while k < hi
            invariant
                lo <= k <= hi <= n == found@.len(),
                matches@.len() == k - lo,
                forall|m: int|
                    0 <= m < matches@.len() ==> #[trigger] matches@[m]@ == found@[lo + m]@,
            decreases hi - k,
        {
            matches.push(found[k as usize].clone_matched());
            k = k + 1;
        }
        let ghost page_rows = search_page(s, q@, page, amount, style@);
        assert(matches@.map_values(|m: MatchedArticles| m@) =~= page_rows);
        Ok(SearchResult { total_count: n, page, amount, matches })
    }
}

fn clone_text(o: &Option<String>) -> (r: Option<String>)
    ensures
        opt_view(r) == opt_view(*o),
{
    match o {
        Some(s) => Some(s.clone()),
        None => None,
    }
}

impl MatchedArticles {
    /// A copy of this result.
    pub fn clone_matched(&self) -> (r: MatchedArticles)
        ensures
            r@ == self@,
    {
        MatchedArticles {
            slug: self.slug.clone(),
            title: clone_text(&self.title),
            description: clone_text(&self.description),
            body: clone_text(&self.body),
        }
    }
}

} // verus!
