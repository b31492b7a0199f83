//! Resolution of a page of article summaries for each kind of feed.
//!
//! Articles are listed newest first. A page of size `amount` at index `page`
//! starts at `page * amount` in that list. The fields `fav` and
//! `author.following` are computed for the caller; without a caller both
//! are false.
//!
//! The planning functions (`plan_feed`, `FeedTarget::from_params`) are what
//! a caller over a relational store uses: they fix the filter, limit and
//! offset of the query. `ArticleStore` holds articles and relations in
//! memory and answers the same feeds itself, as a reference for what a
//! page holds. It takes the order in which articles were added as their
//! order of creation: the last added is the newest.

use vstd::prelude::*;
use crate::error::FeedError;
use crate::pagination::{PageModel, Pagination, lemma_page_offset_bound};
use crate::relation::{EdgeModel, EdgeSet, edges_to};
use crate::text::same_text;

verus! {

/// Which articles a feed holds.
#[derive(Clone, Debug)]
pub enum FeedTarget {
    /// Every article.
    Global,
    /// The articles that carry this tag.
    TagFiltered(String),
    /// The articles whose author the caller follows; needs a caller.
    Following,
    /// The articles written by this user.
    ProfileAuthored(String),
    /// The articles that this user has favorited.
    ProfileFavorited(String),
}

pub enum TargetModel {
    Global,
    TagFiltered(Seq<char>),
    Following,
    ProfileAuthored(Seq<char>),
    ProfileFavorited(Seq<char>),
}

impl View for FeedTarget {
    type V = TargetModel;

    open spec fn view(&self) -> TargetModel {
        match self {
            FeedTarget::Global => TargetModel::Global,
            FeedTarget::TagFiltered(t) => TargetModel::TagFiltered(t@),
            FeedTarget::Following => TargetModel::Following,
            FeedTarget::ProfileAuthored(u) => TargetModel::ProfileAuthored(u@),
            FeedTarget::ProfileFavorited(u) => TargetModel::ProfileFavorited(u@),
        }
    }
}

/// The feed that page parameters select on the home page: a tag filter
/// first if there is one, else the followed authors if asked, else all.
pub open spec fn target_of_params(p: PageModel) -> TargetModel {
    if p.tag.len() > 0 {
        TargetModel::TagFiltered(p.tag)
    } else if p.my_feed {
        TargetModel::Following
    } else {
        TargetModel::Global
    }
}

impl FeedTarget {
    /// The home-page feed for these parameters.
    pub fn from_params(p: &Pagination) -> (r: FeedTarget)
        ensures
            r@ == target_of_params(p@),
    {
        if !p.tag.as_str().is_empty() {
            FeedTarget::TagFiltered(p.tag.clone())
        } else if p.my_feed {
            FeedTarget::Following
        } else {
            FeedTarget::Global
        }
    }

    /// The feed of a profile page: the user's favorites, or what they wrote.
    pub fn for_profile(username: String, favourites: bool) -> (r: FeedTarget)
        ensures
            r@ == (if favourites {
                TargetModel::ProfileFavorited(username@)
            } else {
                TargetModel::ProfileAuthored(username@)
            }),
    {
        if favourites {
            FeedTarget::ProfileFavorited(username)
        } else {
            FeedTarget::ProfileAuthored(username)
        }
    }
}

/// The rows of the article table that a feed keeps.
#[derive(Clone, Debug, PartialEq, Eq)]
pub enum FeedFilter {
    /// Every article.
    All,
    /// Articles that carry this tag.
    TaggedWith(String),
    /// Articles whose author this user follows.
    FollowedBy(String),
    /// Articles written by this user.
    AuthoredBy(String),
    /// Articles that this user has favorited.
    FavoritedBy(String),
}

pub enum FilterModel {
    All,
    TaggedWith(Seq<char>),
    FollowedBy(Seq<char>),
    AuthoredBy(Seq<char>),
    FavoritedBy(Seq<char>),
}

impl View for FeedFilter {
    type V = FilterModel;

    open spec fn view(&self) -> FilterModel {
        match self {
            FeedFilter::All => FilterModel::All,
            FeedFilter::TaggedWith(t) => FilterModel::TaggedWith(t@),
            FeedFilter::FollowedBy(u) => FilterModel::FollowedBy(u@),
            FeedFilter::AuthoredBy(u) => FilterModel::AuthoredBy(u@),
            FeedFilter::FavoritedBy(u) => FilterModel::FavoritedBy(u@),
        }
    }
}

/// The filter of feed `t` for a signed-in `caller`.
pub open spec fn filter_of(t: TargetModel, caller: Seq<char>) -> FilterModel {
    match t {
        TargetModel::Global => FilterModel::All,
        TargetModel::TagFiltered(tag) => FilterModel::TaggedWith(tag),
        TargetModel::Following => FilterModel::FollowedBy(caller),
        TargetModel::ProfileAuthored(u) => FilterModel::AuthoredBy(u),
        TargetModel::ProfileFavorited(u) => FilterModel::FavoritedBy(u),
    }
}

/// The query of one page of a feed: the rows kept, newest first, of which
/// at most `limit` are returned after skipping `offset`.
#[derive(Clone, Debug, PartialEq, Eq)]
pub struct FeedPlan {
    pub filter: FeedFilter,
    pub limit: u32,
    pub offset: u64,
}

/// Whether a feed needs a caller that is missing.
pub open spec fn unauthorized(t: TargetModel, has_caller: bool) -> bool {
    t is Following && !has_caller
}

/// Plans the query of one page of a feed: the filter of the target, with
/// the caller's name for the followed-authors feed, `limit = amount` and
/// `offset = page * amount`. The followed-authors feed without a caller is
/// refused, so that a missing sign-in does not pass for an empty feed.
pub fn plan_feed(params: &Pagination, caller: Option<&str>, target: &FeedTarget) -> (r: Result<
    FeedPlan,
    FeedError,
>)
    ensures
        r is Err <==> unauthorized(target@, caller is Some),
        r matches Err(e) ==> e == FeedError::AuthorizationFailure,
        r matches Ok(plan) ==> {
            &&& plan.filter@ == filter_of(
                target@,
                match caller {
                    Some(c) => c@,
                    None => Seq::empty(),
                },
            )
            &&& plan.limit == params.amount
            &&& plan.offset == params.page as int * params.amount as int
        },
{
    let filter = match target {
        FeedTarget::Global => FeedFilter::All,
        FeedTarget::TagFiltered(tag) => FeedFilter::TaggedWith(tag.clone()),
        FeedTarget::Following => match caller {
            Some(c) => FeedFilter::FollowedBy(c.to_string()),
            None => return Err(FeedError::AuthorizationFailure),
        },
        FeedTarget::ProfileAuthored(u) => FeedFilter::AuthoredBy(u.clone()),
        FeedTarget::ProfileFavorited(u) => FeedFilter::FavoritedBy(u.clone()),
    };
    proof {
        lemma_page_offset_bound(params.page, params.amount);
    }
    let offset = params.page as u64 * params.amount as u64;
    Ok(FeedPlan { filter, limit: params.amount, offset })
}

/// Whether a "next page" control is offered after a page of `returned`
/// articles: only after a full page, which may still be the last one.
pub fn may_have_next_page(returned: usize, amount: u32) -> (r: bool)
    ensures
        r == (returned > 0 && returned >= amount),
{
    returned > 0 && returned as u64 >= amount as u64
}

/// An article as the store holds it.
#[derive(Clone, Debug)]
pub struct ArticleRecord {
    pub slug: String,
    pub title: String,
    pub description: String,
    pub body: String,
    /// Creation time, already formatted for display.
    pub created_at: String,
    pub author: String,
    pub author_image: Option<String>,
    pub tag_list: Vec<String>,
    pub comments_count: u32,
}

pub struct ArticleModel {
    pub slug: Seq<char>,
    pub title: Seq<char>,
    pub description: Seq<char>,
    pub body: Seq<char>,
    pub created_at: Seq<char>,
    pub author: Seq<char>,
    pub author_image: Option<Seq<char>>,
    pub tag_list: Seq<Seq<char>>,
    pub comments_count: u32,
}

pub open spec fn opt_view(o: Option<String>) -> Option<Seq<char>> {
    match o {
        Some(s) => Some(s@),
        None => None,
    }
}

pub open spec fn strings_view(v: Seq<String>) -> Seq<Seq<char>> {
    v.map_values(|s: String| s@)
}

impl View for ArticleRecord {
    type V = ArticleModel;

    open spec fn view(&self) -> ArticleModel {
        ArticleModel {
            slug: self.slug@,
            title: self.title@,
            description: self.description@,
            body: self.body@,
            created_at: self.created_at@,
            author: self.author@,
            author_image: opt_view(self.author_image),
            tag_list: strings_view(self.tag_list@),
            comments_count: self.comments_count,
        }
    }
}

/// The author of an article, as the caller sees it.
#[derive(Clone, Debug)]
pub struct Author {
    pub username: String,
    pub image: Option<String>,
    /// Whether the caller follows this author.
    pub following: bool,
}

/// One article of a feed page, as the caller sees it.
#[derive(Clone, Debug)]
pub struct ArticleSummary {
    pub slug: String,
    pub title: String,
    pub description: String,
    pub created_at: String,
    pub comments_count: u32,
    pub favorites_count: u64,
    /// Whether the caller favorites this article.
    pub fav: bool,
    pub tag_list: Vec<String>,
    pub author: Author,
}

pub struct SummaryModel {
    pub slug: Seq<char>,
    pub title: Seq<char>,
    pub description: Seq<char>,
    pub created_at: Seq<char>,
    pub comments_count: u32,
    pub favorites_count: u64,
    pub fav: bool,
    pub tag_list: Seq<Seq<char>>,
    pub author: Seq<char>,
    pub author_image: Option<Seq<char>>,
    pub following: bool,
}

impl View for ArticleSummary {
    type V = SummaryModel;

    open spec fn view(&self) -> SummaryModel {
        SummaryModel {
            slug: self.slug@,
            title: self.title@,
            description: self.description@,
            created_at: self.created_at@,
            comments_count: self.comments_count,
            favorites_count: self.favorites_count,
            fav: self.fav,
            tag_list: strings_view(self.tag_list@),
            author: self.author.username@,
            author_image: opt_view(self.author.image),
            following: self.author.following,
        }
    }
}

/// The favorites count shown after a favorite toggle returned `favorited`:
/// one more when the article became a favorite, one fewer otherwise, never
/// below zero.
pub open spec fn adjusted_count(count: nat, favorited: bool) -> nat {
    if favorited {
        count + 1
    } else if count == 0 {
        0
    } else {
        (count - 1) as nat
    }
}

/// The count after `n` unfavorite results in a row.
pub open spec fn unfavorited_times(count: nat, n: nat) -> nat
    decreases n,
{
    if n == 0 {
        count
    } else {
        adjusted_count(unfavorited_times(count, (n - 1) as nat), false)
    }
}

/// Unfavoriting more times than the count stops at zero: after `n`
/// unfavorites a count `c` is `c - n`, or 0 when `n >= c`.
pub proof fn lemma_unfavorite_stops_at_zero(count: nat, n: nat)
    ensures
        unfavorited_times(count, n) == (if n >= count {
            0
        } else {
            count - n
        }),
    decreases n,
{
    if n > 0 {
        lemma_unfavorite_stops_at_zero(count, (n - 1) as nat);
    }
}

impl ArticleSummary {
    /// Applies the result of a favorite toggle of this article by the
    /// caller: `fav` flips, and the count moves up by one when the toggle
    /// returned true and down by one otherwise, never below zero.
    pub fn apply_favorite_result(&mut self, favorited: bool)
        requires
            favorited ==> old(self).favorites_count < u64::MAX,
        ensures
            final(self)@ == (SummaryModel {
                fav: !old(self).fav,
                favorites_count: adjusted_count(
                    old(self).favorites_count as nat,
                    favorited,
                ) as u64,
                ..old(self)@
            }),
    {
        self.fav = !self.fav;
        if favorited {
            self.favorites_count = self.favorites_count + 1;
        } else if self.favorites_count > 0 {
            self.favorites_count = self.favorites_count - 1;
        }
    }
}

/// What an article store holds, as values.
pub struct StoreModel {
    /// Articles, oldest first.
    pub articles: Seq<ArticleModel>,
    /// Follow edges, follower to followed author.
    pub follows: Set<EdgeModel>,
    /// Favorite edges, username to article slug.
    pub favorites: Set<EdgeModel>,
}

/// Whether article `a` belongs to feed `t` for `caller`.
pub open spec fn in_feed(
    s: StoreModel,
    caller: Option<Seq<char>>,
    t: TargetModel,
    a: ArticleModel,
) -> bool {
    match t {
        TargetModel::Global => true,
        TargetModel::TagFiltered(tag) => a.tag_list.contains(tag),
        TargetModel::Following => caller is Some && s.follows.contains((caller->0, a.author)),
        TargetModel::ProfileAuthored(u) => a.author == u,
        TargetModel::ProfileFavorited(u) => s.favorites.contains((u, a.slug)),
    }
}

/// The articles of feed `t` among those at index `lo` and later, newest first.
pub open spec fn feed_from(s: StoreModel, caller: Option<Seq<char>>, t: TargetModel, lo: int) -> Seq<
    ArticleModel,
>
    decreases s.articles.len() - lo,
{
    if lo < 0 || lo >= s.articles.len() {
        Seq::empty()
    } else {
        let rest = feed_from(s, caller, t, lo + 1);
        if in_feed(s, caller, t, s.articles[lo]) {
            rest.push(s.articles[lo])
        } else {
            rest
        }
    }
}

/// The whole feed `t` for `caller`, newest first.
pub open spec fn feed_rows(s: StoreModel, caller: Option<Seq<char>>, t: TargetModel) -> Seq<
    ArticleModel,
> {
    feed_from(s, caller, t, 0)
}

/// The part of `rows` that a page starting at `offset` with at most
/// `limit` rows shows.
pub open spec fn window<A>(rows: Seq<A>, offset: int, limit: int) -> Seq<A> {
    let lo = if offset < rows.len() {
        offset
    } else {
        rows.len() as int
    };
    let hi = if offset + limit < rows.len() {
        offset + limit
    } else {
        rows.len() as int
    };
    rows.subrange(lo, hi)
}

/// Article `a` as `caller` sees it.
pub open spec fn summary_of(s: StoreModel, caller: Option<Seq<char>>, a: ArticleModel) -> SummaryModel {
    SummaryModel {
        slug: a.slug,
        title: a.title,
        description: a.description,
        created_at: a.created_at,
        comments_count: a.comments_count,
        favorites_count: edges_to(s.favorites, a.slug).len() as u64,
        fav: caller is Some && s.favorites.contains((caller->0, a.slug)),
        tag_list: a.tag_list,
        author: a.author,
        author_image: a.author_image,
        following: caller is Some && caller->0 != a.author && s.follows.contains(
            (caller->0, a.author),
        ),
    }
}

/// The page of feed `t` that `params` select, as `caller` sees it.
pub open spec fn feed_page(
    s: StoreModel,
    params: PageModel,
    caller: Option<Seq<char>>,
    t: TargetModel,
) -> Seq<SummaryModel> {
    window(
        feed_rows(s, caller, t),
        params.page * params.amount,
        params.amount as int,
    ).map_values(|a: ArticleModel| summary_of(s, caller, a))
}

pub open spec fn caller_view(caller: Option<&str>) -> Option<Seq<char>> {
    match caller {
        Some(c) => Some(c@),
        None => None,
    }
}

pub open spec fn summaries_view(v: Seq<ArticleSummary>) -> Seq<SummaryModel> {
    v.map_values(|x: ArticleSummary| x@)
}

fn clone_option(o: &Option<String>) -> (r: Option<String>)
    ensures
        opt_view(r) == opt_view(*o),
{
    match o {
        Some(s) => Some(s.clone()),
        None => None,
    }
}

fn clone_strings(v: &Vec<String>) -> (r: Vec<String>)
    ensures
        strings_view(r@) == strings_view(v@),
{
    let mut r: Vec<String> = Vec::new();
    let mut i: usize = 0;
    while i < v.len()
        invariant
            i <= v@.len(),
            r@.len() == i,
            forall|j: int| 0 <= j < i ==> r@[j]@ == v@[j]@,
        decreases v@.len() - i,
    {
        r.push(v[i].clone());
        i = i + 1;
    }
    assert(strings_view(r@) =~= strings_view(v@));
    r
}

fn tags_contain(tags: &Vec<String>, tag: &str) -> (r: bool)
    ensures
        r == strings_view(tags@).contains(tag@),
{
    let mut i: usize = 0;
    while i < tags.len()
        invariant
            i <= tags@.len(),
            forall|j: int| 0 <= j < i ==> tags@[j]@ != tag@,
        decreases tags@.len() - i,
    {
        if same_text(tags[i].as_str(), tag) {
            assert(strings_view(tags@)[i as int] == tag@);
            return true;
        }
        i = i + 1;
    }
    assert(!strings_view(tags@).contains(tag@)) by {
        if strings_view(tags@).contains(tag@) {
            let k = choose|k: int| 0 <= k < tags@.len() && strings_view(tags@)[k] == tag@;
            assert(tags@[k]@ == tag@);
        }
    }
    false
}

/// Articles with follow and favorite relations: the store behind the feeds,
/// held in memory.
pub struct ArticleStore {
    articles: Vec<ArticleRecord>,
    follows: EdgeSet,
    favorites: EdgeSet,
}

impl ArticleStore {
    pub closed spec fn view(&self) -> StoreModel {
        StoreModel {
            articles: self.articles@.map_values(|a: ArticleRecord| a@),
            follows: self.follows.view(),
            favorites: self.favorites.view(),
        }
    }

    pub closed spec fn wf(&self) -> bool {
        &&& self.follows.wf()
        &&& self.favorites.wf()
        &&& forall|i: int, j: int|
            0 <= i < j < self.articles@.len() ==> self.articles@[i].slug@
                != self.articles@[j].slug@
    }

    pub fn new() -> (r: ArticleStore)
        ensures
            r.wf(),
            r.view().articles.len() == 0,
            r.view().follows.is_empty(),
            r.view().favorites.is_empty(),
    {
        ArticleStore { articles: Vec::new(), follows: EdgeSet::new(), favorites: EdgeSet::new() }
    }

    fn find_article(&self, slug: &str) -> (r: Option<usize>)
        ensures
            r matches Some(i) ==> i < self.view().articles.len() && self.view().articles[i as int].slug
                == slug@,
            r is None ==> forall|i: int|
                0 <= i < self.view().articles.len() ==> self.view().articles[i].slug != slug@,
    {
        let mut i: usize = 0;
        while i < self.articles.len()
            invariant
                i <= self.articles@.len(),
                forall|j: int| 0 <= j < i ==> self.articles@[j].slug@ != slug@,
            decreases self.articles@.len() - i,
        {
            if same_text(self.articles[i].slug.as_str(), slug) {
                return Some(i);
            }
            i = i + 1;
        }
        None
    }

    /// The number of articles.
    pub fn article_count(&self) -> (r: usize)
        ensures
            r == self.view().articles.len(),
    {
        self.articles.len()
    }

    /// The article at index `i`, oldest first.
    pub fn article(&self, i: usize) -> (r: &ArticleRecord)
        requires
            i < self.view().articles.len(),
        ensures
            r@ == self.view().articles[i as int],
    {
        &self.articles[i]
    }

    /// Whether an article with this slug exists.
    pub fn has_article(&self, slug: &str) -> (r: bool)
        ensures
            r == exists|i: int|
                0 <= i < self.view().articles.len() && self.view().articles[i].slug == slug@,
    {
        match self.find_article(slug) {
            Some(_) => true,
            None => false,
        }
    }

    /// Adds an article as the newest one: the order in which articles are
    /// added stands for their order of creation, and feeds list the last
    /// added first. Slugs are unique: when one with the same slug exists,
    /// nothing changes and the result is false.
    pub fn add_article(&mut self, article: ArticleRecord) -> (r: bool)
        requires
            old(self).wf(),
        ensures
            final(self).wf(),
            r == !exists|i: int|
                0 <= i < old(self).view().articles.len() && old(self).view().articles[i].slug
                    == article.slug@,
            r ==> final(self).view() == (StoreModel {
                articles: old(self).view().articles.push(article@),
                ..old(self).view()
            }),
            !r ==> final(self).view() == old(self).view(),
    {
        if self.has_article(article.slug.as_str()) {
            return false;
        }
        let ghost before = self.articles@;
        proof {
            assert forall|i: int| 0 <= i < before.len() implies before[i].slug@ != article.slug@ by {
                assert(self.view().articles[i] == before[i]@);
            }
        }
        self.articles.push(article);
        assert(self.articles@.map_values(|a: ArticleRecord| a@) =~= before.map_values(
            |a: ArticleRecord| a@,
        ).push(self.articles@.last()@));
        true
    }

    /// Toggles whether `follower` follows `author`; returns whether it does
    /// afterwards. Needs a caller.
    pub fn toggle_follow(&mut self, follower: Option<&str>, author: &str) -> (r: Result<
        bool,
        FeedError,
    >)
        requires
            old(self).wf(),
        ensures
            final(self).wf(),
            follower is None ==> r == Err::<bool, FeedError>(FeedError::AuthorizationFailure)
                && final(self).view() == old(self).view(),
            follower matches Some(f) ==> r == Ok::<bool, FeedError>(
                !old(self).view().follows.contains((f@, author@)),
            ) && final(self).view() == (StoreModel {
                follows: crate::relation::toggled(old(self).view().follows, (f@, author@)),
                ..old(self).view()
            }),
    {
        match follower {
            None => Err(FeedError::AuthorizationFailure),
            Some(f) => Ok(self.follows.toggle(f, author)),
        }
    }

    /// Toggles whether `user` favorites the article `slug`; returns whether
    /// it does afterwards. Needs a caller and an existing article.
    pub fn toggle_favorite(&mut self, user: Option<&str>, slug: &str) -> (r: Result<
        bool,
        FeedError,
    >)
        requires
            old(self).wf(),
        ensures
            final(self).wf(),
            user is None ==> r == Err::<bool, FeedError>(FeedError::AuthorizationFailure)
                && final(self).view() == old(self).view(),
            user is Some && !(exists|i: int|
                0 <= i < old(self).view().articles.len() && old(self).view().articles[i].slug
                    == slug@) ==> r == Err::<bool, FeedError>(FeedError::NotFound)
                && final(self).view() == old(self).view(),
            user matches Some(u) ==> (exists|i: int|
                0 <= i < old(self).view().articles.len() && old(self).view().articles[i].slug
                    == slug@) ==> r == Ok::<bool, FeedError>(
                !old(self).view().favorites.contains((u@, slug@)),
            ) && final(self).view() == (StoreModel {
                favorites: crate::relation::toggled(old(self).view().favorites, (u@, slug@)),
                ..old(self).view()
            }),
    {
        match user {
            None => Err(FeedError::AuthorizationFailure),
            Some(u) => {
                if !self.has_article(slug) {
                    return Err(FeedError::NotFound);
                }
                Ok(self.favorites.toggle(u, slug))
            },
        }
    }

    /// Whether `from` follows `to`.
    pub fn is_following(&self, from: &str, to: &str) -> (r: bool)
        ensures
            r == self.view().follows.contains((from@, to@)),
    {
        self.follows.contains(from, to)
    }

    /// Whether `user` favorites the article `slug`.
    pub fn is_favorite(&self, user: &str, slug: &str) -> (r: bool)
        ensures
            r == self.view().favorites.contains((user@, slug@)),
    {
        self.favorites.contains(user, slug)
    }

    fn belongs(&self, caller: Option<&str>, target: &FeedTarget, a: &ArticleRecord) -> (r: bool)
        ensures
            r == in_feed(self.view(), caller_view(caller), target@, a@),
    {
        match target {
            FeedTarget::Global => true,
            FeedTarget::TagFiltered(tag) => tags_contain(&a.tag_list, tag.as_str()),
            FeedTarget::Following => match caller {
                Some(c) => self.follows.contains(c, a.author.as_str()),
                None => false,
            },
            FeedTarget::ProfileAuthored(u) => same_text(a.author.as_str(), u.as_str()),
            FeedTarget::ProfileFavorited(u) => self.favorites.contains(u.as_str(), a.slug.as_str()),
        }
    }

    /// Indices of the articles of a feed, newest first.
    fn feed_indices(&self, caller: Option<&str>, target: &FeedTarget) -> (r: Vec<usize>)
        ensures
            r@.len() == feed_rows(self.view(), caller_view(caller), target@).len(),
            forall|k: int| 0 <= k < r@.len() ==> #[trigger] r@[k] < self.view().articles.len(),
            forall|k: int|
                0 <= k < r@.len() ==> self.view().articles[r@[k] as int] == #[trigger] feed_rows(
                    self.view(),
                    caller_view(caller),
                    target@,
                )[k],
    {
        let ghost s = self.view();
        let ghost c = caller_view(caller);
        let ghost t = target@;
        let mut r: Vec<usize> = Vec::new();
        let mut i: usize = self.articles.len();
        while i > 0
            invariant
                i <= self.articles@.len(),
                s == self.view(),
                s.articles.len() == self.articles@.len(),
                c == caller_view(caller),
                t == target@,
                r@.len() == feed_from(s, c, t, i as int).len(),
                forall|k: int| 0 <= k < r@.len() ==> #[trigger] r@[k] < s.articles.len(),
                forall|k: int|
                    0 <= k < r@.len() ==> s.articles[r@[k] as int] == #[trigger] feed_from(
                        s,
                        c,
                        t,
                        i as int,
                    )[k],
            decreases i,
        {
            i = i - 1;
            assert(s.articles[i as int] == self.articles@[i as int]@);
            let ghost before = r@;
            let ghost rest = feed_from(s, c, t, i + 1);
            assert(feed_from(s, c, t, i as int) == if in_feed(s, c, t, s.articles[i as int]) {
                rest.push(s.articles[i as int])
            } else {
                rest
            });
            if self.belongs(caller, target, &self.articles[i]) {
                r.push(i);
                assert forall|k: int| 0 <= k < r@.len() implies s.articles[r@[k] as int]
                    == #[trigger] feed_from(s, c, t, i as int)[k] by {
                    if k < before.len() {
                        assert(r@[k] == before[k]);
                        assert(feed_from(s, c, t, i as int)[k] == rest[k]);
                    }
                }
            } else {
                assert forall|k: int| 0 <= k < r@.len() implies s.articles[r@[k] as int]
                    == #[trigger] feed_from(s, c, t, i as int)[k] by {
                    assert(feed_from(s, c, t, i as int)[k] == rest[k]);
                }
            }
        }
        assert(feed_rows(s, c, t) == feed_from(s, c, t, 0));
        r
    }

    /// Builds the summary of article `a` for `caller`.
    fn summarize(&self, caller: Option<&str>, a: &ArticleRecord) -> (r: ArticleSummary)
        requires
            self.wf(),
        ensures
            r@ == summary_of(self.view(), caller_view(caller), a@),
    {
        let (fav, following) = match caller {
            Some(c) => (
                self.favorites.contains(c, a.slug.as_str()),
                !same_text(c, a.author.as_str()) && self.follows.contains(c, a.author.as_str()),
            ),
            None => (false, false),
        };
        let count = self.favorites.count_to(a.slug.as_str());
        ArticleSummary {
            slug: a.slug.clone(),
            title: a.title.clone(),
            description: a.description.clone(),
            created_at: a.created_at.clone(),
            comments_count: a.comments_count,
            favorites_count: count as u64,
            fav,
            tag_list: clone_strings(&a.tag_list),
            author: Author {
                username: a.author.clone(),
                image: clone_option(&a.author_image),
                following,
            },
        }
    }

    /// The page of feed `target` that `params` select, as `caller` sees
    /// it: the articles of the feed newest first, from `page * amount` on,
    /// at most `amount` of them. The followed-authors feed needs a caller.
    pub fn resolve_feed(&self, params: &Pagination, caller: Option<&str>, target: &FeedTarget) -> (r:
        Result<Vec<ArticleSummary>, FeedError>)
        requires
            self.wf(),
        ensures
            r is Err <==> unauthorized(target@, caller is Some),
            r matches Err(e) ==> e == FeedError::AuthorizationFailure,
            r matches Ok(v) ==> summaries_view(v@) == feed_page(
                self.view(),
                params@,
                caller_view(caller),
                target@,
            ),
    {
        let plan = match plan_feed(params, caller, target) {
            Ok(p) => p,
            Err(e) => return Err(e),
        };
        let ghost rows = feed_rows(self.view(), caller_view(caller), target@);
        let idx = self.feed_indices(caller, target);
        let n = idx.len() as u64;
        proof {
            lemma_page_offset_bound(params.page, params.amount);
        }
        assert forall|j: int| 0 <= j < idx@.len() implies self.view().articles[idx@[j] as int]
            == #[trigger] rows[j] by {
            assert(rows[j] == feed_rows(self.view(), caller_view(caller), target@)[j]);
        }
        let lo: u64 = if plan.offset < n {
            plan.offset
        } else {
            n
        };
        let hi: u64 = if plan.offset + (plan.limit as u64) < n {
            plan.offset + plan.limit as u64
        } else {
            n
        };
        let ghost win = window(rows, params.page * params.amount, params.amount as int);
        assert(win =~= rows.subrange(lo as int, hi as int));
        let mut out: Vec<ArticleSummary> = Vec::new();
        let mut k: u64 = lo;
        while k < hi
            invariant
                self.wf(),
                lo <= k <= hi <= n,
                n == idx@.len(),
                idx@.len() == rows.len(),
                rows == feed_rows(self.view(), caller_view(caller), target@),
                win == rows.subrange(lo as int, hi as int),
                forall|j: int| 0 <= j < idx@.len() ==> #[trigger] idx@[j] < self.view().articles.len(),
                forall|j: int|
                    0 <= j < idx@.len() ==> self.view().articles[idx@[j] as int] == #[trigger] rows[j],
                out@.len() == k - lo,
                forall|m: int|
                    0 <= m < out@.len() ==> #[trigger] out@[m]@ == summary_of(
                        self.view(),
                        caller_view(caller),
                        rows[lo + m],
                    ),
            decreases hi - k,
        {
            let j = idx[k as usize];
            assert(self.view().articles[j as int] == self.articles@[j as int]@);
            let summary = self.summarize(caller, &self.articles[j]);
            out.push(summary);
            assert(out@[k - lo]@ == summary_of(
                self.view(),
                caller_view(caller),
                rows[lo + (k - lo)],
            ));
            k = k + 1;
        }
        assert(summaries_view(out@) =~= feed_page(
            self.view(),
            params@,
            caller_view(caller),
            target@,
        ));
        Ok(out)
    }
}

} // verus!
