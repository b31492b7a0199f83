//! Page parameters of a feed and their query-string form.
//!
//! A query string is a list of `key=value` pairs joined by `&`, with an
//! optional leading `?`. The keys are `page`, `amount`, `tag` and `my_feed`;
//! others are ignored, and a later pair overrides an earlier one with the
//! same key. A value that does not parse leaves its field at the default.

use vstd::prelude::*;
use crate::text::{
    chars_of, decimal, find_char, index_of, lacks, lemma_index_of_absent,
    lemma_index_of_join, lemma_parse_decimal, lemma_percent_round_trip, parse_u32,
    parse_u32_range, percent_decode, percent_decode_range, percent_encode, push_decimal,
    push_percent_encoded, range_equals,
};

verus! {

/// Page size used when a query does not give one.
pub const DEFAULT_AMOUNT: u32 = 10;

/// The parameters of one page of a feed.
#[derive(Clone, Debug)]
pub struct Pagination {
    /// Zero-based page index.
    pub page: u32,
    /// Number of articles per page.
    pub amount: u32,
    /// Tag filter; empty means no filter.
    pub tag: String,
    /// Whether the feed holds only articles of followed authors.
    pub my_feed: bool,
}

/// Mathematical value of a `Pagination`.
pub struct PageModel {
    pub page: u32,
    pub amount: u32,
    pub tag: Seq<char>,
    pub my_feed: bool,
}

impl View for Pagination {
    type V = PageModel;

    open spec fn view(&self) -> PageModel {
        PageModel { page: self.page, amount: self.amount, tag: self.tag@, my_feed: self.my_feed }
    }
}

pub open spec fn default_model() -> PageModel {
    PageModel { page: 0, amount: DEFAULT_AMOUNT, tag: Seq::empty(), my_feed: false }
}

pub open spec fn page_key() -> Seq<char> {
    seq!['p', 'a', 'g', 'e']
}

pub open spec fn amount_key() -> Seq<char> {
    seq!['a', 'm', 'o', 'u', 'n', 't']
}

pub open spec fn tag_key() -> Seq<char> {
    seq!['t', 'a', 'g']
}

pub open spec fn my_feed_key() -> Seq<char> {
    seq!['m', 'y', '_', 'f', 'e', 'e', 'd']
}

pub open spec fn true_word() -> Seq<char> {
    seq!['t', 'r', 'u', 'e']
}

pub open spec fn favourites_key() -> Seq<char> {
    seq!['f', 'a', 'v', 'o', 'u', 'r', 'i', 't', 'e', 's']
}

/// Whether one of the `&`-separated pairs of `s` has the key `favourites`.
pub open spec fn flag_in(s: Seq<char>) -> bool
    decreases s.len(),
{
    let k = index_of(s, '&');
    if k >= s.len() {
        pair_key(s) == favourites_key()
    } else {
        pair_key(s.take(k as int)) == favourites_key() || flag_in(s.skip(k as int + 1))
    }
}

/// Whether a query string holds the `favourites` key.
pub open spec fn has_favourites_flag(s: Seq<char>) -> bool {
    flag_in(query_body(s))
}

/// The key of a `key=value` pair: everything before the first `=`.
pub open spec fn pair_key(seg: Seq<char>) -> Seq<char> {
    seg.take(index_of(seg, '=') as int)
}

/// The value of a `key=value` pair: everything after the first `=`, or
/// nothing when there is no `=`.
pub open spec fn pair_value(seg: Seq<char>) -> Seq<char> {
    let k = index_of(seg, '=');
    if k < seg.len() {
        seg.skip(k as int + 1)
    } else {
        Seq::empty()
    }
}

/// The effect of one `key=value` pair on the parameters read so far.
pub open spec fn apply_pair(p: PageModel, seg: Seq<char>) -> PageModel {
    let key = pair_key(seg);
    let value = pair_value(seg);
    if key == page_key() {
        PageModel {
            page: match parse_u32(value) {
                Some(n) => n,
                None => 0,
            },
            ..p
        }
    } else if key == amount_key() {
        PageModel {
            amount: match parse_u32(value) {
                Some(n) => n,
                None => DEFAULT_AMOUNT,
            },
            ..p
        }
    } else if key == tag_key() {
        PageModel { tag: percent_decode(value), ..p }
    } else if key == my_feed_key() {
        PageModel { my_feed: value == true_word(), ..p }
    } else {
        p
    }
}

/// The pairs of `s`, separated by `&`, applied from left to right.
pub open spec fn apply_pairs(p: PageModel, s: Seq<char>) -> PageModel
    decreases s.len(),
{
    let k = index_of(s, '&');
    if k >= s.len() {
        apply_pair(p, s)
    } else {
        apply_pairs(apply_pair(p, s.take(k as int)), s.skip(k as int + 1))
    }
}

/// A query string without its leading `?`.
pub open spec fn query_body(s: Seq<char>) -> Seq<char> {
    if s.len() > 0 && s[0] == '?' {
        s.drop_first()
    } else {
        s
    }
}

/// The parameters that a query string denotes.
pub open spec fn decode_query(s: Seq<char>) -> PageModel {
    apply_pairs(default_model(), query_body(s))
}

pub open spec fn pair(key: Seq<char>, value: Seq<char>) -> Seq<char> {
    key + seq!['='] + value
}

/// The canonical query string: `?`, then `page` unless it is 0, `amount`
/// always, `tag` unless it is empty, and `my_feed` only when it is set.
pub open spec fn encode_query(p: PageModel) -> Seq<char> {
    let page_part = if p.page == 0 {
        Seq::empty()
    } else {
        pair(page_key(), decimal(p.page as nat)) + seq!['&']
    };
    let tag_part = if p.tag.len() == 0 {
        Seq::empty()
    } else {
        seq!['&'] + pair(tag_key(), percent_encode(p.tag))
    };
    let feed_part = if p.my_feed {
        seq!['&'] + pair(my_feed_key(), true_word())
    } else {
        Seq::empty()
    };
    seq!['?'] + page_part + pair(amount_key(), decimal(p.amount as nat)) + tag_part + feed_part
}

/// The first row of page `page` and the end of that page, counted in rows
/// of `amount`, both fit in a `u64`.
pub proof fn lemma_page_offset_bound(page: u32, amount: u32)
    ensures
        page as int * amount as int <= 0xFFFF_FFFE_0000_0001,
        (page as int + 1) * amount as int <= 0xFFFF_FFFF_0000_0000,
{
    assert(page as int * amount as int <= 0xFFFF_FFFE_0000_0001) by (nonlinear_arith)
        requires
            page <= 0xFFFF_FFFF,
            amount <= 0xFFFF_FFFF,
    ;
    assert((page as int + 1) * amount as int <= 0xFFFF_FFFF_0000_0000) by (nonlinear_arith)
        requires
            page <= 0xFFFF_FFFF,
            amount <= 0xFFFF_FFFF,
    ;
}

/// The parameters of the following page.
pub open spec fn next_of(p: PageModel) -> PageModel {
    PageModel { page: (p.page + 1) as u32, ..p }
}

/// The parameters of the preceding page; on the first page, the same.
pub open spec fn previous_of(p: PageModel) -> PageModel {
    if p.page > 0 {
        PageModel { page: (p.page - 1) as u32, ..p }
    } else {
        p
    }
}

/// Going back one page and forward again returns to the same parameters,
/// and going back from the first page stays there.
pub proof fn lemma_previous_then_next(p: PageModel)
    ensures
        p.page > 0 ==> next_of(previous_of(p)) == p,
        p.page == 0 ==> previous_of(p) == p,
{
}

proof fn lemma_pair_parts(key: Seq<char>, value: Seq<char>)
    requires
        lacks(key, '='),
    ensures
        pair_key(pair(key, value)) == key,
        pair_value(pair(key, value)) == value,
{
    lemma_index_of_join(key, '=', value);
}

proof fn lemma_split(p: PageModel, a: Seq<char>, b: Seq<char>)
    requires
        lacks(a, '&'),
    ensures
        apply_pairs(p, a + seq!['&'] + b) == apply_pairs(apply_pair(p, a), b),
{
    lemma_index_of_join(a, '&', b);
}

proof fn lemma_last(p: PageModel, a: Seq<char>)
    requires
        lacks(a, '&'),
    ensures
        apply_pairs(p, a) == apply_pair(p, a),
{
    lemma_index_of_absent(a, '&');
}

proof fn lemma_lacks_pair(key: Seq<char>, value: Seq<char>, c: char)
    requires
        lacks(key, c),
        lacks(value, c),
        c != '=',
    ensures
        lacks(pair(key, value), c),
{
    let s = pair(key, value);
    assert forall|i: int| 0 <= i < s.len() implies s[i] != c by {
        if i < key.len() {
            assert(s[i] == key[i]);
        } else if i > key.len() {
            assert(s[i] == value[i - key.len() - 1]);
        }
    }
}

/// Decoding the canonical query string of any parameters gives them back.
pub proof fn lemma_round_trip(p: PageModel)
    ensures
        decode_query(encode_query(p)) == p,
{
    let q0 = default_model();
    let e = encode_query(p);
    lemma_parse_decimal(p.page);
    lemma_parse_decimal(p.amount);
    lemma_percent_round_trip(p.tag);
    let pseg = pair(page_key(), decimal(p.page as nat));
    let aseg = pair(amount_key(), decimal(p.amount as nat));
    let tseg = pair(tag_key(), percent_encode(p.tag));
    let fseg = pair(my_feed_key(), true_word());
    lemma_pair_parts(page_key(), decimal(p.page as nat));
    lemma_pair_parts(amount_key(), decimal(p.amount as nat));
    lemma_pair_parts(tag_key(), percent_encode(p.tag));
    lemma_pair_parts(my_feed_key(), true_word());
    lemma_lacks_pair(page_key(), decimal(p.page as nat), '&');
    lemma_lacks_pair(amount_key(), decimal(p.amount as nat), '&');
    lemma_lacks_pair(tag_key(), percent_encode(p.tag), '&');
    lemma_lacks_pair(my_feed_key(), true_word(), '&');
    let tag_part = if p.tag.len() == 0 {
        Seq::empty()
    } else {
        seq!['&'] + tseg
    };
    let feed_part = if p.my_feed {
        seq!['&'] + fseg
    } else {
        Seq::empty()
    };
    let rest = aseg + tag_part + feed_part;
    let q1 = if p.page == 0 {
        q0
    } else {
        apply_pair(q0, pseg)
    };
    if p.page == 0 {
        assert(query_body(e) =~= rest);
    } else {
        assert(query_body(e) =~= pseg + seq!['&'] + rest);
        lemma_split(q0, pseg, rest);
    }
    assert(decode_query(e) == apply_pairs(q1, rest));
    let q2 = apply_pair(q1, aseg);
    let q3 = if p.tag.len() == 0 {
        q2
    } else {
        apply_pair(q2, tseg)
    };
    let q4 = if p.my_feed {
        apply_pair(q3, fseg)
    } else {
        q3
    };
    if p.tag.len() == 0 {
        if p.my_feed {
            assert(rest =~= aseg + seq!['&'] + fseg);
            lemma_split(q1, aseg, fseg);
            lemma_last(q2, fseg);
        } else {
            assert(rest =~= aseg);
            lemma_last(q1, aseg);
        }
    } else {
        if p.my_feed {
            assert(rest =~= aseg + seq!['&'] + (tseg + seq!['&'] + fseg));
            lemma_split(q1, aseg, tseg + seq!['&'] + fseg);
            lemma_split(q2, tseg, fseg);
            lemma_last(q3, fseg);
        } else {
            assert(rest =~= aseg + seq!['&'] + tseg);
            lemma_split(q1, aseg, tseg);
            lemma_last(q2, tseg);
        }
    }
    assert(decode_query(e) == q4);
    assert(q4.tag =~= p.tag);
}

fn word_page() -> (r: Vec<char>)
    ensures
        r@ == page_key(),
{
    let r = vec!['p', 'a', 'g', 'e'];
    assert(r@ =~= page_key());
    r
}

fn word_amount() -> (r: Vec<char>)
    ensures
        r@ == amount_key(),
{
    let r = vec!['a', 'm', 'o', 'u', 'n', 't'];
    assert(r@ =~= amount_key());
    r
}

fn word_tag() -> (r: Vec<char>)
    ensures
        r@ == tag_key(),
{
    let r = vec!['t', 'a', 'g'];
    assert(r@ =~= tag_key());
    r
}

fn word_my_feed() -> (r: Vec<char>)
    ensures
        r@ == my_feed_key(),
{
    let r = vec!['m', 'y', '_', 'f', 'e', 'e', 'd'];
    assert(r@ =~= my_feed_key());
    r
}

fn word_true() -> (r: Vec<char>)
    ensures
        r@ == true_word(),
{
    let r = vec!['t', 'r', 'u', 'e'];
    assert(r@ =~= true_word());
    r
}

fn word_favourites() -> (r: Vec<char>)
    ensures
        r@ == favourites_key(),
{
    let r = vec!['f', 'a', 'v', 'o', 'u', 'r', 'i', 't', 'e', 's'];
    assert(r@ =~= favourites_key());
    r
}

fn push_word(out: &mut String, w: &Vec<char>)
    ensures
        final(out)@ == old(out)@ + w@,
{
    let ghost start = out@;
    let mut i: usize = 0;
    while i < w.len()
        invariant
            i <= w@.len(),
            out@ == start + w@.take(i as int),
        decreases w@.len() - i,
    {
        out.push(w[i]);
        assert(w@.take(i as int + 1) =~= w@.take(i as int).push(w@[i as int]));
        i = i + 1;
    }
    assert(w@.take(i as int) =~= w@);
}

fn push_pair_start(out: &mut String, key: &Vec<char>)
    ensures
        final(out)@ == old(out)@ + key@ + seq!['='],
{
    push_word(out, key);
    out.push('=');
}

impl Pagination {
    pub fn new(page: u32, amount: u32, tag: String, my_feed: bool) -> (r: Pagination)
        ensures
            r@ == (PageModel { page, amount, tag: tag@, my_feed }),
    {
        Pagination { page, amount, tag, my_feed }
    }

    pub fn get_page(&self) -> (r: u32)
        ensures
            r == self.page,
    {
        self.page
    }

    pub fn get_amount(&self) -> (r: u32)
        ensures
            r == self.amount,
    {
        self.amount
    }

    pub fn get_tag(&self) -> (r: &str)
        ensures
            r@ == self.tag@,
    {
        self.tag.as_str()
    }

    pub fn get_my_feed(&self) -> (r: bool)
        ensures
            r == self.my_feed,
    {
        self.my_feed
    }

    /// Applies the pair `v[start..end]` to `self`.
    fn apply_segment(self, v: &Vec<char>, start: usize, end: usize) -> (r: Pagination)
        requires
            start <= end <= v@.len(),
        ensures
            r@ == apply_pair(self@, v@.subrange(start as int, end as int)),
    {
        let ghost seg = v@.subrange(start as int, end as int);
        let eq = find_char(v, start, end, '=');
        let vstart = if eq < end {
            eq + 1
        } else {
            end
        };
        proof {
            assert(seg.take(eq - start) =~= v@.subrange(start as int, eq as int));
            if eq < end {
                assert(seg.skip(eq - start + 1) =~= v@.subrange(vstart as int, end as int));
            } else {
                assert(v@.subrange(vstart as int, end as int) =~= Seq::<char>::empty());
            }
        }
        let mut p = self;
        if range_equals(v, start, eq, &word_page()) {
            p.page = match parse_u32_range(v, vstart, end) {
                Some(n) => n,
                None => 0,
            };
        } else if range_equals(v, start, eq, &word_amount()) {
            p.amount = match parse_u32_range(v, vstart, end) {
                Some(n) => n,
                None => DEFAULT_AMOUNT,
            };
        } else if range_equals(v, start, eq, &word_tag()) {
            p.tag = percent_decode_range(v, vstart, end);
        } else if range_equals(v, start, eq, &word_my_feed()) {
            p.my_feed = range_equals(v, vstart, end, &word_true());
        }
        p
    }

    /// Reads page parameters from a query string, with or without its
    /// leading `?`. Never fails: missing or unreadable values take their
    /// defaults (page 0, amount 10, no tag, not my feed).
    pub fn decode(query: &str) -> (r: Pagination)
        ensures
            r@ == decode_query(query@),
    {
        let v = chars_of(query);
        let mut start: usize = if v.len() > 0 && v[0] == '?' {
            1
        } else {
            0
        };
        let ghost body = query_body(query@);
        assert(body =~= v@.subrange(start as int, v@.len() as int));
        let mut p = Pagination::default();
        loop
            invariant
                start <= v@.len(),
                apply_pairs(p@, v@.subrange(start as int, v@.len() as int)) == decode_query(
                    query@,
                ),
            decreases v@.len() - start,
        {
            let ghost rest = v@.subrange(start as int, v@.len() as int);
            let amp = find_char(&v, start, v.len(), '&');
            if amp == v.len() {
                proof {
                    assert(rest =~= v@.subrange(start as int, amp as int));
                }
                return p.apply_segment(&v, start, amp);
            }
            proof {
                assert(rest.take(amp - start) =~= v@.subrange(start as int, amp as int));
                assert(rest.skip(amp - start + 1) =~= v@.subrange(amp + 1, v@.len() as int));
            }
            p = p.apply_segment(&v, start, amp);
            start = amp + 1;
        }
    }

    /// The canonical query string of these parameters, with its leading `?`:
    /// `page` unless it is 0, `amount` always, `tag` percent-encoded unless
    /// it is empty, and `my_feed=true` only when it is set.
    pub fn encode(&self) -> (r: String)
        ensures
            r@ == encode_query(self@),
    {
        let mut out = String::new();
        out.push('?');
        if self.page != 0 {
            push_pair_start(&mut out, &word_page());
            push_decimal(&mut out, self.page);
            out.push('&');
        }
        push_pair_start(&mut out, &word_amount());
        push_decimal(&mut out, self.amount);
        if !self.tag.as_str().is_empty() {
            out.push('&');
            push_pair_start(&mut out, &word_tag());
            push_percent_encoded(&mut out, self.tag.as_str());
        }
        if self.my_feed {
            out.push('&');
            push_pair_start(&mut out, &word_my_feed());
            push_word(&mut out, &word_true());
        }
        assert(out@ =~= encode_query(self@));
        out
    }

    /// The same parameters on another page. No upper bound is checked: the
    /// number of pages is not known here.
    pub fn with_page(self, page: u32) -> (r: Pagination)
        ensures
            r@ == (PageModel { page, ..self@ }),
    {
        Pagination { page, ..self }
    }

    /// The following page.
    pub fn next_page(self) -> (r: Pagination)
        requires
            self.page < u32::MAX,
        ensures
            r@ == next_of(self@),
    {
        let page = self.page + 1;
        self.with_page(page)
    }

    /// The preceding page; on the first page, the parameters unchanged.
    pub fn previous_page(self) -> (r: Pagination)
        ensures
            r@ == previous_of(self@),
    {
        if self.page > 0 {
            let page = self.page - 1;
            self.with_page(page)
        } else {
            self
        }
    }

    /// Back to the first page, as after a change of tag, feed or page size.
    pub fn reset_page(self) -> (r: Pagination)
        ensures
            r@ == (PageModel { page: 0, ..self@ }),
    {
        self.with_page(0)
    }

    /// The same parameters with another tag filter; an empty tag means
    /// none.
    pub fn set_tag(self, tag: String) -> (r: Pagination)
        ensures
            r@ == (PageModel { tag: tag@, ..self@ }),
    {
        Pagination { tag, ..self }
    }

    /// The same parameters with the followed-authors feed on or off.
    pub fn set_my_feed(self, my_feed: bool) -> (r: Pagination)
        ensures
            r@ == (PageModel { my_feed, ..self@ }),
    {
        Pagination { my_feed, ..self }
    }

    /// Whether a query string holds the `favourites` key, with any value or
    /// none: its presence alone selects a profile's favorited articles.
    pub fn favourites_requested(query: &str) -> (r: bool)
        ensures
            r == has_favourites_flag(query@),
    {
        let v = chars_of(query);
        let mut start: usize = if v.len() > 0 && v[0] == '?' {
            1
        } else {
            0
        };
        assert(query_body(query@) =~= v@.subrange(start as int, v@.len() as int));
        let word = word_favourites();
        loop
            invariant
                start <= v@.len(),
                word@ == favourites_key(),
                flag_in(v@.subrange(start as int, v@.len() as int)) == has_favourites_flag(query@),
            decreases v@.len() - start,
        {
            let ghost rest = v@.subrange(start as int, v@.len() as int);
            let amp = find_char(&v, start, v.len(), '&');
            let eq = find_char(&v, start, amp, '=');
            let ghost seg = v@.subrange(start as int, amp as int);
            proof {
                assert(seg.take(eq - start) =~= v@.subrange(start as int, eq as int));
                if amp == v.len() {
                    assert(rest =~= seg);
                } else {
                    assert(rest.take(amp - start) =~= seg);
                    assert(rest.skip(amp - start + 1) =~= v@.subrange(amp + 1, v@.len() as int));
                }
            }
            if range_equals(&v, start, eq, &word) {
                return true;
            }
            if amp == v.len() {
                return false;
            }
            start = amp + 1;
        }
    }

    /// The same parameters with another page size.
    pub fn set_amount(self, amount: u32) -> (r: Pagination)
        ensures
            r@ == (PageModel { amount, ..self@ }),
    {
        Pagination { amount, ..self }
    }
}

impl Default for Pagination {
    fn default() -> (r: Pagination)
        ensures
            r@ == default_model(),
    {
        let r = Pagination { page: 0, amount: DEFAULT_AMOUNT, tag: String::new(), my_feed: false };
        assert(r@.tag =~= Seq::<char>::empty());
        r
    }
}

impl PartialEq for Pagination {
    fn eq(&self, other: &Pagination) -> (r: bool) {
        self.page == other.page && self.amount == other.amount && self.tag == other.tag
            && self.my_feed == other.my_feed
    }
}

impl vstd::std_specs::cmp::PartialEqSpecImpl for Pagination {
    open spec fn obeys_eq_spec() -> bool {
        true
    }

    open spec fn eq_spec(&self, other: &Pagination) -> bool {
        self@ == other@
    }
}

impl Eq for Pagination {

}

} // verus!
