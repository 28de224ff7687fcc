//! Search in the index of headphone corrections.

use vstd::prelude::*;
use crate::text::{contains_text, same_text, split_words, starts_with, text_precedes, trim};

verus! {

/// A model of headphones and where its correction curve is.
#[derive(Debug, PartialEq, Eq)]
pub struct AutoEqEntry {
    pub name: String,
    /// Who measured it.
    pub source: String,
    pub url: String,
}

/// The content of an [`AutoEqEntry`].
pub struct AutoEqEntryView {
    pub name: Seq<char>,
    pub source: Seq<char>,
    pub url: Seq<char>,
}

impl View for AutoEqEntry {
    type V = AutoEqEntryView;

    open spec fn view(&self) -> AutoEqEntryView {
        AutoEqEntryView { name: self.name@, source: self.source@, url: self.url@ }
    }
}

impl Clone for AutoEqEntry {
    fn clone(&self) -> (r: AutoEqEntry)
        ensures
            r@ == self@,
    {
        AutoEqEntry {
            name: self.name.clone(),
            source: self.source.clone(),
            url: self.url.clone(),
        }
    }
}

/// The contents of entries.
pub open spec fn entry_views(s: Seq<AutoEqEntry>) -> Seq<AutoEqEntryView> {
    s.map_values(|e: AutoEqEntry| e@)
}

/// How many entries there are.
pub fn len(index: &[AutoEqEntry]) -> (r: usize)
    ensures
        r == index@.len(),
{
    index.len()
}

/// Whether there are no entries.
pub fn is_empty(index: &[AutoEqEntry]) -> (r: bool)
    ensures
        r == (index@.len() == 0),
{
    index.len() == 0
}

/// Every term stands in the name.
pub open spec fn has_all(name: Seq<char>, terms: Seq<Seq<char>>) -> bool {
    forall|i: int| 0 <= i < terms.len() ==> crate::text::contains(name, #[trigger] terms[i])
}

/// Some word of the name starts with the term.
pub open spec fn word_starts(name: Seq<char>, term: Seq<char>) -> bool {
    exists|i: int|
        0 <= i < crate::text::words(name).len() && crate::text::starts(
            #[trigger] crate::text::words(name)[i],
            term,
        )
}

/// The first word of a query.
pub open spec fn first_term(q: Seq<char>) -> Seq<char> {
    if crate::text::words(q).len() == 0 {
        Seq::empty()
    } else {
        crate::text::words(q)[0]
    }
}

/// How well a name fits a query: the same name, one that starts with the query, one with a word
/// that starts with the query's first term, any other.
pub open spec fn rank(name: Seq<char>, q: Seq<char>) -> int {
    if name == q {
        0
    } else if crate::text::starts(name, q) {
        1
    } else if word_starts(name, first_term(q)) {
        2
    } else {
        3
    }
}

/// The rank of an entry.
pub open spec fn entry_rank(e: AutoEqEntryView, q: Seq<char>) -> int {
    rank(crate::text::lowercase(e.name), q)
}

/// The length of a text in bytes.
pub open spec fn byte_len(s: Seq<char>) -> nat {
    vstd::utf8::encode_utf8(s).len()
}

/// One entry comes before another: by rank, then by the length of its name, then by its name.
pub open spec fn before(a: AutoEqEntryView, b: AutoEqEntryView, q: Seq<char>) -> bool {
    if entry_rank(a, q) != entry_rank(b, q) {
        entry_rank(a, q) < entry_rank(b, q)
    } else if byte_len(a.name) != byte_len(b.name) {
        byte_len(a.name) < byte_len(b.name)
    } else {
        crate::text::text_less(a.name, b.name)
    }
}

/// An entry that a query finds.
pub open spec fn hit(e: AutoEqEntryView, q: Seq<char>) -> bool {
    has_all(crate::text::lowercase(e.name), crate::text::words(q))
}

/// A list with an entry put behind every one that it does not come before.
pub open spec fn inserted(s: Seq<AutoEqEntryView>, e: AutoEqEntryView, q: Seq<char>) -> Seq<
    AutoEqEntryView,
>
    decreases s.len(),
{
    if s.len() == 0 || !before(e, s.last(), q) {
        s.push(e)
    } else {
        inserted(s.drop_last(), e, q).push(s.last())
    }
}

/// The entries that a query finds, best first; of two that are equally good the earlier one.
pub open spec fn ranked(index: Seq<AutoEqEntryView>, q: Seq<char>) -> Seq<AutoEqEntryView>
    decreases index.len(),
{
    if index.len() == 0 {
        Seq::empty()
    } else {
        let rest = ranked(index.drop_last(), q);
        if hit(index.last(), q) {
            inserted(rest, index.last(), q)
        } else {
            rest
        }
    }
}

/// What a search finds: nothing for a blank query, and no more than `limit`.
pub open spec fn found(index: Seq<AutoEqEntryView>, query: Seq<char>, limit: nat) -> Seq<
    AutoEqEntryView,
> {
    let q = crate::text::lowercase(crate::text::trimmed(query));
    if q.len() == 0 {
        Seq::empty()
    } else {
        let all = ranked(index, q);
        all.subrange(
            0,
            if all.len() < limit {
                all.len() as int
            } else {
                limit as int
            },
        )
    }
}

/// An entry with its rank.
struct Hit {
    rank: u8,
    len: usize,
    entry: AutoEqEntry,
}

spec fn hit_views(s: Seq<Hit>) -> Seq<AutoEqEntryView> {
    s.map_values(|h: Hit| h.entry@)
}

impl Hit {
    spec fn fits(self, q: Seq<char>) -> bool {
        self.rank == entry_rank(self.entry@, q) && self.len == byte_len(self.entry@.name)
    }
}

fn comes_before(a: &Hit, b: &Hit, Ghost(q): Ghost<Seq<char>>) -> (r: bool)
    requires
        a.fits(q),
        b.fits(q),
    ensures
        r == before(a.entry@, b.entry@, q),
{
    if a.rank != b.rank {
        a.rank < b.rank
    } else if a.len != b.len {
        a.len < b.len
    } else {
        text_precedes(a.entry.name.as_str(), b.entry.name.as_str())
    }
}

fn contains_all(name: &str, terms: &Vec<String>) -> (r: bool)
    ensures
        r == has_all(name@, crate::text::texts(terms@)),
{
    let ghost all = crate::text::texts(terms@);
    let mut i: usize = 0;
    while i < terms.len()
        invariant
            i <= terms@.len(),
            all == crate::text::texts(terms@),
            forall|k: int| 0 <= k < i ==> crate::text::contains(name@, #[trigger] all[k]),
        decreases terms@.len() - i,
    {
        assert(all[i as int] == terms@[i as int]@);
        if !contains_text(name, terms[i].as_str()) {
            return false;
        }
        i += 1;
    }
    true
}

fn has_word_start(name: &str, term: &str) -> (r: bool)
    ensures
        r == word_starts(name@, term@),
{
    let words = split_words(name);
    let ghost all = crate::text::texts(words@);
    let mut i: usize = 0;
    while i < words.len()
        invariant
            i <= words@.len(),
            all == crate::text::texts(words@),
            all == crate::text::words(name@),
            forall|k: int| 0 <= k < i ==> !crate::text::starts(#[trigger] all[k], term@),
        decreases words@.len() - i,
    {
        assert(all[i as int] == words@[i as int]@);
        if starts_with(words[i].as_str(), term) {
            return true;
        }
        i += 1;
    }
    false
}

fn rank_of(name: &str, q: &str, first: &str) -> (r: u8)
    requires
        first@ == first_term(q@),
    ensures
        r == rank(name@, q@),
{
    if same_text(name, q) {
        0
    } else if starts_with(name, q) {
        1
    } else if has_word_start(name, first) {
        2
    } else {
        3
    }
}

proof fn lemma_inserted_at(s: Seq<AutoEqEntryView>, e: AutoEqEntryView, q: Seq<char>, p: int)
    requires
        0 <= p <= s.len(),
        p == 0 || !before(e, s[p - 1], q),
        forall|i: int| p <= i < s.len() ==> before(e, #[trigger] s[i], q),
    ensures
        inserted(s, e, q) == s.insert(p, e),
    decreases s.len(),
{
    if p == s.len() {
        assert(s.insert(p, e) =~= s.push(e));
    } else {
        assert(before(e, s[s.len() - 1], q));
        lemma_inserted_at(s.drop_last(), e, q, p);
        assert(s.drop_last().insert(p, e).push(s.last()) =~= s.insert(p, e));
    }
}

/// Searches the index: every word of the query must stand in the name, whatever its case. An
/// exact match comes first, then names that start with the query, then names with a word that
/// starts with the query's first word; shorter names come before longer ones.
pub fn search(index: &[AutoEqEntry], query: &str, limit: usize) -> (r: Vec<AutoEqEntry>)
    ensures
        entry_views(r@) == found(entry_views(index@), query@, limit as nat),
{
    let q = trim(query).as_str().to_lowercase();
    let ghost views = entry_views(index@);
    let mut out: Vec<AutoEqEntry> = Vec::new();
    if q.as_str().is_empty() || limit == 0 {
        assert(entry_views(out@) =~= found(views, query@, limit as nat));
        return out;
    }
    let terms = split_words(q.as_str());
    let first = if terms.len() == 0 {
        String::new()
    } else {
        terms[0].clone()
    };
    proof {
        if terms@.len() > 0 {
            assert(crate::text::texts(terms@)[0] == terms@[0]@);
        }
        assert(crate::text::texts(terms@).len() == terms@.len());
        assert(first@ =~= first_term(q@));
    }
    let mut hits: Vec<Hit> = Vec::new();
    let mut i: usize = 0;
    assert(views.take(0) =~= Seq::empty());
    assert(hit_views(hits@) =~= Seq::empty());
    while i < index.len()
        invariant
            i <= index@.len(),
            views == entry_views(index@),
            crate::text::texts(terms@) == crate::text::words(q@),
            first@ == first_term(q@),
            forall|k: int| 0 <= k < hits@.len() ==> (#[trigger] hits@[k]).fits(q@),
            hit_views(hits@) == ranked(views.take(i as int), q@),
        decreases index@.len() - i,
    {
        let e = &index[i];
        let name = e.name.as_str().to_lowercase();
        assert(views.take(i + 1).drop_last() =~= views.take(i as int));
        assert(views.take(i + 1).last() == e@);
        if contains_all(name.as_str(), &terms) {
            let fresh = Hit {
                rank: rank_of(name.as_str(), q.as_str(), first.as_str()),
                len: e.name.as_str().as_bytes().len(),
                entry: e.clone(),
            };
            assert(fresh.fits(q@));
            let mut p: usize = hits.len();
            while p > 0 && comes_before(&fresh, &hits[p - 1], Ghost(q@))
                invariant
                    p <= hits@.len(),
                    fresh.fits(q@),
                    forall|k: int| 0 <= k < hits@.len() ==> (#[trigger] hits@[k]).fits(q@),
                    forall|k: int|
                        p <= k < hits@.len() ==> before(
                            fresh.entry@,
                            #[trigger] hit_views(hits@)[k],
                            q@,
                        ),
                decreases p,
            {
                p -= 1;
            }
            let ghost before_hits = hits@;
            proof {
                lemma_inserted_at(hit_views(hits@), fresh.entry@, q@, p as int);
            }
            hits.insert(p, fresh);
            proof {
                assert(hit_views(hits@) =~= hit_views(before_hits).insert(p as int, fresh.entry@));
                assert forall|k: int| 0 <= k < hits@.len() implies (#[trigger] hits@[k]).fits(q@) by {
                    if k < p {
                        assert(hits@[k] == before_hits[k]);
                    } else if k > p {
                        assert(hits@[k] == before_hits[k - 1]);
                    }
                }
            }
        }
        i += 1;
    }
    assert(views.take(i as int) =~= views);
    let mut k: usize = 0;
    while k < hits.len() && k < limit
        invariant
            k <= hits@.len(),
            k <= limit,
            entry_views(out@) == hit_views(hits@).subrange(0, k as int),
        decreases hits@.len() - k,
    {
        let ghost done = out@;
        let copy = hits[k].entry.clone();
        out.push(copy);
        assert(entry_views(out@) =~= entry_views(done).push(hit_views(hits@)[k as int]));
        k += 1;
        assert(entry_views(out@) =~= hit_views(hits@).subrange(0, k as int));
    }
    assert(hit_views(hits@).len() == hits@.len());
    out
}

/// What a search finds is in order and fits the query, and it is no more than the limit.
pub proof fn law_search_is_ranked(index: Seq<AutoEqEntryView>, query: Seq<char>, limit: nat)
    ensures
        found(index, query, limit).len() <= limit,
        forall|i: int|
            0 <= i < found(index, query, limit).len() ==> hit(
                #[trigger] found(index, query, limit)[i],
                crate::text::lowercase(crate::text::trimmed(query)),
            ) && index.contains(found(index, query, limit)[i]),
        forall|i: int, j: int|
            0 <= i < j < found(index, query, limit).len() ==> !before(
                #[trigger] found(index, query, limit)[j],
                #[trigger] found(index, query, limit)[i],
                crate::text::lowercase(crate::text::trimmed(query)),
            ),
{
    let q = crate::text::lowercase(crate::text::trimmed(query));
    if q.len() > 0 {
        lemma_ranked(index, q);
        let all = ranked(index, q);
        let r = found(index, query, limit);
        assert forall|i: int, j: int| 0 <= i < j < r.len() implies !before(
            #[trigger] r[j],
            #[trigger] r[i],
            q,
        ) by {
            assert(r[i] == all[i] && r[j] == all[j]);
        }
        assert forall|i: int| 0 <= i < r.len() implies hit(#[trigger] r[i], q) && index.contains(
            r[i],
        ) by {
            assert(r[i] == all[i]);
        }
    }
}

proof fn lemma_before_order(a: AutoEqEntryView, b: AutoEqEntryView, c: AutoEqEntryView, q: Seq<char>)
    ensures
        !(before(a, b, q) && before(b, a, q)),
        before(a, b, q) && !before(c, b, q) ==> !before(c, a, q),
        !before(b, a, q) && !before(c, b, q) ==> !before(c, a, q),
{
    crate::text::lemma_text_less_total(a.name, b.name);
    crate::text::lemma_text_less_trans(a.name, b.name, c.name);
    crate::text::lemma_text_less_total(b.name, c.name);
    crate::text::lemma_text_less_total(a.name, c.name);
}

proof fn lemma_ranked(index: Seq<AutoEqEntryView>, q: Seq<char>)
    ensures
        forall|i: int|
            0 <= i < ranked(index, q).len() ==> hit(#[trigger] ranked(index, q)[i], q)
                && index.contains(ranked(index, q)[i]),
        forall|i: int, j: int|
            0 <= i < j < ranked(index, q).len() ==> !before(
                #[trigger] ranked(index, q)[j],
                #[trigger] ranked(index, q)[i],
                q,
            ),
    decreases index.len(),
{
    if index.len() > 0 {
        let head = index.drop_last();
        let e = index.last();
        let rest = ranked(head, q);
        let all = ranked(index, q);
        lemma_ranked(head, q);
        assert forall|i: int| 0 <= i < rest.len() implies index.contains(#[trigger] rest[i]) by {
            let k = choose|k: int| 0 <= k < head.len() && head[k] == rest[i];
            assert(index[k] == rest[i]);
        }
        assert(index[index.len() - 1] == e);
        if hit(e, q) {
            lemma_inserted_sorted(rest, e, q);
            let p = choose|p: int| 0 <= p <= rest.len() && inserted(rest, e, q) == rest.insert(p, e);
            assert forall|i: int| 0 <= i < all.len() implies hit(#[trigger] all[i], q)
                && index.contains(all[i]) by {
                if i < p {
                    assert(all[i] == rest[i]);
                } else if i > p {
                    assert(all[i] == rest[i - 1]);
                }
            }
        }
    }
}

proof fn lemma_inserted_sorted(s: Seq<AutoEqEntryView>, e: AutoEqEntryView, q: Seq<char>)
    requires
        forall|i: int, j: int|
            0 <= i < j < s.len() ==> !before(#[trigger] s[j], #[trigger] s[i], q),
    ensures
        exists|p: int| 0 <= p <= s.len() && inserted(s, e, q) == s.insert(p, e),
        forall|i: int, j: int|
            0 <= i < j < inserted(s, e, q).len() ==> !before(
                #[trigger] inserted(s, e, q)[j],
                #[trigger] inserted(s, e, q)[i],
                q,
            ),
{
    let p = place(s, e, q, s.len() as int);
    lemma_place(s, e, q, s.len() as int);
    lemma_inserted_at(s, e, q, p);
    let t = s.insert(p, e);
    assert forall|i: int, j: int| 0 <= i < j < t.len() implies !before(
        #[trigger] t[j],
        #[trigger] t[i],
        q,
    ) by {
        if j == p {
            assert(t[i] == s[i]);
            if i < p - 1 {
                lemma_before_order(s[i], s[p - 1], e, q);
                assert(!before(s[p - 1], s[i], q));
            }
        } else if i == p {
            assert(t[j] == s[j - 1]);
            assert(before(e, s[j - 1], q));
            lemma_before_order(e, s[j - 1], e, q);
        } else {
            let a = if i < p {
                i
            } else {
                i - 1
            };
            let b = if j < p {
                j
            } else {
                j - 1
            };
            assert(t[i] == s[a] && t[j] == s[b]);
        }
    }
}

spec fn place(s: Seq<AutoEqEntryView>, e: AutoEqEntryView, q: Seq<char>, n: int) -> int
    decreases n,
{
    if n <= 0 || n > s.len() || !before(e, s[n - 1], q) {
        n
    } else {
        place(s, e, q, n - 1)
    }
}

proof fn lemma_place(s: Seq<AutoEqEntryView>, e: AutoEqEntryView, q: Seq<char>, n: int)
    requires
        0 <= n <= s.len(),
        forall|i: int| n <= i < s.len() ==> before(e, #[trigger] s[i], q),
    ensures
        0 <= place(s, e, q, n) <= s.len(),
        place(s, e, q, n) == 0 || !before(e, s[place(s, e, q, n) - 1], q),
        forall|i: int| place(s, e, q, n) <= i < s.len() ==> before(e, #[trigger] s[i], q),
    decreases n,
{
    if n > 0 && before(e, s[n - 1], q) {
        lemma_place(s, e, q, n - 1);
    }
}

proof fn lemma_all_hits(index: Seq<AutoEqEntryView>, q: Seq<char>, i: int)
    requires
        0 <= i < index.len(),
    ensures
        hit(index[i], q) ==> ranked(index, q).contains(index[i]),
        ranked(index, q).len() <= index.len(),
    decreases index.len(),
{
    reveal_with_fuel(ranked, 2);
    let head = index.drop_last();
    let e = index.last();
    let rest = ranked(head, q);
    let all = ranked(index, q);
    if head.len() > 0 {
        let k = if i < head.len() {
            i
        } else {
            0
        };
        lemma_all_hits(head, q, k);
    }
    lemma_ranked(head, q);
    if hit(e, q) {
        lemma_inserted_sorted(rest, e, q);
        let p = choose|p: int| 0 <= p <= rest.len() && inserted(rest, e, q) == rest.insert(p, e);
        assert(all == rest.insert(p, e));
        assert(all[p] == e);
        if i < head.len() && hit(index[i], q) {
            let j = choose|j: int| 0 <= j < rest.len() && rest[j] == index[i];
            assert(all[if j < p {
                j
            } else {
                j + 1
            }] == index[i]);
        }
    }
}

/// A word stands somewhere in a text.
pub open spec fn stands_in(text: Seq<char>, word: Seq<char>) -> bool {
    exists|at: int| #[trigger] crate::text::stands_at(text, word, at)
}

/// Every word of the query stands somewhere in the name, whatever the case of either.
pub open spec fn named_by(name: Seq<char>, query: Seq<char>) -> bool {
    let q = crate::text::words(crate::text::lowercase(crate::text::trimmed(query)));
    forall|i: int| 0 <= i < q.len() ==> stands_in(crate::text::lowercase(name), #[trigger] q[i])
}

/// A search finds every headphone whose name has all words of the query in it, where the limit allows
/// it, and no other; a query of white space finds none.
pub proof fn law_every_headphone_of_a_name_is_found(
    index: Seq<AutoEqEntryView>,
    query: Seq<char>,
    limit: nat,
    i: int,
)
    requires
        0 <= i < index.len() <= limit,
    ensures
        crate::text::lowercase(crate::text::trimmed(query)).len() > 0 ==> (found(
            index,
            query,
            limit,
        ).contains(index[i]) <==> named_by(index[i].name, query)),
        crate::text::lowercase(crate::text::trimmed(query)).len() == 0 ==> found(
            index,
            query,
            limit,
        ).len() == 0,
{
    let q = crate::text::lowercase(crate::text::trimmed(query));
    let terms = crate::text::words(q);
    let name = crate::text::lowercase(index[i].name);
    lemma_all_hits(index, q, i);
    lemma_ranked(index, q);
    let all = ranked(index, q);
    assert(all.subrange(0, all.len() as int) =~= all);
    assert forall|k: int| 0 <= k < terms.len() implies (crate::text::contains(
        name,
        #[trigger] terms[k],
    ) <==> stands_in(name, terms[k])) by {
        crate::text::lemma_find(name, terms[k], 0);
    }
    if q.len() > 0 {
        assert(found(index, query, limit) == all);
        if all.contains(index[i]) {
            let j = choose|j: int| 0 <= j < all.len() && all[j] == index[i];
            assert(hit(all[j], q));
        }
    }
    if hit(index[i], q) {
        assert forall|k: int| 0 <= k < terms.len() implies stands_in(name, #[trigger] terms[k]) by {
            assert(crate::text::contains(name, terms[k]));
        }
    }
    if named_by(index[i].name, query) {
        assert forall|k: int| 0 <= k < terms.len() implies crate::text::contains(
            name,
            #[trigger] terms[k],
        ) by {
            assert(stands_in(name, terms[k]));
        }
        assert(hit(index[i], q));
    }
}

/// Of what a search finds, a headphone of exactly the name that was asked for comes in front of all
/// others, one whose name starts with it in front of those whose name does not, and of two that fit
/// equally well the one with the shorter name.
pub proof fn law_better_matches_come_first(
    index: Seq<AutoEqEntryView>,
    query: Seq<char>,
    limit: nat,
    i: int,
    j: int,
)
    requires
        0 <= i < j < found(index, query, limit).len(),
    ensures
        ({
            let q = crate::text::lowercase(crate::text::trimmed(query));
            let a = found(index, query, limit)[i].name;
            let b = found(index, query, limit)[j].name;
            let (x, y) = (crate::text::lowercase(a), crate::text::lowercase(b));
            &&& y == q ==> x == q
            &&& crate::text::starts(y, q) ==> crate::text::starts(x, q) || x == q
            &&& x == q && y == q || x != q && y != q && crate::text::starts(x, q)
                && crate::text::starts(y, q) ==> byte_len(a) <= byte_len(b)
        }),
{
    law_search_is_ranked(index, query, limit);
    let f = found(index, query, limit);
    assert(!before(f[j], f[i], crate::text::lowercase(crate::text::trimmed(query))));
}

/// A search that may find fewer headphones finds the first ones of a search that may find more.
pub proof fn law_a_smaller_limit_gives_the_first_ones(
    index: Seq<AutoEqEntryView>,
    query: Seq<char>,
    small: nat,
    large: nat,
)
    requires
        small <= large,
    ensures
        found(index, query, small).is_prefix_of(found(index, query, large)),
        found(index, query, small).len() == (if found(index, query, large).len() < small {
            found(index, query, large).len()
        } else {
            small
        }),
{
    let few = found(index, query, small);
    let many = found(index, query, large);
    assert(few =~= many.subrange(0, few.len() as int));
}

/// The case of ASCII letters and the white space around a query do not matter to a search.
pub proof fn law_case_and_white_space_do_not_matter(
    index: Seq<AutoEqEntryView>,
    query: Seq<char>,
    front: Seq<char>,
    back: Seq<char>,
    limit: nat,
)
    requires
        forall|i: int| 0 <= i < front.len() ==> crate::text::white(#[trigger] front[i]),
        forall|i: int| 0 <= i < back.len() ==> crate::text::white(#[trigger] back[i]),
    ensures
        found(index, front + query + back, limit) == found(index, query, limit),
        crate::text::ascii(query) ==> found(index, crate::text::ascii_lowercase(query), limit)
            == found(index, query, limit),
{
    crate::text::lemma_trimmed_padded(front, query, back);
    if crate::text::ascii(query) {
        crate::text::lemma_trimmed_lowercase(query);
        let t = crate::text::trimmed(query);
        let low = crate::text::ascii_lowercase(t);
        assert(crate::text::ascii(low)) by {
            assert forall|i: int| 0 <= i < low.len() implies (#[trigger] low[i]) as u32 <= 127 by {
                assert(t[i] as u32 <= 127);
            }
        }
        assert(crate::text::ascii_lowercase(low) =~= low);
    }
}

} // verus!
