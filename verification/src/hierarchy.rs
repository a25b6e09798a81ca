use crate::metadata::{CategoryMetadata, EntryMetadata};
use crate::text::{
    append_chars, chars_to_string, last_segment, lemma_lex_lt_irrefl, lex_lt, lex_lt_exec,
    str_to_chars,
};
use vstd::prelude::*;
use vstd::string::*;

verus! {

broadcast use vstd::seq_lib::group_to_multiset_ensures;

/// A link of the outline: a display title, a target path, and the
/// hierarchical section number assigned after sorting.
#[derive(Debug)]
pub struct HierLink {
    pub title: String,
    pub path: String,
    pub number: Option<Vec<u32>>,
}

/// The model of a link.
pub struct LinkV {
    pub title: Seq<char>,
    pub path: Seq<char>,
    pub number: Option<Seq<u32>>,
}

impl View for HierLink {
    type V = LinkV;

    open spec fn view(&self) -> LinkV {
        LinkV {
            title: self.title@,
            path: self.path@,
            number: match self.number {
                Some(v) => Some(v@),
                None => None,
            },
        }
    }
}

/// One category of the outline: its id (from its source filename), its
/// title, its own landing page, its effective ordinal, and its member
/// (link, ordinal) pairs.
#[derive(Debug)]
pub struct BookCategoryEntry {
    pub id: String,
    pub title: String,
    pub link_path: String,
    pub ordinal: u32,
    pub links: Vec<(HierLink, u32)>,
}

pub open spec fn pair_view(p: (HierLink, u32)) -> (LinkV, u32) {
    (p.0@, p.1)
}

pub open spec fn pairs_view(s: Seq<(HierLink, u32)>) -> Seq<(LinkV, u32)> {
    s.map_values(|p: (HierLink, u32)| pair_view(p))
}

/// The aggregated corpus: categories in discovery order, and the
/// uncategorized (link, ordinal) list.
pub struct BookHierarchy {
    pub categorized: Vec<BookCategoryEntry>,
    pub uncategorized: Vec<(HierLink, u32)>,
}

/// The effective sort key of an optional ordinal: absence sorts last.
pub open spec fn eff_ord(o: Option<u32>) -> u32 {
    match o {
        Some(x) => x,
        None => u32::MAX,
    }
}

fn eff_ord_exec(o: &Option<u32>) -> (r: u32)
    ensures
        r == eff_ord(*o),
{
    match o {
        Some(x) => *x,
        None => u32::MAX,
    }
}

impl BookHierarchy {
    /// Category ids are unique.
    pub open spec fn wf(&self) -> bool {
        forall|i: int, j: int|
            0 <= i < j < self.categorized@.len() ==> (self.categorized@[i].id)@ != (
            self.categorized@[j].id)@
    }

    pub open spec fn has_category(&self, cid: Seq<char>) -> bool {
        exists|i: int| 0 <= i < self.categorized@.len() && (self.categorized@[i].id)@ == cid
    }

    pub open spec fn category_index(&self, cid: Seq<char>) -> int {
        choose|i: int| 0 <= i < self.categorized@.len() && (self.categorized@[i].id)@ == cid
    }

    pub fn new() -> (r: BookHierarchy)
        ensures
            r.wf(),
            r.categorized@.len() == 0,
            r.uncategorized@.len() == 0,
    {
        BookHierarchy { categorized: Vec::new(), uncategorized: Vec::new() }
    }

    /// Whether a category with this id has been recorded.
    pub fn has_category_id(&self, id: &str) -> (b: bool)
        ensures
            b == self.has_category(id@),
    {
        let key = String::from_str(id);
        let n = self.categorized.len();
        let mut i: usize = 0;
        while i < n
            invariant
                i <= n,
                n == self.categorized@.len(),
                key@ == id@,
                forall|k: int| 0 <= k < i ==> (self.categorized@[k].id)@ != id@,
            decreases n - i,
        {
            if self.categorized[i].id.eq(&key) {
                proof {
                    assert((self.categorized@[i as int].id)@ == id@);
                }
                return true;
            }
            i = i + 1;
        }
        false
    }

    /// Records one category document, keyed by its id; its member list
    /// starts empty and its link carries the metadata title.
    pub fn add_category(&mut self, id: String, link_path: String, meta: CategoryMetadata)
        requires
            old(self).wf(),
            !old(self).has_category(id@),
        ensures
            final(self).wf(),
            final(self).uncategorized == old(self).uncategorized,
            final(self).categorized@.len() == old(self).categorized@.len() + 1,
            final(self).categorized@.drop_last() == old(self).categorized@,
            ({
                let c = final(self).categorized@.last();
                &&& c.id@ == id@
                &&& c.title@ == meta.title@
                &&& c.link_path@ == link_path@
                &&& c.ordinal == eff_ord(meta.ordinal)
                &&& c.links@.len() == 0
            }),
    {
        let ghost oldent = self.categorized@;
        let ordinal = eff_ord_exec(&meta.ordinal);
        let entry = BookCategoryEntry {
            id,
            title: meta.title,
            link_path,
            ordinal,
            links: Vec::new(),
        };
        self.categorized.push(entry);
        proof {
            let n = oldent.len() as int;
            assert(self.categorized@.drop_last() =~= oldent);
            assert forall|i: int, j: int|
                0 <= i < j < self.categorized@.len() implies (self.categorized@[i].id)@ != (
            self.categorized@[j].id)@ by {
                if j < n {
                } else {
                    if (oldent[i].id)@ == (self.categorized@[j].id)@ {
                        assert(old(self).has_category((self.categorized@[j].id)@));
                    }
                }
            }
        }
    }

    /// Classifies one entry document. An entry naming a category is appended
    /// to that category's member list, with the trailing segment of the
    /// category reference (after the namespace separator) as the category
    /// id; an entry naming no category joins the uncategorized list. The
    /// returned flag is false exactly when the named category is unknown, in
    /// which case the entry is recorded nowhere.
    #[verifier::loop_isolation(false)]
    pub fn add_entry(&mut self, link_path: String, meta: EntryMetadata) -> (placed: bool)
        requires
            old(self).wf(),
        ensures
            final(self).wf(),
            ({
                let link = LinkV { title: meta.title@, path: link_path@, number: None };
                let ord = eff_ord(meta.ordinal);
                match meta.category {
                    None => {
                        &&& placed
                        &&& final(self).categorized == old(self).categorized
                        &&& pairs_view(final(self).uncategorized@) == pairs_view(
                            old(self).uncategorized@,
                        ).push((link, ord))
                    },
                    Some(c) => {
                        let cid = last_segment(c@, ':');
                        &&& placed == old(self).has_category(cid)
                        &&& final(self).uncategorized == old(self).uncategorized
                        &&& (!placed ==> final(self).categorized == old(self).categorized)
                        &&& (placed ==> {
                            let ci = old(self).category_index(cid);
                            &&& final(self).categorized@.len() == old(self).categorized@.len()
                            &&& forall|k: int|
                                0 <= k < old(self).categorized@.len() && k != ci
                                    ==> final(self).categorized@[k] == old(self).categorized@[k]
                            &&& final(self).categorized@[ci].id == old(self).categorized@[ci].id
                            &&& final(self).categorized@[ci].title
                                == old(self).categorized@[ci].title
                            &&& final(self).categorized@[ci].link_path
                                == old(self).categorized@[ci].link_path
                            &&& final(self).categorized@[ci].ordinal
                                == old(self).categorized@[ci].ordinal
                            &&& pairs_view(final(self).categorized@[ci].links@) == pairs_view(
                                old(self).categorized@[ci].links@,
                            ).push((link, ord))
                        })
                    },
                }
            }),
    {
        let ord = eff_ord_exec(&meta.ordinal);
        let link = HierLink { title: meta.title, path: link_path, number: None };
        match meta.category {
            None => {
                let ghost oldu = self.uncategorized@;
                self.uncategorized.push((link, ord));
                proof {
                    assert(pairs_view(oldu.push((link, ord))) =~= pairs_view(oldu).push(
                        pair_view((link, ord)),
                    ));
                }
                true
            },
            Some(c) => {
                // the trailing segment after the namespace separator
                let cv = str_to_chars(c.as_str());
                let cvlen = cv.len();
                let start: usize = match crate::text::find_last(&cv, ':') {
                    Some(i) => i + 1,
                    None => 0,
                };
                proof {
                    crate::text::lemma_last_index_of(cv@, ':');
                }
                let cid = crate::text::chars_to_string(&crate::text::copy_range(
                    &cv,
                    start,
                    cvlen,
                ));
                proof {
                    assert(cid@ =~= last_segment(c@, ':'));
                }
                let n = self.categorized.len();
                let mut i: usize = 0;
                while i < n
                    invariant
                        i <= n,
                        n == self.categorized@.len(),
                        forall|k: int| 0 <= k < i ==> (self.categorized@[k].id)@ != cid@,
                        self == old(self),
                        cid@ == last_segment(c@, ':'),
                    decreases n - i,
                {
                    if self.categorized[i].id.eq(&cid) {
                        proof {
                            assert(old(self).has_category(cid@));
                            let ci = old(self).category_index(cid@);
                            assert((old(self).categorized@[ci].id)@ == cid@);
                            if ci != i {
                            }
                            assert(ci == i);
                        }
                        let ghost oldcats = self.categorized@;
                        let mut cat = self.categorized.remove(i);
                        cat.links.push((link, ord));
                        self.categorized.insert(i, cat);
                        proof {
                            assert forall|k: int|
                                0 <= k < oldcats.len() && k != i implies self.categorized@[k]
                                == oldcats[k] by {
                                if k < i {
                                    assert(oldcats.remove(i as int)[k] == oldcats[k]);
                                } else {
                                    assert(oldcats.remove(i as int)[k - 1] == oldcats[k]);
                                }
                            }
                            assert(self.categorized@[i as int] == cat);
                            assert(pairs_view(self.categorized@[i as int].links@) =~= pairs_view(
                                oldcats[i as int].links@,
                            ).push(pair_view((link, ord))));
                            assert forall|a: int, b: int|
                                0 <= a < b < self.categorized@.len() implies (
                            self.categorized@[a].id)@ != (self.categorized@[b].id)@ by {
                                assert((self.categorized@[a].id)@ == (oldcats[a].id)@);
                                assert((self.categorized@[b].id)@ == (oldcats[b].id)@);
                            }
                        }
                        return true;
                    }
                    i = i + 1;
                }
                proof {
                    if old(self).has_category(cid@) {
                        let ci = old(self).category_index(cid@);
                        assert((old(self).categorized@[ci].id)@ == cid@);
                    }
                }
                false
            },
        }
    }
}

/// The deterministic member order: by effective ordinal, ascending, then by
/// target path, so that equal ordinals do not depend on discovery order.
pub open spec fn link_le(a: (HierLink, u32), b: (HierLink, u32)) -> bool {
    a.1 < b.1 || (a.1 == b.1 && !lex_lt(b.0.path@, a.0.path@))
}

pub open spec fn links_sorted(s: Seq<(HierLink, u32)>) -> bool {
    forall|i: int, j: int| 0 <= i <= j < s.len() ==> link_le(s[i], s[j])
}

/// The deterministic category order: by effective ordinal, then by id.
pub open spec fn cat_le(a: BookCategoryEntry, b: BookCategoryEntry) -> bool {
    a.ordinal < b.ordinal || (a.ordinal == b.ordinal && !lex_lt(b.id@, a.id@))
}

pub open spec fn cats_sorted(s: Seq<BookCategoryEntry>) -> bool {
    forall|i: int, j: int| 0 <= i <= j < s.len() ==> cat_le(s[i], s[j])
}

/// Lexicographic order is asymmetric.
pub proof fn lemma_lex_lt_asym(a: Seq<char>, b: Seq<char>)
    requires
        lex_lt(a, b),
    ensures
        !lex_lt(b, a),
    decreases a.len(),
{
    if b.len() == 0 {
    } else if a.len() == 0 {
    } else if (a[0] as u32) != (b[0] as u32) {
    } else {
        lemma_lex_lt_asym(a.skip(1), b.skip(1));
    }
}

/// "Not below" is transitive for the lexicographic order.
pub proof fn lemma_lex_nlt_trans(a: Seq<char>, b: Seq<char>, c: Seq<char>)
    requires
        !lex_lt(b, a),
        !lex_lt(c, b),
    ensures
        !lex_lt(c, a),
    decreases a.len() + b.len() + c.len(),
{
    if lex_lt(c, a) {
        assert(a.len() > 0);
        if c.len() == 0 {
            assert(lex_lt(c, b) == (b.len() > 0));
            assert(b.len() == 0);
            assert(lex_lt(b, a));
        } else {
            if b.len() == 0 {
                assert(lex_lt(b, a));
            } else {
                let a0 = a[0] as u32;
                let b0 = b[0] as u32;
                let c0 = c[0] as u32;
                assert(b0 >= a0);
                assert(c0 >= b0);
                if c0 == a0 {
                    assert(b0 == a0);
                    lemma_lex_nlt_trans(a.skip(1), b.skip(1), c.skip(1));
                } else {
                    assert(c0 < a0);
                }
            }
        }
    }
}

fn cat_le_exec(a: &BookCategoryEntry, b: &BookCategoryEntry) -> (r: bool)
    ensures
        r == cat_le(*a, *b),
{
    if a.ordinal < b.ordinal {
        true
    } else if a.ordinal == b.ordinal {
        let av = str_to_chars(a.id.as_str());
        let bv = str_to_chars(b.id.as_str());
        !lex_lt_exec(&bv, &av)
    } else {
        false
    }
}

fn link_le_exec(a: &(HierLink, u32), b: &(HierLink, u32)) -> (r: bool)
    ensures
        r == link_le(*a, *b),
{
    if a.1 < b.1 {
        true
    } else if a.1 == b.1 {
        let av = str_to_chars(a.0.path.as_str());
        let bv = str_to_chars(b.0.path.as_str());
        !lex_lt_exec(&bv, &av)
    } else {
        false
    }
}

/// Sorts a member list by effective ordinal, ascending, breaking ties by
/// target path: the result is a sorted permutation of the input.
#[verifier::loop_isolation(false)]
pub fn sort_links(v: Vec<(HierLink, u32)>) -> (r: Vec<(HierLink, u32)>)
    ensures
        links_sorted(r@),
        r@.to_multiset() == v@.to_multiset(),
        r@.len() == v@.len(),
{
    let mut src = v;
    let mut out: Vec<(HierLink, u32)> = Vec::new();
    while src.len() > 0
        invariant
            out@.to_multiset().add(src@.to_multiset()) =~= v@.to_multiset(),
            out@.len() + src@.len() == v@.len(),
            links_sorted(out@),
            forall|a: int, b: int|
                0 <= a < out@.len() && 0 <= b < src@.len() ==> link_le(out@[a], src@[b]),
        decreases src@.len(),
    {
        let mut m: usize = 0;
        let mut k: usize = 1;
        proof {
            lemma_lex_lt_irrefl(src@[0].0.path@);
        }
        while k < src.len()
            invariant
                m < k <= src@.len(),
                forall|b: int| 0 <= b < k ==> link_le(src@[m as int], src@[b]),
            decreases src@.len() - k,
        {
            if !link_le_exec(&src[m], &src[k]) {
                proof {
                    // the order is total
                    if src@[k as int].1 == src@[m as int].1 {
                        if lex_lt(src@[m as int].0.path@, src@[k as int].0.path@) {
                            lemma_lex_lt_asym(src@[m as int].0.path@, src@[k as int].0.path@);
                        }
                    }
                    assert(link_le(src@[k as int], src@[m as int]));
                    lemma_lex_lt_irrefl(src@[k as int].0.path@);
                    assert forall|b: int| 0 <= b < k implies link_le(
                        src@[k as int],
                        src@[b],
                    ) by {
                        assert(link_le(src@[m as int], src@[b]));
                        if src@[k as int].1 == src@[b].1 {
                            assert(src@[m as int].1 == src@[b].1);
                            lemma_lex_nlt_trans(
                                src@[k as int].0.path@,
                                src@[m as int].0.path@,
                                src@[b].0.path@,
                            );
                        }
                    }
                }
                m = k;
            }
            k = k + 1;
        }
        let ghost oldsrc = src@;
        let ghost oldout = out@;
        let x = src.remove(m);
        out.push(x);
        proof {
            assert(oldsrc.contains(x)) by {
                assert(oldsrc[m as int] == x);
            }
            assert(out@.to_multiset() =~= oldout.to_multiset().insert(x));
            assert(src@.to_multiset() =~= oldsrc.to_multiset().remove(x));
            assert(out@.to_multiset().add(src@.to_multiset()) =~= oldout.to_multiset().add(
                oldsrc.to_multiset(),
            ));
            assert forall|a: int, b: int|
                0 <= a < out@.len() && 0 <= b < src@.len() implies link_le(out@[a], src@[b]) by {
                if b < m {
                    assert(src@[b] == oldsrc[b]);
                } else {
                    assert(src@[b] == oldsrc[b + 1]);
                }
            }
        }
    }
    out
}

/// Sorts the categories into their deterministic order: by effective
/// ordinal, then by id. The result is a sorted permutation of the input.
#[verifier::loop_isolation(false)]
pub fn sort_categories(v: Vec<BookCategoryEntry>) -> (r: Vec<BookCategoryEntry>)
    ensures
        cats_sorted(r@),
        r@.to_multiset() == v@.to_multiset(),
        r@.len() == v@.len(),
{
    let mut src = v;
    let mut out: Vec<BookCategoryEntry> = Vec::new();
    while src.len() > 0
        invariant
            out@.to_multiset().add(src@.to_multiset()) =~= v@.to_multiset(),
            out@.len() + src@.len() == v@.len(),
            cats_sorted(out@),
            forall|a: int, b: int|
                0 <= a < out@.len() && 0 <= b < src@.len() ==> cat_le(out@[a], src@[b]),
        decreases src@.len(),
    {
        let mut m: usize = 0;
        let mut k: usize = 1;
        proof {
            lemma_lex_lt_irrefl(src@[0].id@);
        }
        while k < src.len()
            invariant
                m < k <= src@.len(),
                forall|b: int| 0 <= b < k ==> cat_le(src@[m as int], src@[b]),
            decreases src@.len() - k,
        {
            if !cat_le_exec(&src[m], &src[k]) {
                proof {
                    // the order is total
                    if src@[k as int].ordinal == src@[m as int].ordinal {
                        if lex_lt(src@[m as int].id@, src@[k as int].id@) {
                            lemma_lex_lt_asym(src@[m as int].id@, src@[k as int].id@);
                        }
                    }
                    assert(cat_le(src@[k as int], src@[m as int]));
                    lemma_lex_lt_irrefl(src@[k as int].id@);
                    assert forall|b: int| 0 <= b < k implies cat_le(
                        src@[k as int],
                        src@[b],
                    ) by {
                        assert(cat_le(src@[m as int], src@[b]));
                        if src@[k as int].ordinal == src@[b].ordinal {
                            assert(src@[m as int].ordinal == src@[b].ordinal);
                            lemma_lex_nlt_trans(src@[k as int].id@, src@[m as int].id@, src@[b].id@);
                        }
                    }
                }
                m = k;
            }
            k = k + 1;
        }
        let ghost oldsrc = src@;
        let ghost oldout = out@;
        let x = src.remove(m);
        out.push(x);
        proof {
            assert(oldsrc.contains(x)) by {
                assert(oldsrc[m as int] == x);
            }
            assert(out@.to_multiset() =~= oldout.to_multiset().insert(x));
            assert(src@.to_multiset() =~= oldsrc.to_multiset().remove(x));
            assert(out@.to_multiset().add(src@.to_multiset()) =~= oldout.to_multiset().add(
                oldsrc.to_multiset(),
            ));
            assert forall|a: int, b: int|
                0 <= a < out@.len() && 0 <= b < src@.len() implies cat_le(out@[a], src@[b]) by {
                if b < m {
                    assert(src@[b] == oldsrc[b]);
                } else {
                    assert(src@[b] == oldsrc[b + 1]);
                }
            }
        }
    }
    out
}

/// One item of the assembled outline.
pub enum SummaryItem {
    Link(HierLink),
    PartTitle(String),
}

/// The model of a summary item.
pub enum SummaryItemV {
    Link(LinkV),
    PartTitle(Seq<char>),
}

impl View for SummaryItem {
    type V = SummaryItemV;

    open spec fn view(&self) -> SummaryItemV {
        match self {
            SummaryItem::Link(l) => SummaryItemV::Link(l@),
            SummaryItem::PartTitle(t) => SummaryItemV::PartTitle(t@),
        }
    }
}

pub open spec fn items_view(s: Seq<SummaryItem>) -> Seq<SummaryItemV> {
    s.map_values(|x: SummaryItem| x@)
}

/// The assembled outline: the sorted, unnumbered prefix list, then the
/// numbered category and member sequence.
pub struct Summary {
    pub prefix_chapters: Vec<SummaryItem>,
    pub numbered_chapters: Vec<SummaryItem>,
}

/// The model of one category, as the numbering reads it.
pub struct CatV {
    pub id: Seq<char>,
    pub title: Seq<char>,
    pub link_path: Seq<char>,
    pub ordinal: u32,
    pub links: Seq<(LinkV, u32)>,
}

impl View for BookCategoryEntry {
    type V = CatV;

    open spec fn view(&self) -> CatV {
        CatV {
            id: self.id@,
            title: self.title@,
            link_path: self.link_path@,
            ordinal: self.ordinal,
            links: pairs_view(self.links@),
        }
    }
}

pub open spec fn cats_view(s: Seq<BookCategoryEntry>) -> Seq<CatV> {
    s.map_values(|c: BookCategoryEntry| c@)
}

/// The sorted prefix list as summary items: each uncategorized link, kept
/// unnumbered, in sorted order.
pub open spec fn prefix_items(ls: Seq<(LinkV, u32)>) -> Seq<SummaryItemV> {
    Seq::new(ls.len(), |j: int| SummaryItemV::Link(ls[j].0))
}

/// The members of category number `n`: member `j` (1-based) carries section
/// number `[n, j]`.
pub open spec fn member_items(ls: Seq<(LinkV, u32)>, n: u32) -> Seq<SummaryItemV> {
    Seq::new(
        ls.len(),
        |j: int|
            SummaryItemV::Link(
                LinkV {
                    title: ls[j].0.title,
                    path: ls[j].0.path,
                    number: Some(seq![n, (j + 1) as u32]),
                },
            ),
    )
}

/// Category number `n`: its part title, its landing page numbered `[n]`,
/// then its sorted members.
pub open spec fn cat_items(c: CatV, n: u32) -> Seq<SummaryItemV> {
    seq![
        SummaryItemV::PartTitle(c.title),
        SummaryItemV::Link(LinkV { title: c.title, path: c.link_path, number: Some(seq![n]) }),
    ] + member_items(c.links, n)
}

/// The categories zipped with their sorted member lists, as models.
pub open spec fn zip_cats(cats: Seq<BookCategoryEntry>, members: Seq<Seq<(HierLink, u32)>>) -> Seq<
    CatV,
> {
    Seq::new(
        cats.len(),
        |i: int|
            CatV {
                id: cats[i].id@,
                title: cats[i].title@,
                link_path: cats[i].link_path@,
                ordinal: cats[i].ordinal,
                links: pairs_view(members[i]),
            },
    )
}

/// The whole numbered sequence: categories in their given order, numbered
/// sequentially from 1.
pub open spec fn numbered_items(cats: Seq<CatV>) -> Seq<SummaryItemV>
    decreases cats.len(),
{
    if cats.len() == 0 {
        Seq::empty()
    } else {
        numbered_items(cats.drop_last()) + cat_items(cats.last(), cats.len() as u32)
    }
}

/// Assembles the outline from the aggregated hierarchy: the uncategorized
/// list is sorted by ordinal and emitted unnumbered; the categories are
/// sorted into their deterministic order and numbered sequentially from 1,
/// each landing page numbered `[i]` and each sorted member `[i, j]` with `j`
/// starting at 1 within its category.
#[verifier::loop_isolation(false)]
#[verifier::rlimit(50)]
pub fn create_summary(h: BookHierarchy) -> (r: Summary)
    requires
        h.categorized@.len() < u32::MAX,
        forall|i: int|
            0 <= i < h.categorized@.len() ==> h.categorized@[i].links@.len() < u32::MAX,
    ensures
        exists|pre: Seq<(HierLink, u32)>, cats: Seq<BookCategoryEntry>, members: Seq<
            Seq<(HierLink, u32)>,
        >|
            {
                &&& links_sorted(pre)
                &&& pre.to_multiset() == h.uncategorized@.to_multiset()
                &&& cats_sorted(cats)
                &&& cats.to_multiset() == h.categorized@.to_multiset()
                &&& members.len() == cats.len()
                &&& (forall|i: int|
                    0 <= i < cats.len() ==> links_sorted(#[trigger] members[i])
                        && members[i].to_multiset() == cats[i].links@.to_multiset())
                &&& items_view(r.prefix_chapters@) == prefix_items(pairs_view(pre))
                &&& items_view(r.numbered_chapters@) == numbered_items(zip_cats(cats, members))
            },
{
    let sorted_pre = sort_links(h.uncategorized);
    let mut prefix_chapters: Vec<SummaryItem> = Vec::new();
    let ghost prev = sorted_pre@;
    let mut rest = sorted_pre;
    while rest.len() > 0
        invariant
            prev.len() == prefix_chapters@.len() + rest@.len(),
            rest@ == prev.skip(prefix_chapters@.len() as int),
            items_view(prefix_chapters@) == prefix_items(pairs_view(prev)).take(
                prefix_chapters@.len() as int,
            ),
        decreases rest@.len(),
    {
        let ghost k = prefix_chapters@.len() as int;
        let (link, _ord) = rest.remove(0);
        proof {
            assert(prev.skip(k)[0] == prev[k]);
            assert(prev.skip(k).remove(0) =~= prev.skip(k + 1));
        }
        let ghost oldpc = prefix_chapters@;
        prefix_chapters.push(SummaryItem::Link(link));
        proof {
            assert(items_view(prefix_chapters@) =~= items_view(oldpc).push(
                SummaryItemV::Link(link@),
            ));
            assert(pairs_view(prev)[k] == pair_view(prev[k]));
            assert(prefix_items(pairs_view(prev)).take(k + 1) =~= prefix_items(
                pairs_view(prev),
            ).take(k).push(prefix_items(pairs_view(prev))[k]));
        }
    }
    proof {
        assert(prefix_items(pairs_view(prev)).take(prev.len() as int) =~= prefix_items(
            pairs_view(prev),
        ));
    }

    let sorted_cats = sort_categories(h.categorized);
    let ghost catsv = sorted_cats@;
    let ghost mut members: Seq<Seq<(HierLink, u32)>> = Seq::empty();
    let mut numbered_chapters: Vec<SummaryItem> = Vec::new();
    let mut crest = sorted_cats;
    let mut ci: usize = 0;
    proof {
        assert(zip_cats(catsv.take(0), members) =~= Seq::<CatV>::empty());
        assert(items_view(numbered_chapters@) =~= numbered_items(zip_cats(catsv.take(0), members)));
    }
    while crest.len() > 0
        invariant
            ci + crest@.len() == catsv.len(),
            crest@ == catsv.skip(ci as int),
            members.len() == ci,
            forall|i: int|
                0 <= i < ci ==> links_sorted(#[trigger] members[i]) && members[i].to_multiset()
                    == catsv[i].links@.to_multiset(),
            items_view(numbered_chapters@) == numbered_items(
                zip_cats(catsv.take(ci as int), members),
            ),
        decreases crest@.len(),
    {
        let ghost oldmembers = members;
        let cat = crest.remove(0);
        proof {
            assert(catsv.skip(ci as int)[0] == catsv[ci as int]);
            assert(catsv.skip(ci as int).remove(0) =~= catsv.skip(ci + 1));
            assert(cat@ == catsv[ci as int]@);
        }
        let n: u32 = (ci as u32) + 1;
        let ghost before = numbered_chapters@;
        numbered_chapters.push(SummaryItem::PartTitle(cat.title.clone()));
        let mut nv: Vec<u32> = Vec::new();
        nv.push(n);
        assert(nv@ =~= seq![n]);
        numbered_chapters.push(
            SummaryItem::Link(HierLink { title: cat.title, path: cat.link_path, number: Some(nv) }),
        );
        proof {
            assert(catsv.contains(catsv[ci as int]));
            assert(h.categorized@.to_multiset().count(catsv[ci as int]) > 0);
            assert(h.categorized@.contains(catsv[ci as int]));
            let wi = choose|wi: int|
                0 <= wi < h.categorized@.len() && h.categorized@[wi] == catsv[ci as int];
            assert(h.categorized@[wi].links@.len() < u32::MAX);
        }
        let sorted_members = sort_links(cat.links);
        let ghost memv = sorted_members@;
        proof {
            members = members.push(memv);
        }
        let mut mrest = sorted_members;
        let mut j: usize = 0;
        proof {
            assert(items_view(numbered_chapters@) =~= items_view(before) + seq![
                SummaryItemV::PartTitle(catsv[ci as int].title@),
                SummaryItemV::Link(
                    LinkV {
                        title: catsv[ci as int].title@,
                        path: catsv[ci as int].link_path@,
                        number: Some(seq![n]),
                    },
                ),
            ]);
            assert(member_items(pairs_view(memv), n).take(0) =~= Seq::<SummaryItemV>::empty());
        }
        while mrest.len() > 0
            invariant
                j + mrest@.len() == memv.len(),
                mrest@ == memv.skip(j as int),
                memv.len() < u32::MAX,
                items_view(numbered_chapters@) == items_view(before) + seq![
                    SummaryItemV::PartTitle(catsv[ci as int].title@),
                    SummaryItemV::Link(
                        LinkV {
                            title: catsv[ci as int].title@,
                            path: catsv[ci as int].link_path@,
                            number: Some(seq![n]),
                        },
                    ),
                ] + member_items(pairs_view(memv), n).take(j as int),
            decreases mrest@.len(),
        {
            let (mut link, _ord) = mrest.remove(0);
            proof {
                assert(memv.skip(j as int)[0] == memv[j as int]);
                assert(memv.skip(j as int).remove(0) =~= memv.skip(j + 1));
            }
            let mut mv: Vec<u32> = Vec::new();
            mv.push(n);
            mv.push((j as u32) + 1);
            assert(mv@ =~= seq![n, (j + 1) as u32]);
            link.number = Some(mv);
            let ghost nbefore = numbered_chapters@;
            numbered_chapters.push(SummaryItem::Link(link));
            proof {
                assert(items_view(numbered_chapters@) =~= items_view(nbefore).push(
                    SummaryItemV::Link(link@),
                ));
                assert(pairs_view(memv)[j as int] == pair_view(memv[j as int]));
                assert(member_items(pairs_view(memv), n).take(j + 1) =~= member_items(
                    pairs_view(memv),
                    n,
                ).take(j as int).push(member_items(pairs_view(memv), n)[j as int]));
                assert(items_view(nbefore).push(SummaryItemV::Link(link@)) =~= items_view(before)
                    + seq![
                    SummaryItemV::PartTitle(catsv[ci as int].title@),
                    SummaryItemV::Link(
                        LinkV {
                            title: catsv[ci as int].title@,
                            path: catsv[ci as int].link_path@,
                            number: Some(seq![n]),
                        },
                    ),
                ] + member_items(pairs_view(memv), n).take(j + 1));
            }
            j = j + 1;
        }
        proof {
            assert(member_items(pairs_view(memv), n).take(memv.len() as int) =~= member_items(
                pairs_view(memv),
                n,
            ));
            let znew = zip_cats(catsv.take(ci + 1), members);
            let zold = zip_cats(catsv.take(ci as int), oldmembers);
            assert(znew.drop_last() =~= zold);
            assert(znew.last() == znew[ci as int]);
            assert(cat_items(znew[ci as int], n) =~= seq![
                SummaryItemV::PartTitle(catsv[ci as int].title@),
                SummaryItemV::Link(
                    LinkV {
                        title: catsv[ci as int].title@,
                        path: catsv[ci as int].link_path@,
                        number: Some(seq![n]),
                    },
                ),
            ] + member_items(pairs_view(memv), n));
            assert(items_view(numbered_chapters@) =~= numbered_items(znew));
        }
        ci = ci + 1;
    }
    proof {
        assert(catsv.take(catsv.len() as int) =~= catsv);
        assert(zip_cats(catsv.take(catsv.len() as int), members) =~= zip_cats(catsv, members));
        assert(items_view(numbered_chapters@) == numbered_items(zip_cats(catsv, members)));
    }
    Summary { prefix_chapters, numbered_chapters }
}

/// One prefix line of the table of contents: an unnumbered link.
pub open spec fn prefix_line(it: SummaryItemV) -> Seq<char> {
    match it {
        SummaryItemV::Link(l) => seq!['['] + l.title + seq![']', '('] + l.path + seq![')', '\n'],
        SummaryItemV::PartTitle(_) => Seq::empty(),
    }
}

pub open spec fn prefix_lines(items: Seq<SummaryItemV>) -> Seq<char>
    decreases items.len(),
{
    if items.len() == 0 {
        Seq::empty()
    } else {
        prefix_lines(items.drop_last()) + prefix_line(items.last())
    }
}

/// Two spaces of indentation per level below the top.
pub open spec fn indent_width(number: Option<Seq<u32>>) -> nat {
    match number {
        Some(v) => if v.len() >= 1 {
            2 * (v.len() - 1) as nat
        } else {
            0nat
        },
        None => 0nat,
    }
}

pub open spec fn spaces(n: nat) -> Seq<char> {
    Seq::new(n, |i: int| ' ')
}

/// One numbered line of the table of contents: a part title as a heading, a
/// link as a list item indented by its depth.
pub open spec fn numbered_line(it: SummaryItemV) -> Seq<char> {
    match it {
        SummaryItemV::PartTitle(t) => seq!['#', ' '] + t + seq!['\n'],
        SummaryItemV::Link(l) => spaces(indent_width(l.number)) + seq!['-', ' ', '['] + l.title
            + seq![']', '('] + l.path + seq![')', '\n'],
    }
}

pub open spec fn numbered_lines(items: Seq<SummaryItemV>) -> Seq<char>
    decreases items.len(),
{
    if items.len() == 0 {
        Seq::empty()
    } else {
        numbered_lines(items.drop_last()) + numbered_line(items.last())
    }
}

/// The table-of-contents markdown of an outline: the prefix lines, a blank
/// line, then the numbered lines.
pub open spec fn summary_markdown_of(s: &Summary) -> Seq<char> {
    prefix_lines(items_view(s.prefix_chapters@)) + seq!['\n'] + numbered_lines(
        items_view(s.numbered_chapters@),
    )
}

/// Renders the outline as the table-of-contents markdown handed to the book
/// renderer: one line per prefix link, a blank line, then the numbered
/// items, members indented under their category.
#[verifier::loop_isolation(false)]
#[verifier::rlimit(50)]
pub fn summary_markdown(s: &Summary) -> (r: String)
    ensures
        r@ == summary_markdown_of(s),
{
    let ghost prev = items_view(s.prefix_chapters@);
    let ghost numv = items_view(s.numbered_chapters@);
    let mut out: Vec<char> = Vec::new();
    let n1 = s.prefix_chapters.len();
    let mut i: usize = 0;
    proof {
        assert(prev.take(0) =~= Seq::<SummaryItemV>::empty());
        assert(out@ =~= prefix_lines(prev.take(0)));
    }
    while i < n1
        invariant
            i <= n1,
            n1 == s.prefix_chapters@.len(),
            out@ == prefix_lines(prev.take(i as int)),
        decreases n1 - i,
    {
        let ghost before = out@;
        match &s.prefix_chapters[i] {
            SummaryItem::Link(l) => {
                out.push('[');
                let tv = str_to_chars(l.title.as_str());
                append_chars(&mut out, &tv);
                out.push(']');
                out.push('(');
                let pv = str_to_chars(l.path.as_str());
                append_chars(&mut out, &pv);
                out.push(')');
                out.push('\n');
            },
            SummaryItem::PartTitle(_) => {},
        }
        proof {
            assert(prev.take(i + 1).drop_last() =~= prev.take(i as int));
            assert(prev.take(i + 1).last() == prev[i as int]);
            assert(prev[i as int] == s.prefix_chapters@[i as int]@);
            assert(out@ =~= before + prefix_line(prev[i as int]));
        }
        i = i + 1;
    }
    proof {
        assert(prev.take(n1 as int) =~= prev);
    }
    out.push('\n');
    let ghost mid = out@;
    proof {
        assert(mid =~= prefix_lines(prev) + seq!['\n']);
        assert(numv.take(0) =~= Seq::<SummaryItemV>::empty());
        assert(out@ =~= mid + numbered_lines(numv.take(0)));
    }
    let n2 = s.numbered_chapters.len();
    let mut j: usize = 0;
    while j < n2
        invariant
            j <= n2,
            n2 == s.numbered_chapters@.len(),
            out@ == mid + numbered_lines(numv.take(j as int)),
        decreases n2 - j,
    {
        let ghost before = out@;
        match &s.numbered_chapters[j] {
            SummaryItem::PartTitle(t) => {
                out.push('#');
                out.push(' ');
                let tv = str_to_chars(t.as_str());
                append_chars(&mut out, &tv);
                out.push('\n');
            },
            SummaryItem::Link(l) => {
                match &l.number {
                    Some(v) => {
                        let d = v.len();
                        let mut c: usize = 1;
                        proof {
                            assert(spaces(0) =~= Seq::<char>::empty());
                            assert(out@ =~= before + spaces(2 * (1 - 1) as nat));
                        }
                        while c < d
                            invariant
                                1 <= c,
                                c <= d || (d == 0 && c == 1),
                                out@ == before + spaces((2 * (c - 1)) as nat),
                            decreases d - c,
                        {
                            out.push(' ');
                            out.push(' ');
                            proof {
                                assert(spaces((2 * c) as nat) =~= spaces(
                                    (2 * (c - 1)) as nat,
                                ).push(' ').push(' '));
                            }
                            c = c + 1;
                        }
                        proof {
                            if d >= 1 {
                                assert(c == d);
                                assert(out@ =~= before + spaces(indent_width(l@.number)));
                            } else {
                                assert(out@ =~= before + spaces(indent_width(l@.number)));
                            }
                        }
                    },
                    None => {
                        proof {
                            assert(spaces(indent_width(l@.number)) =~= Seq::<char>::empty());
                        }
                    },
                }
                out.push('-');
                out.push(' ');
                out.push('[');
                let tv = str_to_chars(l.title.as_str());
                append_chars(&mut out, &tv);
                out.push(']');
                out.push('(');
                let pv = str_to_chars(l.path.as_str());
                append_chars(&mut out, &pv);
                out.push(')');
                out.push('\n');
            },
        }
        proof {
            assert(numv.take(j + 1).drop_last() =~= numv.take(j as int));
            assert(numv.take(j + 1).last() == numv[j as int]);
            assert(numv[j as int] == s.numbered_chapters@[j as int]@);
            assert(out@ =~= before + numbered_line(numv[j as int]));
        }
        j = j + 1;
    }
    proof {
        assert(numv.take(n2 as int) =~= numv);
        assert(out@ =~= summary_markdown_of(s));
    }
    chars_to_string(&out)
}

/// In a sorted member list, an entry that declares an ordinal below the
/// default always comes before every entry that declares none (whose
/// effective ordinal is the maximum).
pub proof fn lemma_undeclared_ordinals_sort_last(s: Seq<(HierLink, u32)>, i: int, j: int)
    requires
        links_sorted(s),
        0 <= i < s.len(),
        0 <= j < s.len(),
        s[i].1 < u32::MAX,
        s[j].1 == u32::MAX,
    ensures
        i < j,
{
    if j < i {
        assert(link_le(s[j], s[i]));
    }
}

} // verus!
