use crate::text::{
    append_chars, chars_to_string, copy_range, find_last, first_where, last_segment,
    lemma_first_where, lemma_first_where_none, lemma_first_where_unique, str_to_chars,
};
use path_slash::PathBufExt;
use vstd::prelude::*;
use vstd::string::*;

verus! {

/// The corpus-wide map from document id to canonical corpus-relative path.
pub struct PageIndex {
    pub entries: Vec<(String, String)>,
}

impl PageIndex {
    /// Document ids are unique within the corpus.
    pub open spec fn wf(&self) -> bool {
        forall|i: int, j: int|
            0 <= i < j < self.entries@.len() ==> (self.entries@[i].0)@ != (self.entries@[j].0)@
    }

    pub open spec fn contains_id(&self, id: Seq<char>) -> bool {
        exists|i: int| 0 <= i < self.entries@.len() && (self.entries@[i].0)@ == id
    }

    pub open spec fn path_of(&self, id: Seq<char>) -> Seq<char> {
        (self.entries@[choose|i: int|
            0 <= i < self.entries@.len() && (self.entries@[i].0)@ == id].1)@
    }

    pub fn new() -> (r: Self)
        ensures
            r.wf(),
            !r.contains_id(Seq::empty()),
            r.entries@.len() == 0,
    {
        PageIndex { entries: Vec::new() }
    }

    /// Adds one document to the index; ids are unique, so the id must be
    /// fresh.
    pub fn insert(&mut self, id: String, path: String)
        requires
            old(self).wf(),
            !old(self).contains_id(id@),
        ensures
            final(self).wf(),
            forall|k: Seq<char>|
                final(self).contains_id(k) <==> (old(self).contains_id(k) || k == id@),
            final(self).path_of(id@) == path@,
            forall|k: Seq<char>|
                old(self).contains_id(k) && k != id@ ==> final(self).path_of(k) == old(
                    self,
                ).path_of(k),
    {
        let ghost oldent = self.entries@;
        self.entries.push((id, path));
        proof {
            let n = oldent.len() as int;
            assert forall|k: Seq<char>|
                self.contains_id(k) <==> (old(self).contains_id(k) || k == id@) by {
                if old(self).contains_id(k) {
                    let i = choose|i: int| 0 <= i < n && (oldent[i].0)@ == k;
                    assert((self.entries@[i].0)@ == k);
                }
                if k == id@ {
                    assert((self.entries@[n].0)@ == k);
                }
                if self.contains_id(k) {
                    let i = choose|i: int|
                        0 <= i < self.entries@.len() && (self.entries@[i].0)@ == k;
                    if i < n {
                        assert((oldent[i].0)@ == k);
                    }
                }
            }
            assert(self.wf());
            let ci = choose|i: int|
                0 <= i < self.entries@.len() && (self.entries@[i].0)@ == id@;
            assert((self.entries@[ci].0)@ == id@);
            if ci < n {
                assert(old(self).contains_id(id@));
            }
            assert(ci == n);
            assert forall|k: Seq<char>|
                old(self).contains_id(k) && k != id@ implies self.path_of(k) == old(
                self,
            ).path_of(k) by {
                let i = choose|i: int| 0 <= i < n && (oldent[i].0)@ == k;
                let ni = choose|i: int|
                    0 <= i < self.entries@.len() && (self.entries@[i].0)@ == k;
                assert((self.entries@[i].0)@ == k);
                if ni < n {
                    assert((oldent[ni].0)@ == k);
                    if ni != i {
                    }
                }
            }
        }
    }

    /// Looks a document id up.
    pub fn lookup(&self, id: &str) -> (r: Option<&String>)
        requires
            self.wf(),
        ensures
            match r {
                Some(p) => self.contains_id(id@) && p@ == self.path_of(id@),
                None => !self.contains_id(id@),
            },
    {
        let key = String::from_str(id);
        let n = self.entries.len();
        let mut i: usize = 0;
        while i < n
            invariant
                i <= n,
                n == self.entries@.len(),
                key@ == id@,
                self.wf(),
                forall|k: int| 0 <= k < i ==> (self.entries@[k].0)@ != id@,
            decreases n - i,
        {
            if self.entries[i].0.eq(&key) {
                proof {
                    assert(self.contains_id(id@));
                    let ci = choose|k: int|
                        0 <= k < self.entries@.len() && (self.entries@[k].0)@ == id@;
                    if ci != i {
                    }
                    assert(ci == i);
                }
                return Some(&self.entries[i].1);
            }
            i = i + 1;
        }
        None
    }
}

/// The components of one cross-reference token: the display text, the
/// slash-separated target path, the optional anchor digits, and the index
/// just past the token's closing parenthesis.
pub struct TokenParse {
    pub name: Seq<char>,
    pub page: Seq<char>,
    pub anchor: Option<Seq<char>>,
    pub end: int,
}

pub open spec fn close_bracket_p() -> spec_fn(char) -> bool {
    |c: char| c == ']'
}

pub open spec fn page_end_p() -> spec_fn(char) -> bool {
    |c: char| c == '#' || c == ')'
}

pub open spec fn is_digit(c: char) -> bool {
    48 <= c as u32 <= 57
}

pub open spec fn non_digit_p() -> spec_fn(char) -> bool {
    |c: char| !is_digit(c)
}

/// Parses a cross-reference token at the start of `s`, against corpus id
/// `cid`: `[<display>](^<cid>:<target>)` with an optional `#<digits>` before
/// the closing parenthesis. The display text runs to the first `]`, the
/// target to the first `#` or `)`.
pub open spec fn parse_token(s: Seq<char>, cid: Seq<char>) -> Option<TokenParse> {
    if s.len() == 0 || s[0] != '[' {
        None
    } else {
        let nl = first_where(s.skip(1), close_bracket_p());
        if 1 + nl == s.len() {
            None
        } else {
            let name = s.subrange(1, 1 + nl);
            let q = 2 + nl;
            if !(q + 1 < s.len() && s[q] == '(' && s[q + 1] == '^') {
                None
            } else {
                let r = q + 2;
                if !(r + cid.len() <= s.len() && s.subrange(r, r + cid.len()) == cid) {
                    None
                } else {
                    let t = r + cid.len();
                    if !(t < s.len() && s[t] == ':') {
                        None
                    } else {
                        let u = t + 1;
                        let pl = first_where(s.skip(u), page_end_p());
                        if u + pl == s.len() {
                            None
                        } else {
                            let page = s.subrange(u, u + pl);
                            if s[u + pl] == ')' {
                                Some(TokenParse { name, page, anchor: None, end: u + pl + 1 })
                            } else {
                                let v = u + pl + 1;
                                let dl = first_where(s.skip(v), non_digit_p());
                                if dl == 0 || v + dl == s.len() || s[v + dl] != ')' {
                                    None
                                } else {
                                    Some(
                                        TokenParse {
                                            name,
                                            page,
                                            anchor: Some(s.subrange(v, v + dl)),
                                            end: v + dl + 1,
                                        },
                                    )
                                }
                            }
                        }
                    }
                }
            }
        }
    }
}

/// A parsed token covers at least one character and no more than `s`.
pub proof fn lemma_parse_token_end(s: Seq<char>, cid: Seq<char>)
    ensures
        parse_token(s, cid) matches Some(t) ==> 1 <= t.end <= s.len(),
{
    if s.len() > 0 && s[0] == '[' {
        lemma_first_where(s.skip(1), close_bracket_p());
        let nl = first_where(s.skip(1), close_bracket_p());
        if 1 + nl < s.len() {
            let u = 2 + nl + 2 + cid.len() + 1;
            if u <= s.len() {
                lemma_first_where(s.skip(u), page_end_p());
                let pl = first_where(s.skip(u), page_end_p());
                if u + pl < s.len() {
                    let v = u + pl + 1;
                    if v <= s.len() {
                        lemma_first_where(s.skip(v), non_digit_p());
                    }
                }
            }
        }
    }
}

/// What pathdiff::diff_paths, re-separated by path_slash's to_slash, returns:
/// the relative path from `base` to `target` with `/` separators; a function
/// of the two paths alone.
pub uninterp spec fn rel_slash(target: Seq<char>, base: Seq<char>) -> Option<Seq<char>>;

/// Relies on pathdiff::diff_paths and path_slash::PathBufExt::to_slash: the
/// relative path from `base` to `target`, with forward-slash separators.
#[verifier::external_body]
fn relative_slash_path(target: &str, base: &str) -> (r: Option<String>)
    ensures
        r is Some <==> rel_slash(target@, base@) is Some,
        r matches Some(p) ==> rel_slash(target@, base@) == Some(p@),
{
    match pathdiff::diff_paths(std::path::Path::new(target), std::path::Path::new(base)) {
        Some(p) => p.to_slash().map(|c| c.to_string()),
        None => None,
    }
}

/// The anchor component of a rewritten link: `#` and the digits when the
/// token carried an anchor, empty otherwise.
pub open spec fn anchor_part(a: Option<Seq<char>>) -> Seq<char> {
    match a {
        Some(d) => seq!['#'] + d,
        None => Seq::empty(),
    }
}

/// The path component of a rewritten link: the target's indexed path made
/// relative to the current document's directory; empty when the id is absent
/// from the index or no relative path exists.
pub open spec fn path_part(page: Seq<char>, cur_dir: Seq<char>, idx: PageIndex) -> Seq<char> {
    let id = last_segment(page, '/');
    if idx.contains_id(id) {
        match rel_slash(idx.path_of(id), cur_dir) {
            Some(r) => r,
            None => Seq::empty(),
        }
    } else {
        Seq::empty()
    }
}

/// The rewritten form of one token.
pub open spec fn replacement(tok: TokenParse, cur_dir: Seq<char>, idx: PageIndex) -> Seq<char> {
    seq!['['] + tok.name + seq![']', '('] + path_part(tok.page, cur_dir, idx) + anchor_part(
        tok.anchor,
    ) + seq![')']
}

/// One left-to-right substitution pass: each token is rewritten once, and the
/// rewritten output is never re-scanned.
pub open spec fn resolve_all(
    s: Seq<char>,
    cid: Seq<char>,
    cur_dir: Seq<char>,
    idx: PageIndex,
) -> Seq<char>
    decreases s.len(),
    via resolve_all_decreases
{
    if s.len() == 0 {
        s
    } else {
        match parse_token(s, cid) {
            Some(tok) => replacement(tok, cur_dir, idx) + resolve_all(
                s.skip(tok.end),
                cid,
                cur_dir,
                idx,
            ),
            None => seq![s[0]] + resolve_all(s.skip(1), cid, cur_dir, idx),
        }
    }
}

#[via_fn]
proof fn resolve_all_decreases(s: Seq<char>, cid: Seq<char>, cur_dir: Seq<char>, idx: PageIndex) {
    lemma_parse_token_end(s, cid);
}

/// Scans forward from `from` for the first `]`.
fn find_close_bracket(s: &Vec<char>, from: usize) -> (r: usize)
    requires
        from <= s@.len(),
    ensures
        from <= r <= s@.len(),
        r - from == first_where(s@.skip(from as int), close_bracket_p()),
{
    let n = s.len();
    let mut k: usize = from;
    while k < n
        invariant
            from <= k <= n,
            n == s@.len(),
            forall|m: int| from <= m < k ==> s@[m] != ']',
        decreases n - k,
    {
        if s[k] == ']' {
            proof {
                let suf = s@.skip(from as int);
                assert forall|m: int| 0 <= m < k - from implies !close_bracket_p()(
                    #[trigger] suf[m],
                ) by {
                    assert(suf[m] == s@[from + m]);
                }
                assert(close_bracket_p()(suf[k - from]));
                lemma_first_where_unique(suf, close_bracket_p(), k - from);
            }
            return k;
        }
        k = k + 1;
    }
    proof {
        let suf = s@.skip(from as int);
        assert forall|m: int| 0 <= m < suf.len() implies !close_bracket_p()(#[trigger] suf[m]) by {
            assert(suf[m] == s@[from + m]);
        }
        lemma_first_where_none(suf, close_bracket_p());
    }
    n
}

/// Scans forward from `from` for the first `#` or `)`.
fn find_page_end(s: &Vec<char>, from: usize) -> (r: usize)
    requires
        from <= s@.len(),
    ensures
        from <= r <= s@.len(),
        r - from == first_where(s@.skip(from as int), page_end_p()),
{
    let n = s.len();
    let mut k: usize = from;
    while k < n
        invariant
            from <= k <= n,
            n == s@.len(),
            forall|m: int| from <= m < k ==> (s@[m] != '#' && s@[m] != ')'),
        decreases n - k,
    {
        if s[k] == '#' || s[k] == ')' {
            proof {
                let suf = s@.skip(from as int);
                assert forall|m: int| 0 <= m < k - from implies !page_end_p()(
                    #[trigger] suf[m],
                ) by {
                    assert(suf[m] == s@[from + m]);
                }
                assert(page_end_p()(suf[k - from]));
                lemma_first_where_unique(suf, page_end_p(), k - from);
            }
            return k;
        }
        k = k + 1;
    }
    proof {
        let suf = s@.skip(from as int);
        assert forall|m: int| 0 <= m < suf.len() implies !page_end_p()(#[trigger] suf[m]) by {
            assert(suf[m] == s@[from + m]);
        }
        lemma_first_where_none(suf, page_end_p());
    }
    n
}

fn is_digit_exec(c: char) -> (b: bool)
    ensures
        b == is_digit(c),
{
    let u = c as u32;
    48 <= u && u <= 57
}

/// Scans forward from `from` for the first character that is not a decimal
/// digit.
fn find_non_digit(s: &Vec<char>, from: usize) -> (r: usize)
    requires
        from <= s@.len(),
    ensures
        from <= r <= s@.len(),
        r - from == first_where(s@.skip(from as int), non_digit_p()),
{
    let n = s.len();
    let mut k: usize = from;
    while k < n
        invariant
            from <= k <= n,
            n == s@.len(),
            forall|m: int| from <= m < k ==> is_digit(s@[m]),
        decreases n - k,
    {
        if !is_digit_exec(s[k]) {
            proof {
                let suf = s@.skip(from as int);
                assert forall|m: int| 0 <= m < k - from implies !non_digit_p()(
                    #[trigger] suf[m],
                ) by {
                    assert(suf[m] == s@[from + m]);
                }
                assert(non_digit_p()(suf[k - from]));
                lemma_first_where_unique(suf, non_digit_p(), k - from);
            }
            return k;
        }
        k = k + 1;
    }
    proof {
        let suf = s@.skip(from as int);
        assert forall|m: int| 0 <= m < suf.len() implies !non_digit_p()(#[trigger] suf[m]) by {
            assert(suf[m] == s@[from + m]);
        }
        lemma_first_where_none(suf, non_digit_p());
    }
    n
}

pub open spec fn opt_chars_view(o: Option<Vec<char>>) -> Option<Seq<char>> {
    match o {
        Some(v) => Some(v@),
        None => None,
    }
}

/// Tries to parse a cross-reference token at position `p` of `s`; on success
/// the returned components mirror `parse_token` on the suffix, and the
/// returned end index is absolute.
#[verifier::loop_isolation(false)]
#[verifier::rlimit(50)]
fn try_token(s: &Vec<char>, p: usize, cid: &Vec<char>) -> (r: Option<
    (Vec<char>, Vec<char>, Option<Vec<char>>, usize),
>)
    requires
        p < s@.len(),
    ensures
        match r {
            Some(t) => {
                &&& p < t.3 <= s@.len()
                &&& parse_token(s@.skip(p as int), cid@) == Some(
                    TokenParse {
                        name: t.0@,
                        page: t.1@,
                        anchor: opt_chars_view(t.2),
                        end: t.3 - p,
                    },
                )
            },
            None => parse_token(s@.skip(p as int), cid@) is None,
        },
{
    let ghost s0 = s@.skip(p as int);
    let n = s.len();
    if s[p] != '[' {
        return None;
    }
    proof {
        assert(s0[0] == s@[p as int]);
    }
    let j1 = find_close_bracket(s, p + 1);
    proof {
        assert(s@.skip(p + 1) =~= s0.skip(1));
    }
    if j1 == n {
        assert(1 + first_where(s0.skip(1), close_bracket_p()) == s0.len());
        return None;
    }
    let name = copy_range(s, p + 1, j1);
    proof {
        assert(name@ =~= s0.subrange(1, 1 + (j1 - (p + 1))));
    }
    if !(n - j1 > 2 && s[j1 + 1] == '(' && s[j1 + 2] == '^') {
        proof {
            let qq = 2 + (j1 - (p + 1));
            if qq + 1 < s0.len() {
                assert(s0[qq] == s@[p + qq]);
                assert(s0[qq + 1] == s@[p + qq + 1]);
            }
        }
        return None;
    }
    proof {
        let qq = 2 + (j1 - (p + 1));
        assert(s0[qq] == s@[p + qq]);
        assert(s0[qq + 1] == s@[p + qq + 1]);
    }
    let r0 = j1 + 3;
    let cl = cid.len();
    if n - r0 < cl {
        proof {
            assert((r0 - p) + cid@.len() > s0.len());
        }
        return None;
    }
    // compare the corpus id
    let mut k: usize = 0;
    while k < cl
        invariant
            k <= cl,
            cl == cid@.len(),
            r0 + cl <= n,
            n == s@.len(),
            p < r0,
            forall|m: int| 0 <= m < k ==> s@[r0 + m] == cid@[m],
        decreases cl - k,
    {
        if s[r0 + k] != cid[k] {
            proof {
                let rr = r0 - p;
                assert(rr + cid@.len() <= s0.len());
                if s0.subrange(rr as int, rr + cid@.len()) == cid@ {
                    assert(s0.subrange(rr as int, rr + cid@.len())[k as int] == cid@[k as int]);
                    assert(s0[rr + k as int] == s@[r0 + k]);
                }
            }
            return None;
        }
        k = k + 1;
    }
    proof {
        let rr = r0 - p;
        assert(s0.subrange(rr as int, rr + cid@.len()) =~= cid@);
    }
    let t0 = r0 + cl;
    if !(t0 < n && s[t0] == ':') {
        proof {
            if t0 < n {
                assert(s0[t0 - p] == s@[t0 as int]);
            }
        }
        return None;
    }
    proof {
        assert(s0[t0 - p] == s@[t0 as int]);
    }
    let u = t0 + 1;
    let j2 = find_page_end(s, u);
    proof {
        assert(s@.skip(u as int) =~= s0.skip(u - p));
    }
    if j2 == n {
        return None;
    }
    let page = copy_range(s, u, j2);
    proof {
        assert(page@ =~= s0.subrange(u - p, (u - p) + (j2 - u)));
        assert(s0[j2 - p] == s@[j2 as int]);
    }
    if s[j2] == ')' {
        return Some((name, page, None, j2 + 1));
    }
    // an anchor: `#` then at least one digit, then `)`
    let v = j2 + 1;
    let j3 = find_non_digit(s, v);
    proof {
        assert(s@.skip(v as int) =~= s0.skip(v - p));
    }
    if j3 == v || j3 == n {
        return None;
    }
    if s[j3] != ')' {
        proof {
            assert(s0[j3 - p] == s@[j3 as int]);
        }
        return None;
    }
    proof {
        assert(s0[j3 - p] == s@[j3 as int]);
    }
    let digits = copy_range(s, v, j3);
    proof {
        assert(digits@ =~= s0.subrange(v - p, (v - p) + (j3 - v)));
    }
    Some((name, page, Some(digits), j3 + 1))
}

/// Rewrites every cross-reference token of `content` into a relative link,
/// in one pass: the display text is kept, the target id (the last segment of
/// the token's target path) is looked up in the index, the indexed path is
/// made relative to the current document's directory, and the anchor is kept
/// when present. An id absent from the index yields an empty path component.
#[verifier::loop_isolation(false)]
#[verifier::rlimit(100)]
pub fn resolve_links(content: &str, current_path: &str, corpus_id: &str, index: &PageIndex) -> (r:
    String)
    requires
        index.wf(),
    ensures
        r@ == resolve_all(
            content@,
            corpus_id@,
            crate::text::dir_part(current_path@, '/'),
            *index,
        ),
{
    let s = str_to_chars(content);
    let cid = str_to_chars(corpus_id);
    let cur = str_to_chars(current_path);
    let dir: Vec<char> = match find_last(&cur, '/') {
        Some(i) => copy_range(&cur, 0, i),
        None => Vec::new(),
    };
    proof {
        crate::text::lemma_last_index_of(cur@, '/');
        assert(dir@ =~= crate::text::dir_part(current_path@, '/'));
    }
    let dir_s = chars_to_string(&dir);
    let mut out: Vec<char> = Vec::new();
    let mut p: usize = 0;
    let n = s.len();
    proof {
        assert(s@.skip(0) =~= s@);
    }
    while p < n
        invariant
            p <= n,
            n == s@.len(),
            s@ == content@,
            cid@ == corpus_id@,
            dir_s@ == dir@,
            index.wf(),
            out@ + resolve_all(s@.skip(p as int), cid@, dir@, *index) == resolve_all(
                s@,
                cid@,
                dir@,
                *index,
            ),
        decreases n - p,
    {
        let ghost suffix = s@.skip(p as int);
        match try_token(&s, p, &cid) {
            Some((name, page, anchor, end)) => {
                let ghost tok = TokenParse {
                    name: name@,
                    page: page@,
                    anchor: opt_chars_view(anchor),
                    end: end - p,
                };
                let ghost old_out = out@;
                out.push('[');
                append_chars(&mut out, &name);
                out.push(']');
                out.push('(');
                // the path component
                let plen = page.len();
                let id_start = match find_last(&page, '/') {
                    Some(i) => i + 1,
                    None => 0,
                };
                proof {
                    crate::text::lemma_last_index_of(page@, '/');
                    assert(page@.skip(id_start as int) =~= last_segment(page@, '/'));
                }
                let id_vec = copy_range(&page, id_start, plen);
                proof {
                    assert(id_vec@ =~= page@.skip(id_start as int));
                }
                let id_s = chars_to_string(&id_vec);
                match index.lookup(id_s.as_str()) {
                    Some(path) => {
                        match relative_slash_path(path.as_str(), dir_s.as_str()) {
                            Some(rel) => {
                                let rel_v = str_to_chars(rel.as_str());
                                append_chars(&mut out, &rel_v);
                            },
                            None => {},
                        }
                    },
                    None => {},
                }
                proof {
                    assert(out@ =~= old_out + seq!['['] + tok.name + seq![']', '('] + path_part(
                        tok.page,
                        dir@,
                        *index,
                    ));
                }
                match &anchor {
                    Some(d) => {
                        out.push('#');
                        append_chars(&mut out, d);
                    },
                    None => {},
                }
                out.push(')');
                proof {
                    assert(out@ =~= old_out + replacement(tok, dir@, *index));
                    assert(s@.skip(end as int) =~= suffix.skip(tok.end));
                    assert(resolve_all(suffix, cid@, dir@, *index) == replacement(
                        tok,
                        dir@,
                        *index,
                    ) + resolve_all(suffix.skip(tok.end), cid@, dir@, *index));
                    assert(old_out + (replacement(tok, dir@, *index) + resolve_all(
                        s@.skip(end as int),
                        cid@,
                        dir@,
                        *index,
                    )) =~= out@ + resolve_all(s@.skip(end as int), cid@, dir@, *index));
                }
                p = end;
            },
            None => {
                out.push(s[p]);
                proof {
                    assert(s@.skip(p + 1) =~= suffix.skip(1));
                    assert(suffix[0] == s@[p as int]);
                    assert(resolve_all(suffix, cid@, dir@, *index) == seq![s@[p as int]]
                        + resolve_all(suffix.skip(1), cid@, dir@, *index));
                    assert(out@ + resolve_all(s@.skip(p + 1), cid@, dir@, *index) =~= (out@.drop_last()
                        + resolve_all(suffix, cid@, dir@, *index)));
                }
                p = p + 1;
            },
        }
    }
    proof {
        assert(s@.skip(n as int) =~= Seq::<char>::empty());
        assert(out@ + Seq::<char>::empty() =~= out@);
    }
    chars_to_string(&out)
}

/// A rewritten link does not itself parse as a cross-reference token, for
/// any corpus id: its display text (which, parsed, holds no `]`) is followed
/// by `](` and then the path component or, when that is empty, `#` or `)` —
/// never the `^` that the token grammar demands. The one exception this
/// statement leaves out is an indexed path that itself begins with `^`.
pub proof fn lemma_replacement_no_token(
    tok: TokenParse,
    cur_dir: Seq<char>,
    idx: PageIndex,
    cid: Seq<char>,
    rest: Seq<char>,
)
    requires
        forall|k: int| 0 <= k < tok.name.len() ==> tok.name[k] != ']',
        ({
            let pp = path_part(tok.page, cur_dir, idx);
            pp.len() == 0 || pp[0] != '^'
        }),
    ensures
        parse_token(replacement(tok, cur_dir, idx) + rest, cid) is None,
{
    let pp = path_part(tok.page, cur_dir, idx);
    let ap = anchor_part(tok.anchor);
    let s = replacement(tok, cur_dir, idx) + rest;
    let nl = tok.name.len() as int;
    assert(s[0] == '[');
    assert forall|k: int| 0 <= k < nl implies !close_bracket_p()(#[trigger] s.skip(1)[k]) by {
        assert(s.skip(1)[k] == s[1 + k]);
        assert(s[1 + k] == tok.name[k]);
    }
    assert(s[1 + nl] == ']');
    assert(s.skip(1)[nl] == s[1 + nl]);
    assert(close_bracket_p()(s.skip(1)[nl]));
    lemma_first_where_unique(s.skip(1), close_bracket_p(), nl);
    assert(s[2 + nl] == '(');
    if pp.len() == 0 {
        match tok.anchor {
            Some(d) => {
                assert(s[3 + nl] == '#');
            },
            None => {
                assert(s[3 + nl] == ')');
            },
        }
    } else {
        assert(s[3 + nl] == pp[0]);
    }
    assert(s[3 + nl] != '^');
}

/// A token whose target id is absent from the index still resolves, to a
/// link whose path component is empty.
pub proof fn lemma_unresolved_empty_path(tok: TokenParse, cur_dir: Seq<char>, idx: PageIndex)
    requires
        !idx.contains_id(last_segment(tok.page, '/')),
    ensures
        replacement(tok, cur_dir, idx) == seq!['['] + tok.name + seq![']', '('] + anchor_part(
            tok.anchor,
        ) + seq![')'],
{
    assert(path_part(tok.page, cur_dir, idx) == Seq::<char>::empty());
    assert(replacement(tok, cur_dir, idx) =~= seq!['['] + tok.name + seq![']', '('] + anchor_part(
        tok.anchor,
    ) + seq![')']);
}

} // verus!
