use crate::events::{models, parse_events, render_events, EvModel, MdEvent};
use crate::events::{events_of, render_of, render_ok};
use crate::json::{json_root, parse_json, value_as_str, value_as_u64, value_get, JVal};
use crate::text::{first_where, lemma_first_where_none, lemma_first_where_unique};
use crate::MetaError;
use vstd::prelude::*;
use vstd::string::*;

verus! {

/// The metadata every renderable document must carry.
#[derive(Debug)]
pub struct PageMetadata {
    pub title: String,
}

/// The metadata of a category document.
#[derive(Debug)]
pub struct CategoryMetadata {
    pub title: String,
    pub icon: Option<String>,
    pub ordinal: Option<u32>,
    pub parent: Option<String>,
}

/// The metadata of an entry document.
#[derive(Debug)]
pub struct EntryMetadata {
    pub title: String,
    pub icon: Option<String>,
    pub ordinal: Option<u32>,
    pub category: Option<String>,
}

/// The start of a fenced code block tagged as the metadata language.
pub open spec fn is_json_start(m: EvModel) -> bool {
    m matches EvModel::CodeBlockStart(Some(l)) && l == "json"@
}

pub open spec fn is_block_end(m: EvModel) -> bool {
    m is CodeBlockEnd
}

pub open spec fn json_start_p() -> spec_fn(EvModel) -> bool {
    |m: EvModel| is_json_start(m)
}

pub open spec fn block_end_p() -> spec_fn(EvModel) -> bool {
    |m: EvModel| is_block_end(m)
}

/// The index of the first metadata-block start; `ms.len()` if there is none.
pub open spec fn meta_start(ms: Seq<EvModel>) -> int {
    first_where(ms, json_start_p())
}

/// The index of the metadata block's end event; `ms.len()` if the block is
/// never closed.
pub open spec fn meta_end(ms: Seq<EvModel>) -> int {
    meta_start(ms) + 1 + first_where(ms.skip(meta_start(ms) + 1), block_end_p())
}

pub open spec fn has_meta_block(ms: Seq<EvModel>) -> bool {
    meta_start(ms) < ms.len()
}

/// The concatenated text runs of an event sequence.
pub open spec fn texts_concat(ms: Seq<EvModel>) -> Seq<char>
    decreases ms.len(),
{
    if ms.len() == 0 {
        Seq::empty()
    } else {
        texts_concat(ms.drop_last()) + (match ms.last() {
            EvModel::Text(t) => t,
            _ => Seq::empty(),
        })
    }
}

/// The verbatim text of the first metadata block.
pub open spec fn captured_text(ms: Seq<EvModel>) -> Seq<char> {
    texts_concat(ms.subrange(meta_start(ms) + 1, meta_end(ms)))
}

/// The event sequence with the first metadata block removed entirely: the
/// events before its start, then the events after its end, all unchanged and
/// in original order.
pub open spec fn stripped(ms: Seq<EvModel>) -> Seq<EvModel> {
    if !has_meta_block(ms) {
        ms
    } else if meta_end(ms) == ms.len() {
        ms.take(meta_start(ms))
    } else {
        ms.take(meta_start(ms)) + ms.skip(meta_end(ms) + 1)
    }
}

fn is_json_start_exec(e: &MdEvent) -> (b: bool)
    ensures
        b == is_json_start(e@),
{
    match e {
        MdEvent::CodeBlockStart(Some(l)) => l.eq(&String::from_str("json")),
        _ => false,
    }
}

/// What `strip_events` has kept after the first `k` events, given the block
/// boundaries `i` and `j`.
spec fn stripped_prefix(ms: Seq<EvModel>, i: int, j: int, k: int) -> Seq<EvModel> {
    if k <= i {
        ms.take(k)
    } else if k <= j + 1 {
        ms.take(i)
    } else {
        ms.take(i) + ms.subrange(j + 1, k)
    }
}

/// Removes the first metadata block from the event sequence, returning its
/// captured text (`None` when no block exists) beside the remaining events.
pub fn strip_events(events: Vec<MdEvent>) -> (r: (Option<String>, Vec<MdEvent>))
    ensures
        ({
            let ms = models(events@);
            &&& r.0 is Some <==> has_meta_block(ms)
            &&& models(r.1@) == stripped(ms)
            &&& r.0 matches Some(c) ==> c@ == captured_text(ms)
        }),
{
    let ghost ms = models(events@);
    let n = events.len();
    assert(ms.len() == n);

    // find the first metadata-block start
    let mut i: usize = 0;
    while i < n
        invariant
            i <= n,
            n == events@.len(),
            ms == models(events@),
            forall|k: int| 0 <= k < i ==> !is_json_start(ms[k]),
        ensures
            i <= n,
            forall|k: int| 0 <= k < i ==> !is_json_start(ms[k]),
            i == n || is_json_start(ms[i as int]),
        decreases n - i,
    {
        assert(ms[i as int] == events@[i as int]@);
        if is_json_start_exec(&events[i]) {
            break ;
        }
        i = i + 1;
    }

    if i == n {
        proof {
            assert forall|k: int| 0 <= k < ms.len() implies !json_start_p()(ms[k]) by {
                assert(!is_json_start(ms[k]));
            }
            lemma_first_where_none(ms, json_start_p());
        }
        return (None, events);
    }
    proof {
        assert(json_start_p()(ms[i as int]));
        assert forall|k: int| 0 <= k < i implies !json_start_p()(ms[k]) by {
            assert(!is_json_start(ms[k]));
        }
        lemma_first_where_unique(ms, json_start_p(), i as int);
    }

    // collect the block's text and find its end
    let mut j: usize = i + 1;
    let mut cap = String::new();
    let mut found_end = false;
    proof {
        assert(ms.subrange(i + 1, i + 1) =~= Seq::<EvModel>::empty());
    }
    while j < n
        invariant_except_break
            !found_end,
        invariant
            i + 1 <= j <= n,
            n == events@.len(),
            ms == models(events@),
            forall|k: int| i + 1 <= k < j ==> !is_block_end(ms[k]),
            cap@ == texts_concat(ms.subrange(i + 1, j as int)),
        ensures
            i + 1 <= j <= n,
            forall|k: int| i + 1 <= k < j ==> !is_block_end(ms[k]),
            cap@ == texts_concat(ms.subrange(i + 1, j as int)),
            found_end ==> j < n && is_block_end(ms[j as int]),
            !found_end ==> j == n,
        decreases n - j,
    {
        assert(ms[j as int] == events@[j as int]@);
        match &events[j] {
            MdEvent::CodeBlockEnd => {
                proof {
                    assert(is_block_end(ms[j as int]));
                }
                found_end = true;
            },
            MdEvent::Text(t) => {
                cap.append(t.as_str());
                proof {
                    assert(ms.subrange(i + 1, j + 1).drop_last() =~= ms.subrange(i + 1, j as int));
                    assert(ms.subrange(i + 1, j + 1).last() == ms[j as int]);
                }
            },
            _ => {
                proof {
                    assert(ms.subrange(i + 1, j + 1).drop_last() =~= ms.subrange(i + 1, j as int));
                    assert(ms.subrange(i + 1, j + 1).last() == ms[j as int]);
                }
            },
        }
        if found_end {
            break ;
        }
        j = j + 1;
    }

    proof {
        if j == n {
            assert forall|k: int| 0 <= k < ms.skip(i + 1).len() implies !block_end_p()(
                #[trigger] ms.skip(i + 1)[k],
            ) by {
                assert(ms.skip(i + 1)[k] == ms[i + 1 + k]);
            }
            lemma_first_where_none(ms.skip(i + 1), block_end_p());
        } else {
            assert(ms.skip(i + 1)[j - i - 1] == ms[j as int]);
            assert forall|k: int| 0 <= k < j - i - 1 implies !block_end_p()(
                #[trigger] ms.skip(i + 1)[k],
            ) by {
                assert(ms.skip(i + 1)[k] == ms[i + 1 + k]);
            }
            lemma_first_where_unique(ms.skip(i + 1), block_end_p(), j - i - 1);
        }
        assert(meta_end(ms) == j as int);
    }

    // rebuild the document without the block
    let ghost evs = events@;
    let mut rest = events;
    let mut out: Vec<MdEvent> = Vec::new();
    let mut k: usize = 0;
    assert(models(out@) =~= stripped_prefix(ms, i as int, j as int, 0));
    while rest.len() > 0
        invariant
            k + rest@.len() == n,
            n == evs.len(),
            ms == models(evs),
            rest@ == evs.skip(k as int),
            i < n,
            i + 1 <= j <= n,
            models(out@) == stripped_prefix(ms, i as int, j as int, k as int),
        decreases rest@.len(),
    {
        let e = rest.remove(0);
        proof {
            assert(evs.skip(k as int)[0] == evs[k as int]);
            assert(evs.skip(k as int).remove(0) =~= evs.skip(k + 1));
            assert(e@ == ms[k as int]);
        }
        if k < i || k > j {
            let ghost old_out = out@;
            out.push(e);
            proof {
                assert(models(old_out.push(e)) =~= models(old_out).push(e@));
                if k < i {
                    assert(ms.take(k + 1) =~= ms.take(k as int).push(ms[k as int]));
                } else {
                    assert(ms.subrange(j + 1, k + 1) =~= ms.subrange(j + 1, k as int).push(
                        ms[k as int],
                    ));
                    assert(stripped_prefix(ms, i as int, j as int, k + 1) =~= stripped_prefix(
                        ms,
                        i as int,
                        j as int,
                        k as int,
                    ).push(ms[k as int]));
                }
            }
        }
        k = k + 1;
    }
    proof {
        assert(k == n);
        if j < n {
            assert(ms.subrange(j + 1, n as int) =~= ms.skip(j + 1));
            assert(models(out@) =~= stripped(ms));
        } else {
            assert(models(out@) =~= stripped(ms));
        }
    }
    (Some(cap), out)
}

/// A metadata object that holds the required string `title`.
pub open spec fn title_ok(m: Map<Seq<char>, JVal>) -> bool {
    m.dom().contains("title"@) && m["title"@] is JStr
}

/// An optional field that, when present, is a string.
pub open spec fn opt_str_ok(m: Map<Seq<char>, JVal>, key: Seq<char>) -> bool {
    m.dom().contains(key) ==> m[key] is JStr
}

/// An optional field that, when present, is an integer ordinal.
pub open spec fn opt_ord_ok(m: Map<Seq<char>, JVal>) -> bool {
    m.dom().contains("ordinal"@) ==> (m["ordinal"@] matches JVal::JNum(n) && n <= u32::MAX)
}

pub open spec fn page_meta_ok(r: Option<Map<Seq<char>, JVal>>) -> bool {
    r matches Some(m) && title_ok(m)
}

pub open spec fn category_meta_ok(r: Option<Map<Seq<char>, JVal>>) -> bool {
    r matches Some(m) && title_ok(m) && opt_str_ok(m, "icon"@) && opt_ord_ok(m) && opt_str_ok(
        m,
        "parent"@,
    )
}

pub open spec fn entry_meta_ok(r: Option<Map<Seq<char>, JVal>>) -> bool {
    r matches Some(m) && title_ok(m) && opt_str_ok(m, "icon"@) && opt_ord_ok(m) && opt_str_ok(
        m,
        "category"@,
    )
}

/// The required title field, as parsed.
pub open spec fn title_of(m: Map<Seq<char>, JVal>, t: Seq<char>) -> bool {
    m["title"@] == JVal::JStr(t)
}

/// An optional string field, as parsed: present exactly when the object
/// declares it, with the declared characters.
pub open spec fn opt_str_of(m: Map<Seq<char>, JVal>, key: Seq<char>, v: Option<String>) -> bool {
    match v {
        Some(s) => m.dom().contains(key) && m[key] == JVal::JStr(s@),
        None => !m.dom().contains(key),
    }
}

/// The optional ordinal field, as parsed.
pub open spec fn opt_ord_of(m: Map<Seq<char>, JVal>, v: Option<u32>) -> bool {
    match v {
        Some(o) => m.dom().contains("ordinal"@) && m["ordinal"@] == JVal::JNum(o as u64),
        None => !m.dom().contains("ordinal"@),
    }
}

/// Parses the required title out of a metadata text.
pub fn parse_page_metadata(s: &str) -> (r: Result<PageMetadata, MetaError>)
    ensures
        r is Ok <==> page_meta_ok(json_root(s@)),
        r matches Ok(m) ==> title_of(json_root(s@).unwrap(), m.title@),
        r is Err ==> r == Err::<PageMetadata, MetaError>(MetaError::MetadataInvalid),
{
    let v = match parse_json(s) {
        None => {
            return Err(MetaError::MetadataInvalid);
        },
        Some(v) => v,
    };
    let title = match get_str_field(&v, "title") {
        Err(e) => {
            return Err(e);
        },
        Ok(None) => {
            return Err(MetaError::MetadataInvalid);
        },
        Ok(Some(t)) => t,
    };
    Ok(PageMetadata { title })
}

/// Reads an optional string field; `Err` when the field is present but not a
/// string.
fn get_str_field(v: &serde_json::Value, key: &str) -> (r: Result<Option<String>, MetaError>)
    ensures
        r is Ok <==> opt_str_ok(crate::json::json_fields(*v), key@),
        r matches Ok(o) ==> opt_str_of(crate::json::json_fields(*v), key@, o),
        r is Err ==> r == Err::<Option<String>, MetaError>(MetaError::MetadataInvalid),
{
    match value_get(v, key) {
        None => Ok(None),
        Some(f) => match value_as_str(&f) {
            None => Err(MetaError::MetadataInvalid),
            Some(s) => Ok(Some(s)),
        },
    }
}

/// Reads the optional ordinal field; `Err` when it is present but not an
/// integer that fits the ordinal range.
fn get_ord_field(v: &serde_json::Value) -> (r: Result<Option<u32>, MetaError>)
    ensures
        r is Ok <==> opt_ord_ok(crate::json::json_fields(*v)),
        r matches Ok(o) ==> opt_ord_of(crate::json::json_fields(*v), o),
        r is Err ==> r == Err::<Option<u32>, MetaError>(MetaError::MetadataInvalid),
{
    match value_get(v, "ordinal") {
        None => Ok(None),
        Some(f) => match value_as_u64(&f) {
            None => Err(MetaError::MetadataInvalid),
            Some(n) => {
                if n <= 0xffff_ffff {
                    Ok(Some(n as u32))
                } else {
                    Err(MetaError::MetadataInvalid)
                }
            },
        },
    }
}

/// Parses a category document's metadata text.
pub fn parse_category_metadata(s: &str) -> (r: Result<CategoryMetadata, MetaError>)
    ensures
        r is Ok <==> category_meta_ok(json_root(s@)),
        r matches Ok(m) ==> ({
            let f = json_root(s@).unwrap();
            &&& title_of(f, m.title@)
            &&& opt_str_of(f, "icon"@, m.icon)
            &&& opt_ord_of(f, m.ordinal)
            &&& opt_str_of(f, "parent"@, m.parent)
        }),
        r is Err ==> r == Err::<CategoryMetadata, MetaError>(MetaError::MetadataInvalid),
{
    let v = match parse_json(s) {
        None => {
            return Err(MetaError::MetadataInvalid);
        },
        Some(v) => v,
    };
    let title = match get_str_field(&v, "title") {
        Err(e) => {
            return Err(e);
        },
        Ok(None) => {
            return Err(MetaError::MetadataInvalid);
        },
        Ok(Some(t)) => t,
    };
    let icon = match get_str_field(&v, "icon") {
        Err(e) => {
            return Err(e);
        },
        Ok(o) => o,
    };
    let ordinal = match get_ord_field(&v) {
        Err(e) => {
            return Err(e);
        },
        Ok(o) => o,
    };
    let parent = match get_str_field(&v, "parent") {
        Err(e) => {
            return Err(e);
        },
        Ok(o) => o,
    };
    Ok(CategoryMetadata { title, icon, ordinal, parent })
}

/// Parses an entry document's metadata text.
pub fn parse_entry_metadata(s: &str) -> (r: Result<EntryMetadata, MetaError>)
    ensures
        r is Ok <==> entry_meta_ok(json_root(s@)),
        r matches Ok(m) ==> ({
            let f = json_root(s@).unwrap();
            &&& title_of(f, m.title@)
            &&& opt_str_of(f, "icon"@, m.icon)
            &&& opt_ord_of(f, m.ordinal)
            &&& opt_str_of(f, "category"@, m.category)
        }),
        r is Err ==> r == Err::<EntryMetadata, MetaError>(MetaError::MetadataInvalid),
{
    let v = match parse_json(s) {
        None => {
            return Err(MetaError::MetadataInvalid);
        },
        Some(v) => v,
    };
    let title = match get_str_field(&v, "title") {
        Err(e) => {
            return Err(e);
        },
        Ok(None) => {
            return Err(MetaError::MetadataInvalid);
        },
        Ok(Some(t)) => t,
    };
    let icon = match get_str_field(&v, "icon") {
        Err(e) => {
            return Err(e);
        },
        Ok(o) => o,
    };
    let ordinal = match get_ord_field(&v) {
        Err(e) => {
            return Err(e);
        },
        Ok(o) => o,
    };
    let category = match get_str_field(&v, "category") {
        Err(e) => {
            return Err(e);
        },
        Ok(o) => o,
    };
    Ok(EntryMetadata { title, icon, ordinal, category })
}

/// Extracts a document's metadata and removes the metadata block from its
/// content: the cleaned content is the re-serialization of the document's
/// structural events with the first metadata block taken out.
pub fn strip_metadata(content: &str) -> (r: Result<(PageMetadata, String), MetaError>)
    ensures
        ({
            let ms = events_of(content@);
            &&& r is Ok <==> (has_meta_block(ms) && page_meta_ok(json_root(captured_text(ms)))
                && render_ok(stripped(ms)))
            &&& (r == Err::<(PageMetadata, String), MetaError>(MetaError::MetadataMissing))
                <==> !has_meta_block(ms)
            &&& (r == Err::<(PageMetadata, String), MetaError>(MetaError::MetadataInvalid)) <==> (
            has_meta_block(ms) && !page_meta_ok(json_root(captured_text(ms))))
            &&& (r == Err::<(PageMetadata, String), MetaError>(MetaError::SerializeFailed)) <==> (
            has_meta_block(ms) && page_meta_ok(json_root(captured_text(ms))) && !render_ok(
                stripped(ms),
            ))
            &&& r matches Ok(p) ==> {
                &&& title_of(json_root(captured_text(ms)).unwrap(), p.0.title@)
                &&& p.1@ == render_of(stripped(ms))
            }
        }),
{
    let events = parse_events(content);
    let (cap, kept) = strip_events(events);
    let text = match cap {
        None => {
            return Err(MetaError::MetadataMissing);
        },
        Some(t) => t,
    };
    let meta = match parse_page_metadata(text.as_str()) {
        Err(_) => {
            return Err(MetaError::MetadataInvalid);
        },
        Ok(m) => m,
    };
    match render_events(&kept) {
        None => Err(MetaError::SerializeFailed),
        Some(cleaned) => Ok((meta, cleaned)),
    }
}

/// Extracts a category document's metadata.
pub fn extract_category_metadata(content: &str) -> (r: Result<CategoryMetadata, MetaError>)
    ensures
        ({
            let ms = events_of(content@);
            &&& r is Ok <==> (has_meta_block(ms) && category_meta_ok(json_root(captured_text(ms))))
            &&& (r == Err::<CategoryMetadata, MetaError>(MetaError::MetadataMissing)) <==> !has_meta_block(
                ms,
            )
            &&& (r == Err::<CategoryMetadata, MetaError>(MetaError::MetadataInvalid)) <==> (
            has_meta_block(ms) && !category_meta_ok(json_root(captured_text(ms))))
            &&& r matches Ok(m) ==> ({
                let f = json_root(captured_text(ms)).unwrap();
                &&& title_of(f, m.title@)
                &&& opt_str_of(f, "icon"@, m.icon)
                &&& opt_ord_of(f, m.ordinal)
                &&& opt_str_of(f, "parent"@, m.parent)
            })
        }),
{
    let events = parse_events(content);
    let (cap, _kept) = strip_events(events);
    match cap {
        None => Err(MetaError::MetadataMissing),
        Some(t) => parse_category_metadata(t.as_str()),
    }
}

/// Extracts an entry document's metadata.
pub fn extract_entry_metadata(content: &str) -> (r: Result<EntryMetadata, MetaError>)
    ensures
        ({
            let ms = events_of(content@);
            &&& r is Ok <==> (has_meta_block(ms) && entry_meta_ok(json_root(captured_text(ms))))
            &&& (r == Err::<EntryMetadata, MetaError>(MetaError::MetadataMissing)) <==> !has_meta_block(
                ms,
            )
            &&& (r == Err::<EntryMetadata, MetaError>(MetaError::MetadataInvalid)) <==> (
            has_meta_block(ms) && !entry_meta_ok(json_root(captured_text(ms))))
            &&& r matches Ok(m) ==> ({
                let f = json_root(captured_text(ms)).unwrap();
                &&& title_of(f, m.title@)
                &&& opt_str_of(f, "icon"@, m.icon)
                &&& opt_ord_of(f, m.ordinal)
                &&& opt_str_of(f, "category"@, m.category)
            })
        }),
{
    let events = parse_events(content);
    let (cap, _kept) = strip_events(events);
    match cap {
        None => Err(MetaError::MetadataMissing),
        Some(t) => parse_entry_metadata(t.as_str()),
    }
}

} // verus!
