use crate::events::{
    events_of, models, parse_events, render_events, render_of, render_ok, EvModel, MdEvent,
};
use crate::text::{chars_to_string, dec_digits, push_dec};
use vstd::prelude::*;
use vstd::string::*;

verus! {

/// The page-break sentinel: an isolated text run of exactly these five
/// characters.
pub open spec fn sentinel_chars() -> Seq<char> {
    seq![';', ';', ';', ';', ';']
}

/// A text event equal to the sentinel, with no partial or substring matches.
pub open spec fn is_sentinel(m: EvModel) -> bool {
    m matches EvModel::Text(t) && t == sentinel_chars()
}

/// The anchor marker carrying the 1-based page number `n`.
pub open spec fn anchor_chars(n: nat) -> Seq<char> {
    seq!['<', 'a', ' ', 'i', 'd', '=', '"'] + dec_digits(n) + seq!['"', '>', '<', '/', 'a', '>']
}

/// How many sentinels an event sequence holds.
pub open spec fn sentinel_ct(ms: Seq<EvModel>) -> nat
    decreases ms.len(),
{
    if ms.len() == 0 {
        0
    } else {
        sentinel_ct(ms.drop_last()) + (if is_sentinel(ms.last()) {
            1nat
        } else {
            0nat
        })
    }
}

/// The event sequence with each sentinel replaced by an anchor marker whose
/// number counts the sentinels encountered up to it, starting at 1; every
/// other event is unchanged.
pub open spec fn anchored(ms: Seq<EvModel>) -> Seq<EvModel> {
    Seq::new(
        ms.len(),
        |i: int|
            if is_sentinel(ms[i]) {
                EvModel::InlineHtml(anchor_chars(sentinel_ct(ms.take(i)) + 1))
            } else {
                ms[i]
            },
    )
}

fn is_sentinel_exec(e: &MdEvent) -> (b: bool)
    ensures
        b == is_sentinel(e@),
{
    match e {
        MdEvent::Text(t) => {
            proof {
                reveal_strlit(";;;;;");
                assert(";;;;;"@ =~= sentinel_chars());
            }
            t.eq(&String::from_str(";;;;;"))
        },
        _ => false,
    }
}

/// Builds the anchor marker text for page number `n`.
fn anchor_string(n: u64) -> (r: String)
    ensures
        r@ == anchor_chars(n as nat),
{
    let mut v: Vec<char> = Vec::new();
    v.push('<');
    v.push('a');
    v.push(' ');
    v.push('i');
    v.push('d');
    v.push('=');
    v.push('"');
    assert(v@ =~= seq!['<', 'a', ' ', 'i', 'd', '=', '"']);
    push_dec(&mut v, n);
    v.push('"');
    v.push('>');
    v.push('<');
    v.push('/');
    v.push('a');
    v.push('>');
    assert(v@ =~= anchor_chars(n as nat));
    chars_to_string(&v)
}

/// Replaces each sentinel text event by its numbered anchor marker.
pub fn insert_anchor_events(events: Vec<MdEvent>) -> (r: Vec<MdEvent>)
    ensures
        models(r@) == anchored(models(events@)),
{
    let ghost evs = events@;
    let ghost ms = models(events@);
    let n = events.len();
    let mut rest = events;
    let mut out: Vec<MdEvent> = Vec::new();
    let mut count: usize = 0;
    let mut k: usize = 0;
    assert(models(out@) =~= anchored(ms).take(0));
    assert(ms.take(0) =~= Seq::<EvModel>::empty());
    while rest.len() > 0
        invariant
            k + rest@.len() == n,
            n == evs.len(),
            ms == models(evs),
            ms.len() == n,
            rest@ == evs.skip(k as int),
            count == sentinel_ct(ms.take(k as int)),
            count <= k <= n,
            models(out@) == anchored(ms).take(k as int),
        decreases rest@.len(),
    {
        let e = rest.remove(0);
        proof {
            assert(evs.skip(k as int)[0] == evs[k as int]);
            assert(evs.skip(k as int).remove(0) =~= evs.skip(k + 1));
            assert(e@ == ms[k as int]);
            assert(ms.take(k + 1).drop_last() =~= ms.take(k as int));
            assert(ms.take(k + 1).last() == ms[k as int]);
        }
        let ghost old_out = out@;
        if is_sentinel_exec(&e) {
            let a = anchor_string((count as u64) + 1);
            out.push(MdEvent::InlineHtml(a));
            count = count + 1;
        } else {
            out.push(e);
        }
        proof {
            assert(models(out@) =~= models(old_out).push(out@.last()@));
            assert(anchored(ms).take(k + 1) =~= anchored(ms).take(k as int).push(
                anchored(ms)[k as int],
            ));
        }
        k = k + 1;
    }
    proof {
        assert(anchored(ms).take(n as int) =~= anchored(ms));
    }
    out
}

/// Rewrites each page-break sentinel of the content into a sequentially
/// numbered anchor marker, re-serializing the document's structural events;
/// `None` exactly when the serializer refuses the rewritten event sequence.
pub fn insert_anchors(content: &str) -> (r: Option<String>)
    ensures
        r is Some <==> render_ok(anchored(events_of(content@))),
        r matches Some(s) ==> s@ == render_of(anchored(events_of(content@))),
{
    let events = parse_events(content);
    let replaced = insert_anchor_events(events);
    render_events(&replaced)
}

/// Anchor insertion on content with zero sentinels is a no-op on the event
/// sequence: the result is exactly the stable re-serialization of the input.
pub proof fn lemma_anchor_noop(ms: Seq<EvModel>)
    requires
        forall|i: int| 0 <= i < ms.len() ==> !is_sentinel(ms[i]),
    ensures
        anchored(ms) == ms,
{
    assert(anchored(ms) =~= ms);
}

/// The count of sentinels in a prefix never exceeds the count in the whole.
pub proof fn lemma_sentinel_ct_take(ms: Seq<EvModel>, i: int)
    requires
        0 <= i <= ms.len(),
    ensures
        sentinel_ct(ms.take(i)) <= sentinel_ct(ms),
    decreases ms.len() - i,
{
    if i == ms.len() {
        assert(ms.take(i) =~= ms);
    } else {
        assert(ms.take(i + 1).drop_last() =~= ms.take(i));
        assert(ms.take(i + 1).last() == ms[i]);
        lemma_sentinel_ct_take(ms, i + 1);
    }
}

/// A document with exactly `sentinel_ct(ms)` sentinels yields that many
/// anchors, numbered in encountered order: the sentinel at position `i`
/// becomes the anchor numbered one more than the sentinels before it, and
/// that number is between 1 and the total count.
pub proof fn lemma_anchor_numbering(ms: Seq<EvModel>, i: int)
    requires
        0 <= i < ms.len(),
        is_sentinel(ms[i]),
    ensures
        anchored(ms)[i] == EvModel::InlineHtml(anchor_chars(sentinel_ct(ms.take(i)) + 1)),
        1 <= sentinel_ct(ms.take(i)) + 1 <= sentinel_ct(ms),
{
    assert(ms.take(i + 1).drop_last() =~= ms.take(i));
    assert(ms.take(i + 1).last() == ms[i]);
    lemma_sentinel_ct_take(ms, i + 1);
}

} // verus!
