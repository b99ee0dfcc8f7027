use vstd::prelude::*;

verus! {

/// An interval of text tagged with a style: the index of a highlight kind.
#[derive(Clone, Copy, Debug, PartialEq, Eq, Structural)]
pub struct StyleSpan {
    pub start: usize,
    pub end: usize,
    pub style: usize,
}

/// A change of a buffer sent to the highlight worker: a snapshot of its
/// text at revision `rev`, with the semantic token spans when a language
/// server supplied them.
#[derive(Clone, Debug)]
pub struct UpdateEvent {
    pub buffer_id: u64,
    pub rev: u64,
    pub language: Option<u32>,
    pub text: Vec<char>,
    pub tokens: Option<Vec<StyleSpan>>,
}

/// The style result that the worker publishes for one update.
#[derive(Clone, Debug)]
pub struct StyleUpdate {
    pub buffer_id: u64,
    pub rev: u64,
    pub spans: Vec<StyleSpan>,
    pub semantic: bool,
}

/// One step of a grammar highlighter's output: a run of source text, or
/// the start or end of a highlight kind around the runs that follow.
#[derive(Clone, Copy, Debug, PartialEq, Eq, Structural)]
pub enum HighlightEvent {
    Source { start: usize, end: usize },
    HighlightStart(usize),
    HighlightEnd,
}

/// Event `a` supersedes event `b` of the same buffer: a later revision, or
/// the same revision with semantic tokens where `b` has none.
pub open spec fn supersedes(a: UpdateEvent, b: UpdateEvent) -> bool {
    a.rev > b.rev || (a.rev == b.rev && a.tokens is Some && b.tokens is None)
}

/// No two events are for the same buffer.
pub open spec fn distinct_ids(us: Seq<UpdateEvent>) -> bool {
    forall|i: int, j: int| 0 <= i < j < us.len() ==> (#[trigger] us[i]).buffer_id != (#[trigger] us[j]).buffer_id
}

/// The pending updates after event `e` arrives: it replaces the pending
/// event of its buffer when it supersedes it, is dropped when it does not,
/// and is added when its buffer has none pending.
pub open spec fn insert_spec(us: Seq<UpdateEvent>, e: UpdateEvent) -> Seq<UpdateEvent> {
    if exists|k: int| 0 <= k < us.len() && (#[trigger] us[k]).buffer_id == e.buffer_id {
        let k = choose|k: int| 0 <= k < us.len() && (#[trigger] us[k]).buffer_id == e.buffer_id;
        if supersedes(e, us[k]) {
            us.update(k, e)
        } else {
            us
        }
    } else {
        us.push(e)
    }
}

/// A batch of events reduced to one per buffer, in order of arrival.
pub open spec fn coalesce_spec(es: Seq<UpdateEvent>) -> Seq<UpdateEvent>
    decreases es.len(),
{
    if es.len() == 0 {
        Seq::empty()
    } else {
        insert_spec(coalesce_spec(es.drop_last()), es.last())
    }
}

/// Adds event `e` to the pending updates, keeping one per buffer: the one
/// with the highest revision, semantic tokens winning at equal revisions.
pub fn insert_update(updates: &mut Vec<UpdateEvent>, e: UpdateEvent)
    requires
        distinct_ids(old(updates)@),
    ensures
        distinct_ids(final(updates)@),
        final(updates)@ == insert_spec(old(updates)@, e),
{
    let mut k: usize = 0;
    while k < updates.len()
        invariant
            k <= updates@.len(),
            updates@ == old(updates)@,
            distinct_ids(updates@),
            forall|j: int| 0 <= j < k ==> (#[trigger] updates@[j]).buffer_id != e.buffer_id,
        decreases updates@.len() - k,
    {
        if updates[k].buffer_id == e.buffer_id {
            let ghost us = updates@;
            assert forall|j: int| 0 <= j < us.len() && (#[trigger] us[j]).buffer_id == e.buffer_id implies j
                == k by {
                if j != k {
                    if j < k {
                        assert(us[j].buffer_id != us[k as int].buffer_id);
                    } else {
                        assert(us[k as int].buffer_id != us[j].buffer_id);
                    }
                }
            }
            let cur = &updates[k];
            let newer = e.rev > cur.rev || (e.rev == cur.rev && e.tokens.is_some()
                && cur.tokens.is_none());
            if newer {
                updates.set(k, e);
                assert forall|i: int, j: int| 0 <= i < j < updates@.len() implies (
                #[trigger] updates@[i]).buffer_id != (#[trigger] updates@[j]).buffer_id by {
                    if i != k && j != k {
                        assert(us[i].buffer_id != us[j].buffer_id);
                    }
                }
            }
            return;
        }
        k += 1;
    }
    let ghost us = updates@;
    updates.push(e);
    assert forall|i: int, j: int| 0 <= i < j < updates@.len() implies (
    #[trigger] updates@[i]).buffer_id != (#[trigger] updates@[j]).buffer_id by {
        if j < us.len() {
            assert(us[i].buffer_id != us[j].buffer_id);
        }
    }
}

proof fn lemma_insert_spec(us: Seq<UpdateEvent>, e: UpdateEvent)
    requires
        distinct_ids(us),
    ensures
        distinct_ids(insert_spec(us, e)),
        exists|k: int|
            0 <= k < insert_spec(us, e).len() && (#[trigger] insert_spec(us, e)[k]).buffer_id
                == e.buffer_id && !supersedes(e, insert_spec(us, e)[k]),
        forall|k: int|
            0 <= k < insert_spec(us, e).len() ==> #[trigger] insert_spec(us, e)[k] == e || (k < us.len()
                && insert_spec(us, e)[k] == us[k]),
        forall|j: int|
            0 <= j < us.len() ==> (#[trigger] insert_spec(us, e)[j] == us[j]) || (us[j].buffer_id
                == e.buffer_id && insert_spec(us, e)[j] == e && supersedes(e, us[j])),
        insert_spec(us, e).len() >= us.len(),
{
    let r = insert_spec(us, e);
    if exists|k: int| 0 <= k < us.len() && (#[trigger] us[k]).buffer_id == e.buffer_id {
        let k = choose|k: int| 0 <= k < us.len() && (#[trigger] us[k]).buffer_id == e.buffer_id;
        assert(r[k].buffer_id == e.buffer_id);
        assert forall|i: int, j: int| 0 <= i < j < r.len() implies (#[trigger] r[i]).buffer_id != (
        #[trigger] r[j]).buffer_id by {
            assert(us[i].buffer_id != us[j].buffer_id);
        }
    } else {
        assert(r[us.len() as int] == e);
        assert forall|i: int, j: int| 0 <= i < j < r.len() implies (#[trigger] r[i]).buffer_id != (
        #[trigger] r[j]).buffer_id by {
            if j < us.len() {
                assert(us[i].buffer_id != us[j].buffer_id);
            }
        }
    }
}

/// Every event of `es` is covered in `us` by an event of its buffer that
/// it does not supersede.
pub open spec fn covers(us: Seq<UpdateEvent>, es: Seq<UpdateEvent>) -> bool {
    forall|i: int|
        0 <= i < es.len() ==> exists|k: int|
            0 <= k < us.len() && (#[trigger] us[k]).buffer_id == (#[trigger] es[i]).buffer_id
                && !supersedes(es[i], us[k])
}

/// Every event of `us` came in `es`.
pub open spec fn drawn_from(us: Seq<UpdateEvent>, es: Seq<UpdateEvent>) -> bool {
    forall|k: int| 0 <= k < us.len() ==> exists|i: int| 0 <= i < es.len() && #[trigger] es[i] == #[trigger] us[k]
}

proof fn lemma_coalesce_step(pre: Seq<UpdateEvent>, us: Seq<UpdateEvent>, e: UpdateEvent)
    requires
        distinct_ids(us),
        covers(us, pre),
        drawn_from(us, pre),
    ensures
        covers(insert_spec(us, e), pre.push(e)),
        drawn_from(insert_spec(us, e), pre.push(e)),
{
    let r = insert_spec(us, e);
    let es = pre.push(e);
    lemma_insert_spec(us, e);
    assert forall|i: int| 0 <= i < es.len() implies exists|k: int|
        0 <= k < r.len() && (#[trigger] r[k]).buffer_id == (#[trigger] es[i]).buffer_id
            && !supersedes(es[i], r[k]) by {
        if i == pre.len() {
            assert(es[i] == e);
        } else {
            assert(es[i] == pre[i]);
            let k0 = choose|k: int|
                0 <= k < us.len() && (#[trigger] us[k]).buffer_id == (#[trigger] pre[i]).buffer_id
                    && !supersedes(pre[i], us[k]);
            assert(r[k0] == us[k0] || (r[k0] == e && supersedes(e, us[k0])));
            assert(r[k0].buffer_id == es[i].buffer_id && !supersedes(es[i], r[k0]));
        }
    }
    assert forall|k: int| 0 <= k < r.len() implies exists|i: int|
        0 <= i < es.len() && #[trigger] es[i] == #[trigger] r[k] by {
        if r[k] == e {
            assert(es[pre.len() as int] == r[k]);
        } else {
            assert(k < us.len() && r[k] == us[k]);
            let i0 = choose|i: int| 0 <= i < pre.len() && #[trigger] pre[i] == #[trigger] us[k];
            assert(es[i0] == pre[i0]);
        }
    }
}

/// The coalescing contract: after a batch is reduced, each buffer has one
/// event left, which came in the batch, and which no event of that buffer
/// in the batch supersedes.
pub proof fn lemma_coalesce_keeps_latest(es: Seq<UpdateEvent>)
    ensures
        distinct_ids(coalesce_spec(es)),
        covers(coalesce_spec(es), es),
        drawn_from(coalesce_spec(es), es),
    decreases es.len(),
{
    if es.len() > 0 {
        let pre = es.drop_last();
        lemma_coalesce_keeps_latest(pre);
        lemma_insert_spec(coalesce_spec(pre), es.last());
        lemma_coalesce_step(pre, coalesce_spec(pre), es.last());
        assert(pre.push(es.last()) =~= es);
    } else {
        assert(coalesce_spec(es) =~= Seq::<UpdateEvent>::empty());
    }
}

/// Reduces a batch of events to one per buffer, as `insert_update` would
/// one event after the other. This is no first-in first-out processing:
/// superseded events are never looked at.
pub fn coalesce(events: Vec<UpdateEvent>) -> (r: Vec<UpdateEvent>)
    ensures
        distinct_ids(r@),
        r@ == coalesce_spec(events@),
{
    let ghost es = events@;
    let n = events.len();
    let mut rest = events;
    let mut out: Vec<UpdateEvent> = Vec::new();
    let mut i: usize = 0;
    assert(es.subrange(0, 0) =~= Seq::<UpdateEvent>::empty());
    while rest.len() > 0
        invariant
            i <= es.len(),
            es.len() == n,
            rest@ == es.subrange(i as int, es.len() as int),
            distinct_ids(out@),
            out@ == coalesce_spec(es.subrange(0, i as int)),
        decreases rest@.len(),
    {
        let e = rest.remove(0);
        assert(e == es[i as int]);
        assert(es.subrange(0, i as int + 1).drop_last() =~= es.subrange(0, i as int));
        insert_update(&mut out, e);
        i += 1;
        assert(rest@ =~= es.subrange(i as int, es.len() as int));
    }
    assert(es.subrange(0, es.len() as int) =~= es);
    out
}

/// Spans from a grammar highlighter's events, with the highlight kind open
/// after them: each run of source text inside a highlight kind known to
/// the caller (below `n_kinds`) becomes a span of that kind.
pub open spec fn spans_of_events(evs: Seq<HighlightEvent>, n_kinds: usize) -> (
    Seq<StyleSpan>,
    Option<usize>,
)
    decreases evs.len(),
{
    if evs.len() == 0 {
        (Seq::empty(), None)
    } else {
        let (acc, cur) = spans_of_events(evs.drop_last(), n_kinds);
        match evs.last() {
            HighlightEvent::Source { start, end } => match cur {
                Some(h) => if h < n_kinds {
                    (acc.push(StyleSpan { start, end, style: h }), cur)
                } else {
                    (acc, cur)
                },
                None => (acc, cur),
            },
            HighlightEvent::HighlightStart(h) => (acc, Some(h)),
            HighlightEvent::HighlightEnd => (acc, None),
        }
    }
}

/// Style spans from a grammar highlighter's event stream.
pub fn spans_from_events(evs: &Vec<HighlightEvent>, n_kinds: usize) -> (r: Vec<StyleSpan>)
    ensures
        r@ == spans_of_events(evs@, n_kinds).0,
{
    let mut out: Vec<StyleSpan> = Vec::new();
    let mut cur: Option<usize> = None;
    let mut i: usize = 0;
    while i < evs.len()
        invariant
            i <= evs@.len(),
            (out@, cur) == spans_of_events(evs@.subrange(0, i as int), n_kinds),
        decreases evs@.len() - i,
    {
        assert(evs@.subrange(0, i as int + 1).drop_last() =~= evs@.subrange(0, i as int));
        match evs[i] {
            HighlightEvent::Source { start, end } => {
                match cur {
                    Some(h) => {
                        if h < n_kinds {
                            out.push(StyleSpan { start, end, style: h });
                        }
                    },
                    None => {},
                }
            },
            HighlightEvent::HighlightStart(h) => {
                cur = Some(h);
            },
            HighlightEvent::HighlightEnd => {
                cur = None;
            },
        }
        i += 1;
    }
    assert(evs@.subrange(0, evs@.len() as int) =~= evs@);
    out
}

/// Semantic tokens convert into style spans over a text of length `len`:
/// each is non-empty and ends within the text, and each ends at or before
/// the start of every later one.
pub open spec fn tokens_valid(ts: Seq<StyleSpan>, len: nat) -> bool {
    &&& forall|i: int| 0 <= i < ts.len() ==> (#[trigger] ts[i]).start < ts[i].end && ts[i].end <= len
    &&& forall|i: int, j: int| 0 <= i < j < ts.len() ==> (#[trigger] ts[i]).end <= (#[trigger] ts[j]).start
}

/// Style spans from semantic tokens: the tokens themselves when they
/// convert, none when they do not.
pub fn spans_from_tokens(ts: &Vec<StyleSpan>, len: usize) -> (r: Option<Vec<StyleSpan>>)
    ensures
        r is Some <==> tokens_valid(ts@, len as nat),
        r matches Some(v) ==> v@ == ts@,
{
    let mut out: Vec<StyleSpan> = Vec::new();
    let mut i: usize = 0;
    while i < ts.len()
        invariant
            i <= ts@.len(),
            out@ == ts@.subrange(0, i as int),
            tokens_valid(ts@.subrange(0, i as int), len as nat),
        decreases ts@.len() - i,
    {
        let t = ts[i];
        if !(t.start < t.end && t.end <= len) {
            assert(!tokens_valid(ts@, len as nat)) by {
                assert(ts@[i as int] == t);
            }
            return None;
        }
        if i > 0 && ts[i - 1].end > t.start {
            assert(!tokens_valid(ts@, len as nat)) by {
                assert(ts@[i as int - 1].end > ts@[i as int].start);
            }
            return None;
        }
        let ghost pre = ts@.subrange(0, i as int);
        out.push(t);
        i += 1;
        let ghost cur = ts@.subrange(0, i as int);
        assert forall|a: int, b: int| 0 <= a < b < cur.len() implies (#[trigger] cur[a]).end <= (
        #[trigger] cur[b]).start by {
            if b == cur.len() - 1 && a < b - 1 {
                assert(pre[a].end <= pre[b - 1].start);
                assert(pre[b - 1].start < pre[b - 1].end);
            }
            if b < cur.len() - 1 {
                assert(cur[a] == pre[a] && cur[b] == pre[b]);
            }
        }
        assert(out@ =~= cur);
    }
    assert(ts@.subrange(0, ts@.len() as int) =~= ts@);
    Some(out)
}

/// The style result for one update: its semantic tokens when it has
/// them, else the spans of `grammar_events`, the grammar highlighter's
/// output on the update's text. Tokens that do not convert give no result
/// this cycle.
pub fn style_update(e: &UpdateEvent, grammar_events: &Vec<HighlightEvent>, n_kinds: usize) -> (r:
    Option<StyleUpdate>)
    ensures
        match e.tokens {
            Some(ts) => if tokens_valid(ts@, e.text@.len()) {
                r matches Some(u) && u.buffer_id == e.buffer_id && u.rev == e.rev && u.semantic
                    && u.spans@ == ts@
            } else {
                r is None
            },
            None => r matches Some(u) && u.buffer_id == e.buffer_id && u.rev == e.rev && !u.semantic
                && u.spans@ == spans_of_events(grammar_events@, n_kinds).0,
        },
{
    match &e.tokens {
        Some(ts) => match spans_from_tokens(ts, e.text.len()) {
            Some(spans) => Some(StyleUpdate { buffer_id: e.buffer_id, rev: e.rev, spans, semantic: true }),
            None => None,
        },
        None => Some(
            StyleUpdate {
                buffer_id: e.buffer_id,
                rev: e.rev,
                spans: spans_from_events(grammar_events, n_kinds),
                semantic: false,
            },
        ),
    }
}

} // verus!
