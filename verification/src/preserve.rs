//! Every event keeps the state of the manager well-formed.

use crate::command::SinkId;
use crate::error::PlaybackError;
use crate::model::{EntryView, ManagerView, StartOutcome};
use vstd::prelude::*;

verus! {

/// Every element of a filtered sequence comes from a place of the
/// unfiltered one, and the places keep their order.
pub proof fn lemma_filter_places<A>(s: Seq<A>, p: spec_fn(A) -> bool) -> (places: Seq<int>)
    ensures
        places.len() == s.filter(p).len(),
        forall|a: int|
            0 <= a < places.len() ==> 0 <= #[trigger] places[a] < s.len() && s[places[a]]
                == s.filter(p)[a],
        forall|a: int, b: int|
            0 <= a < b < places.len() ==> #[trigger] places[a] < #[trigger] places[b],
        forall|i: int|
            0 <= i < s.len() && p(s[i]) ==> exists|a: int|
                0 <= a < places.len() && #[trigger] places[a] == i,
    decreases s.len(),
{
    reveal(Seq::filter);
    if s.len() == 0 {
        Seq::empty()
    } else {
        let front = lemma_filter_places(s.drop_last(), p);
        let places = if p(s.last()) {
            front.push(s.len() - 1)
        } else {
            front
        };
        assert forall|i: int| 0 <= i < s.len() && p(s[i]) implies exists|a: int|
            0 <= a < places.len() && #[trigger] places[a] == i by {
            if i < s.len() - 1 {
                assert(s.drop_last()[i] == s[i]);
                let a = choose|a: int| 0 <= a < front.len() && #[trigger] front[a] == i;
                assert(places[a] == i);
            } else {
                assert(places[places.len() - 1] == i);
            }
        }
        places
    }
}

/// In a well-formed state a handle names one place.
pub proof fn lemma_place_of(m: ManagerView, i: int)
    requires
        m.wf(),
        0 <= i < m.entries.len(),
    ensures
        m.has(m.entries[i].id),
        m.index_of(m.entries[i].id) == i,
        m.entry(m.entries[i].id) == m.entries[i],
{
    let id = m.entries[i].id;
    let k = m.index_of(id);
    assert(0 <= k < m.entries.len() && m.entries[k].id == id);
    if k < i {
        assert(m.entries[k].id < m.entries[i].id);
    } else if i < k {
        assert(m.entries[i].id < m.entries[k].id);
    }
}

/// In a well-formed state the entry that holds a sink is the active one.
pub proof fn lemma_active_at(m: ManagerView, i: int)
    requires
        m.wf(),
        0 <= i < m.entries.len(),
        m.entries[i].state.holds_sink(),
    ensures
        m.has_active(),
        m.active() == Some(m.entries[i].id),
{
    let k = choose|k: int| 0 <= k < m.entries.len() && (#[trigger] m.entries[k]).state.holds_sink();
    assert(k == i);
}

/// The oldest waiting entry stands at one place.
pub proof fn lemma_head_at(m: ManagerView, k: int)
    requires
        m.is_head(k),
    ensures
        m.has_head(),
        m.head() == Some(m.entries[k].id),
{
    let c = choose|c: int| m.is_head(c);
    assert(m.is_head(c));
    if c < k {
        assert(!(m.entries[c].state is Queued));
    } else if k < c {
        assert(!(m.entries[k].state is Queued));
    }
}

pub proof fn lemma_init_wf(capacity: usize)
    ensures
        ManagerView::init(capacity).wf(),
        ManagerView::init(capacity).waiting() == 0,
{
    reveal(Seq::filter);
}

pub proof fn lemma_play_wf(m: ManagerView, audio: Seq<u8>)
    requires
        m.wf(),
    ensures
        m.play(audio).wf(),
{
    if m.play_reply() is Ok {
        let n = m.play(audio);
        let last = m.entries.len() as int;
        assert(n.entries[last] == EntryView::accepted(m.next_id, audio));
        assert forall|i: int| 0 <= i < n.entries.len() implies (#[trigger] n.entries[i]).wf()
            && n.entries[i].id < n.next_id by {
            if i < last {
                assert(n.entries[i] == m.entries[i]);
            }
        }
        assert forall|i: int, j: int| 0 <= i < j < n.entries.len() implies (
        #[trigger] n.entries[i]).id < (#[trigger] n.entries[j]).id by {
            assert(n.entries[i] == m.entries[i]);
            if j < last {
                assert(n.entries[j] == m.entries[j]);
            }
        }
        assert forall|i: int, j: int|
            0 <= i < n.entries.len() && 0 <= j < n.entries.len() && (
            #[trigger] n.entries[i]).state.holds_sink() && (
            #[trigger] n.entries[j]).state.holds_sink() implies i == j by {
            assert(n.entries[i] == m.entries[i]);
            assert(n.entries[j] == m.entries[j]);
        }
        assert forall|i: int, j: int|
            0 <= i < j < n.entries.len() && (#[trigger] n.entries[j]).started implies !((
        #[trigger] n.entries[i]).state is Queued) by {
            assert(n.entries[i] == m.entries[i]);
            assert(n.entries[j] == m.entries[j]);
        }
    }
}

pub proof fn lemma_stop_wf(m: ManagerView, id: SinkId)
    requires
        m.wf(),
    ensures
        m.stop(id).wf(),
{
    let n = m.stop(id);
    assert forall|i: int| 0 <= i < n.entries.len() implies (#[trigger] n.entries[i]).id
        == m.entries[i].id && (n.entries[i].state.holds_sink() ==> m.entries[i].state.holds_sink())
        && (n.entries[i].state is Queued ==> m.entries[i].state is Queued) && n.entries[i].started
        == m.entries[i].started && n.entries[i].wf() by {
        assert(m.entries[i].wf());
    }
}

pub proof fn lemma_pause_wf(m: ManagerView, id: SinkId)
    requires
        m.wf(),
    ensures
        m.pause(id).wf(),
{
    let n = m.pause(id);
    assert forall|i: int| 0 <= i < n.entries.len() implies (#[trigger] n.entries[i]).id
        == m.entries[i].id && (n.entries[i].state.holds_sink() ==> m.entries[i].state.holds_sink())
        && (n.entries[i].state is Queued ==> m.entries[i].state is Queued) && n.entries[i].started
        == m.entries[i].started && n.entries[i].wf() by {
        assert(m.entries[i].wf());
    }
}

pub proof fn lemma_resume_wf(m: ManagerView, id: SinkId)
    requires
        m.wf(),
    ensures
        m.resume(id).wf(),
{
    let n = m.resume(id);
    assert forall|i: int| 0 <= i < n.entries.len() implies (#[trigger] n.entries[i]).id
        == m.entries[i].id && (n.entries[i].state.holds_sink() ==> m.entries[i].state.holds_sink())
        && (n.entries[i].state is Queued ==> m.entries[i].state is Queued) && n.entries[i].started
        == m.entries[i].started && n.entries[i].wf() by {
        assert(m.entries[i].wf());
    }
}

pub proof fn lemma_drain_wf(m: ManagerView)
    requires
        m.wf(),
    ensures
        m.drain().wf(),
{
    let n = m.drain();
    assert forall|i: int| 0 <= i < n.entries.len() implies (#[trigger] n.entries[i]).id
        == m.entries[i].id && (n.entries[i].state.holds_sink() ==> m.entries[i].state.holds_sink())
        && (n.entries[i].state is Queued ==> m.entries[i].state is Queued) && n.entries[i].started
        == m.entries[i].started && n.entries[i].wf() by {
        assert(m.entries[i].wf());
    }
}

pub proof fn lemma_fail_active_wf(m: ManagerView, reason: PlaybackError)
    requires
        m.wf(),
    ensures
        m.fail_active(reason).wf(),
{
    let n = m.fail_active(reason);
    assert forall|i: int| 0 <= i < n.entries.len() implies (#[trigger] n.entries[i]).id
        == m.entries[i].id && (n.entries[i].state.holds_sink() ==> m.entries[i].state.holds_sink())
        && (n.entries[i].state is Queued ==> m.entries[i].state is Queued) && n.entries[i].started
        == m.entries[i].started && n.entries[i].wf() by {
        assert(m.entries[i].wf());
    }
}

pub proof fn lemma_stop_all_wf(m: ManagerView)
    requires
        m.wf(),
    ensures
        m.stop_all().wf(),
{
    let n = m.stop_all();
    assert forall|i: int| 0 <= i < n.entries.len() implies (#[trigger] n.entries[i]).id
        == m.entries[i].id && !n.entries[i].state.holds_sink() && !(n.entries[i].state is Queued)
        && n.entries[i].started == m.entries[i].started && n.entries[i].wf() by {
        assert(m.entries[i].wf());
    }
}

/// The place of the promotable playback.
pub proof fn lemma_promotable_place(m: ManagerView, id: SinkId) -> (k: int)
    requires
        m.wf(),
        m.promotable() == Some(id),
    ensures
        m.is_head(k),
        m.entries[k].id == id,
        !m.has_active(),
        m.has(id),
        m.index_of(id) == k,
{
    let k = choose|k: int| m.is_head(k);
    lemma_place_of(m, k);
    k
}

pub proof fn lemma_complete_start_wf(m: ManagerView, id: SinkId, outcome: StartOutcome)
    requires
        m.wf(),
    ensures
        m.complete_start(id, outcome).wf(),
{
    if m.promotable() == Some(id) {
        let n = m.complete_start(id, outcome);
        let k = lemma_promotable_place(m, id);
        assert forall|i: int| 0 <= i < n.entries.len() implies (#[trigger] n.entries[i]).id
            == m.entries[i].id && (n.entries[i].state.holds_sink() ==> i == k) && (
        n.entries[i].state is Queued ==> m.entries[i].state is Queued) && (n.entries[i].started
            ==> m.entries[i].started || i == k) && n.entries[i].wf() by {
            assert(m.entries[i].wf());
            if i != k {
                if i < k {
                    assert(m.entries[i].id < m.entries[k].id);
                } else {
                    assert(m.entries[k].id < m.entries[i].id);
                }
                assert(n.entries[i] == m.entries[i]);
                assert(!m.entries[i].state.holds_sink());
            }
        }
        assert forall|i: int, j: int|
            0 <= i < j < n.entries.len() && (#[trigger] n.entries[j]).started implies !((
        #[trigger] n.entries[i]).state is Queued) by {
            if j == k {
                assert(!(m.entries[i].state is Queued));
            } else {
                assert(m.entries[j].started);
            }
        }
    }
}

pub proof fn lemma_end_tick_wf(m: ManagerView)
    requires
        m.wf(),
    ensures
        m.end_tick().wf(),
{
    let keep = |e: EntryView| e.survives_tick();
    let places = lemma_filter_places(m.entries, keep);
    let n = m.end_tick();
    assert forall|a: int| 0 <= a < n.entries.len() implies #[trigger] n.entries[a]
        == m.entries[places[a]].aged() by {}
    assert forall|a: int| 0 <= a < n.entries.len() implies (#[trigger] n.entries[a]).wf()
        && n.entries[a].id < n.next_id by {
        assert(m.entries[places[a]].wf());
    }
    assert forall|a: int, b: int| 0 <= a < b < n.entries.len() implies (
    #[trigger] n.entries[a]).id < (#[trigger] n.entries[b]).id by {
        assert(places[a] < places[b]);
        assert(m.entries[places[a]].id < m.entries[places[b]].id);
    }
    assert forall|a: int, b: int|
        0 <= a < n.entries.len() && 0 <= b < n.entries.len() && (
        #[trigger] n.entries[a]).state.holds_sink() && (
        #[trigger] n.entries[b]).state.holds_sink() implies a == b by {
        assert(m.entries[places[a]].state.holds_sink());
        assert(m.entries[places[b]].state.holds_sink());
        if a < b {
            assert(places[a] < places[b]);
        } else if b < a {
            assert(places[b] < places[a]);
        }
    }
    assert forall|a: int, b: int|
        0 <= a < b < n.entries.len() && (#[trigger] n.entries[b]).started implies !((
    #[trigger] n.entries[a]).state is Queued) by {
        assert(places[a] < places[b]);
        assert(m.entries[places[b]].started);
        assert(!(m.entries[places[a]].state is Queued));
    }
}

} // verus!
