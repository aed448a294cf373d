//! What the sending steps of the switchboard leave as it is: they add
//! commands to the outbox, and some of them use up a seed; connections,
//! spaces and everything else stay.

use vstd::prelude::*;
use crate::aspect_list::Aspects;
use crate::assoc::Key;
use crate::model::Sim2hView;
use crate::naive_sharding::Member;
use crate::protocol::EntryAspectDataView;
use crate::wire_message::WireMessageView;

verus! {

/// Whether `b` is `a` with more at its end.
pub open spec fn extends<T>(a: Seq<T>, b: Seq<T>) -> bool {
    a.len() <= b.len() && b.take(a.len() as int) == a
}

/// Extension is transitive, and adding one at the end extends.
pub proof fn lemma_extends<T>(a: Seq<T>, b: Seq<T>, c: Seq<T>, x: T)
    ensures
        extends(a, a),
        extends(a, a.push(x)),
        extends(a, b) && extends(b, c) ==> extends(a, c),
{
    assert(a.take(a.len() as int) =~= a);
    assert(a.push(x).take(a.len() as int) =~= a);
    if extends(a, b) && extends(b, c) {
        assert(c.take(a.len() as int) =~= c.take(b.len() as int).take(a.len() as int));
    }
}

/// Whether `t` differs from `s` at most in its seed and in what was added to
/// its outbox, its reports and its message log.
pub open spec fn only_sent(s: Sim2hView, t: Sim2hView) -> bool {
    &&& t == (Sim2hView {
        outbox: t.outbox,
        reports: t.reports,
        message_log: t.message_log,
        seed: t.seed,
        ..s
    })
    &&& extends(s.outbox, t.outbox)
    &&& extends(s.reports, t.reports)
    &&& extends(s.message_log, t.message_log)
}

/// Whether `t` differs from `s` at most in what was added to its outbox, its
/// reports and its message log.
pub open spec fn only_outbox(s: Sim2hView, t: Sim2hView) -> bool {
    only_sent(s, t) && t.seed == s.seed
}

/// Standing still changes nothing.
pub proof fn lemma_only_outbox_refl(s: Sim2hView)
    ensures
        only_outbox(s, s),
{
    lemma_extends(s.outbox, s.outbox, s.outbox, arbitrary());
    lemma_extends(s.reports, s.reports, s.reports, arbitrary());
    lemma_extends(s.message_log, s.message_log, s.message_log, arbitrary());
}

/// Sending adds to the outbox, the reports and the message log, and changes
/// nothing else.
pub proof fn lemma_send_frame(s: Sim2hView, agent: Key, uri: Key, msg: WireMessageView)
    ensures
        only_outbox(s, s.send(agent, uri, msg)),
{
    lemma_extends(
        s.outbox,
        s.outbox,
        s.outbox,
        crate::websocket::WssCommandView::SendMessage(uri, msg),
    );
    lemma_extends(s.reports, s.reports, s.reports, crate::error::Sim2hError::NoRoute);
    lemma_extends(
        s.message_log,
        s.message_log,
        s.message_log,
        crate::message_log::MessageLogEntryView {
            direction: crate::message_log::Direction::Out,
            agent,
            uri,
            message: msg,
        },
    );
}

/// One step that changes outbox and seed alone, and then another, change
/// outbox and seed alone.
pub proof fn lemma_only_sent_chain(s: Sim2hView, m: Sim2hView, t: Sim2hView)
    requires
        only_sent(s, m),
        only_sent(m, t),
    ensures
        only_sent(s, t),
        only_outbox(s, m) && only_outbox(m, t) ==> only_outbox(s, t),
{
    lemma_extends(s.outbox, m.outbox, t.outbox, arbitrary());
    lemma_extends(s.reports, m.reports, t.reports, arbitrary());
    lemma_extends(s.message_log, m.message_log, t.message_log, arbitrary());
}

/// A broadcast changes the outbox alone.
pub proof fn lemma_broadcast_frame(s: Sim2hView, msg: WireMessageView, agents: Seq<Member>, i: int)
    ensures
        only_outbox(s, s.broadcast_from(msg, agents, i)),
    decreases agents.len() - i,
{
    if 0 <= i < agents.len() {
        let m = s.send(agents[i].0, agents[i].1.uri, msg);
        lemma_send_frame(s, agents[i].0, agents[i].1.uri, msg);
        lemma_broadcast_frame(m, msg, agents, i + 1);
        lemma_only_sent_chain(s, m, m.broadcast_from(msg, agents, i + 1));
    } else {
        lemma_only_outbox_refl(s);
    }
}

/// Handing aspects out to store changes the outbox alone.
pub proof fn lemma_store_frame(
    s: Sim2hView,
    sp: Key,
    provider: Key,
    entry: Key,
    aspects: Seq<EntryAspectDataView>,
    targets: Seq<Member>,
    i: int,
)
    ensures
        only_outbox(s, s.store_from(sp, provider, entry, aspects, targets, i)),
    decreases aspects.len() - i,
{
    if 0 <= i < aspects.len() {
        let msg = crate::model::store_request(sp, provider, entry, aspects[i]);
        lemma_broadcast_frame(s, msg, targets, 0);
        let m = s.broadcast_from(msg, targets, 0);
        lemma_store_frame(m, sp, provider, entry, aspects, targets, i + 1);
        lemma_only_sent_chain(s, m, m.store_from(sp, provider, entry, aspects, targets, i + 1));
    } else {
        lemma_only_outbox_refl(s);
    }
}

/// Asking for unseen aspects changes the outbox alone.
pub proof fn lemma_request_unseen_frame(s: Sim2hView, uri: Key, sp: Key, agent: Key, unseen: Aspects, i: int)
    ensures
        only_outbox(s, s.request_unseen_from(uri, sp, agent, unseen, i)),
    decreases unseen.len() - i,
{
    if 0 <= i < unseen.len() {
        let msg = crate::model::fetch_request(sp, agent, unseen[i].0, unseen[i].1, Seq::empty());
        let m = s.send(agent, uri, msg);
        lemma_send_frame(s, agent, uri, msg);
        lemma_request_unseen_frame(m, uri, sp, agent, unseen, i + 1);
        lemma_only_sent_chain(s, m, m.request_unseen_from(uri, sp, agent, unseen, i + 1));
    } else {
        lemma_only_outbox_refl(s);
    }
}

/// Asking agents of a pool for aspects changes the outbox alone.
pub proof fn lemma_fetch_from_frame(
    s: Sim2hView,
    aspects: Aspects,
    for_agent: Key,
    pool: Seq<Key>,
    sp: Key,
    i: int,
)
    ensures
        only_outbox(s, s.fetch_from(aspects, for_agent, pool, sp, i)),
    decreases aspects.len() - i,
{
    if 0 <= i < aspects.len() {
        let source = if s.spaces.contains_key(sp) {
            crate::model::first_source_from(
                s.spaces[sp].missing,
                aspects[i].0,
                aspects[i].1,
                for_agent,
                pool,
                0,
            )
        } else {
            None
        };
        match source {
            Some(a) => match s.lookup_joined(sp, a) {
                Some(uri) => {
                    let msg = crate::model::fetch_request(
                        sp,
                        a,
                        aspects[i].0,
                        aspects[i].1,
                        for_agent,
                    );
                    let m = s.send(a, uri, msg);
                    lemma_send_frame(s, a, uri, msg);
                    lemma_fetch_from_frame(m, aspects, for_agent, pool, sp, i + 1);
                    lemma_only_sent_chain(
                        s,
                        m,
                        m.fetch_from(aspects, for_agent, pool, sp, i + 1),
                    );
                },
                None => {
                    lemma_only_outbox_refl(s);
                },
            },
            None => {
                lemma_fetch_from_frame(s, aspects, for_agent, pool, sp, i + 1);
            },
        }
    } else {
        lemma_only_outbox_refl(s);
    }
}

/// A fetch round changes the outbox and the seed alone.
pub proof fn lemma_fetch_frame(s: Sim2hView, aspects: Aspects, for_agent: Key, pool: Seq<Key>, sp: Key)
    ensures
        only_sent(s, s.fetch_aspects_from_arbitrary_agent(aspects, for_agent, pool, sp)),
{
    let m = Sim2hView { seed: crate::model::next_seed(s.seed), ..s };
    lemma_fetch_from_frame(m, aspects, for_agent, crate::model::drawn(pool, s.seed), sp, 0);
    lemma_only_outbox_refl(s);
    lemma_only_sent_chain(
        s,
        m,
        m.fetch_from(aspects, for_agent, crate::model::drawn(pool, s.seed), sp, 0),
    );
}

/// A fetch round by shards changes the outbox and the seed alone.
pub proof fn lemma_fetch_by_shard_frame(s: Sim2hView, missing: Aspects, agent: Key, sp: Key, r: u64, i: int)
    ensures
        only_sent(s, s.fetch_by_shard_from(missing, agent, sp, r, i)),
    decreases missing.len() - i,
{
    if 0 <= i < missing.len() {
        let next = match crate::assoc::lookup(s.space(sp).locations, missing[i].0) {
            Some(loc) => s.fetch_aspects_from_arbitrary_agent(
                crate::aspect_list::only_entry(missing, missing[i].0),
                agent,
                crate::model::member_ids(
                    crate::naive_sharding::closest(s.space(sp).agents, loc, r as nat),
                ),
                sp,
            ),
            None => s,
        };
        match crate::assoc::lookup(s.space(sp).locations, missing[i].0) {
            Some(loc) => {
                lemma_fetch_frame(
                    s,
                    crate::aspect_list::only_entry(missing, missing[i].0),
                    agent,
                    crate::model::member_ids(
                        crate::naive_sharding::closest(s.space(sp).agents, loc, r as nat),
                    ),
                    sp,
                );
            },
            None => {
                lemma_only_outbox_refl(s);
            },
        }
        lemma_fetch_by_shard_frame(next, missing, agent, sp, r, i + 1);
        lemma_only_sent_chain(s, next, next.fetch_by_shard_from(missing, agent, sp, r, i + 1));
    } else {
        lemma_only_outbox_refl(s);
    }
}

/// Asking the agents of one space for their lists again changes the outbox
/// alone.
pub proof fn lemma_retry_space_frame(s: Sim2hView, sp: Key, agents: Seq<Key>, i: int)
    ensures
        only_outbox(s, s.retry_space_from(sp, agents, i)),
    decreases agents.len() - i,
{
    if 0 <= i < agents.len() {
        let next = match s.lookup_joined(sp, agents[i]) {
            Some(uri) =>
                s.send(agents[i], uri, crate::model::gossiping_list_request(sp, agents[i])),
            None => s,
        };
        match s.lookup_joined(sp, agents[i]) {
            Some(uri) => {
                lemma_send_frame(
                    s,
                    agents[i],
                    uri,
                    crate::model::gossiping_list_request(sp, agents[i]),
                );
            },
            None => {
                lemma_only_outbox_refl(s);
            },
        }
        lemma_retry_space_frame(next, sp, agents, i + 1);
        lemma_only_sent_chain(s, next, next.retry_space_from(sp, agents, i + 1));
    } else {
        lemma_only_outbox_refl(s);
    }
}

/// A retry round changes the outbox alone.
pub proof fn lemma_retry_frame(s: Sim2hView, order: Seq<Key>, i: int)
    ensures
        only_outbox(s, s.retry_from(order, i)),
    decreases order.len() - i,
{
    if 0 <= i < order.len() {
        let agents = crate::str_set::distinct(
            crate::space::ledger_agents(s.space(order[i]).missing),
        );
        lemma_retry_space_frame(s, order[i], agents, 0);
        let m = s.retry_space_from(order[i], agents, 0);
        lemma_retry_frame(m, order, i + 1);
        lemma_only_sent_chain(s, m, m.retry_from(order, i + 1));
    } else {
        lemma_only_outbox_refl(s);
    }
}

} // verus!
