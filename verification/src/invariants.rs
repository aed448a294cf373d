//! What holds along every run of the switchboard: the connections and the
//! spaces agree on who has joined from where, every line of a ledger is about
//! an aspect that its space has been told of, and what a space has been told
//! of is never forgotten while nobody is disconnected.

use vstd::prelude::*;
use crate::agent_info::AgentInfoView;
use crate::aspect_list::holds;
use crate::assoc::{
    del, distinct_keys, has_key, Key, lemma_del, lemma_position_unique, lemma_put, lookup,
    position, put,
};
use crate::connection_state::ConnectionStateView;
use crate::frame::{extends, lemma_extends};
use crate::message_log::Direction;
use crate::model::Sim2hView;
use crate::protocol::{ClientToLib3hView, SpaceDataView};
use crate::quiet::{ledger_known, lemma_quiet_chain, quiet, space_grows};
use crate::space::{claimed_by_other, SpaceView};
use crate::websocket::{WsFrameView, WssCommandView, WssEventView};
use crate::wire_message::{WireErrorView, WireMessageView};

verus! {

/// Whether every connection that is joined to a space as an agent is that
/// agent's address in that space.
pub open spec fn joined_are_members(s: Sim2hView) -> bool {
    forall|uri: Key| #[trigger]
        s.connections.contains_key(uri) ==> (s.connections[uri] matches ConnectionStateView::Joined(
            sp,
            a,
        ) ==> s.spaces.contains_key(sp) && (lookup(s.spaces[sp].agents, a) matches Some(info)
            && info.uri == uri))
}

/// Whether the address of every agent of every space is a connection that
/// is joined to that space as that agent.
pub open spec fn members_are_joined(s: Sim2hView) -> bool {
    forall|sp: Key, a: Key|
        s.spaces.contains_key(sp) && #[trigger] has_key(s.spaces[sp].agents, a) ==> {
            let uri = lookup(s.spaces[sp].agents, a)->Some_0.uri;
            s.connections.contains_key(uri) && s.connections[uri] == ConnectionStateView::Joined(
                sp,
                a,
            )
        }
}

/// Whether the connections and the spaces agree on who has joined from
/// where.
pub open spec fn bindings_agree(s: Sim2hView) -> bool {
    joined_are_members(s) && members_are_joined(s)
}

/// Whether no agent of any space of `s` has the address `uri`.
pub open spec fn unreferenced(s: Sim2hView, uri: Key) -> bool {
    forall|sp: Key, a: Key|
        s.spaces.contains_key(sp) && #[trigger] has_key(s.spaces[sp].agents, a) ==> lookup(
            s.spaces[sp].agents,
            a,
        )->Some_0.uri != uri
}

/// Whether every line of every ledger is about an aspect that its space has
/// been told of.
pub open spec fn ledgers_known(s: Sim2hView) -> bool {
    forall|sp: Key| #[trigger] s.spaces.contains_key(sp) ==> ledger_known(s.spaces[sp])
}

/// Whether every space of `s` is a space of `t` that has been told of
/// whatever the space of `s` has been told of.
pub open spec fn aspects_grow(s: Sim2hView, t: Sim2hView) -> bool {
    forall|sp: Key, e: Key, x: Key|
        s.spaces.contains_key(sp) && #[trigger] holds(s.spaces[sp].all_aspects, e, x)
            ==> t.spaces.contains_key(sp) && holds(t.spaces[sp].all_aspects, e, x)
}

/// Whether the outbox of `t` holds, behind what the outbox of `s` holds, a
/// command to close a connection.
pub open spec fn closes(s: Sim2hView, t: Sim2hView) -> bool {
    exists|i: int| s.outbox.len() <= i < t.outbox.len() && #[trigger] t.outbox[i] is CloseConnection
}

/// What every step from `s` to `t` keeps: the outbox is only added to; unless
/// a connection is closed, no space forgets what it has been told of; and
/// the ledgers stay within what their spaces have been told of.
pub open spec fn keeps(s: Sim2hView, t: Sim2hView) -> bool {
    &&& extends(s.outbox, t.outbox)
    &&& aspects_grow(s, t) || closes(s, t)
    &&& ledgers_known(s) && s.wf() ==> ledgers_known(t)
}

/// Whether handling `msg`, signed by `signer`, from `uri` joins an agent to
/// a space that it is in already, so that the agent's earlier connection
/// loses its place: the one step after which a joined connection need not
/// be its agent's address.
pub open spec fn rejoins(s: Sim2hView, uri: Key, msg: WireMessageView, signer: Key) -> bool {
    &&& s.connections.contains_key(uri)
    &&& s.connections[uri] is Limbo
    &&& msg matches WireMessageView::ClientToLib3h(ClientToLib3hView::JoinSpace(d))
    &&& d.agent_id == signer
    &&& has_key(s.space(d.space_address).agents, d.agent_id)
    &&& !claimed_by_other(s.space(d.space_address).agents, d.agent_id, uri)
}

/// Whether the event `e` joins an agent to a space that it is in already.
pub open spec fn rejoins_by(s: Sim2hView, e: WssEventView) -> bool {
    e matches WssEventView::ReceivedData(uri, WsFrameView::Message(signer, msg)) && rejoins(
        s,
        uri,
        msg,
        signer,
    )
}

/// Whether none of the events of `batch` from position `i` on joins, at its
/// turn, an agent to a space that it is in already.
pub open spec fn rejoin_free_from(s: Sim2hView, batch: Seq<WssEventView>, i: int) -> bool
    decreases batch.len() - i,
{
    if i < 0 || i >= batch.len() {
        true
    } else {
        !rejoins_by(s, batch[i]) && rejoin_free_from(s.handle_event(batch[i]), batch, i + 1)
    }
}

/// Whether the event `e` would make the connections and the spaces of `s`
/// disagree: a connection comes in from an address that is joined, or an
/// agent joins a space that it is in already.
pub open spec fn rebinds(s: Sim2hView, e: WssEventView) -> bool {
    match e {
        WssEventView::IncomingConnection(uri) => s.connections.contains_key(uri)
            && s.connections[uri] is Joined,
        WssEventView::ReceivedData(uri, WsFrameView::Message(signer, msg)) => rejoins(
            s,
            uri,
            msg,
            signer,
        ),
        _ => false,
    }
}

/// Whether none of the events of `batch` from position `i` on rebinds at its
/// turn.
pub open spec fn rebinding_free_from(s: Sim2hView, batch: Seq<WssEventView>, i: int) -> bool
    decreases batch.len() - i,
{
    if i < 0 || i >= batch.len() {
        true
    } else {
        !rebinds(s, batch[i]) && rebinding_free_from(s.handle_event(batch[i]), batch, i + 1)
    }
}

/// A switchboard without connections and without spaces has its bindings in
/// agreement and its ledgers within what its spaces have been told of.
pub proof fn lemma_initial_state(s: Sim2hView)
    requires
        s.connections == Map::<Key, ConnectionStateView>::empty(),
        s.spaces == Map::<Key, SpaceView>::empty(),
    ensures
        bindings_agree(s),
        ledgers_known(s),
{
}

/// Standing still keeps, and keeping is transitive.
pub proof fn lemma_keeps_chain(s: Sim2hView, m: Sim2hView, t: Sim2hView)
    requires
        keeps(s, m),
        keeps(m, t),
        s.wf() ==> m.wf(),
    ensures
        keeps(s, t),
{
    lemma_extends(s.outbox, m.outbox, t.outbox, arbitrary());
    if closes(s, m) {
        let i = choose|i: int| s.outbox.len() <= i < m.outbox.len() && #[trigger] m.outbox[i] is CloseConnection;
        assert(t.outbox.take(m.outbox.len() as int)[i] == m.outbox[i]);
        assert(t.outbox[i] is CloseConnection);
    } else if closes(m, t) {
        let i = choose|i: int| m.outbox.len() <= i < t.outbox.len() && #[trigger] t.outbox[i] is CloseConnection;
        assert(t.outbox[i] is CloseConnection);
    } else {
        assert(aspects_grow(s, t)) by {
            assert forall|sp: Key, e: Key, x: Key|
                s.spaces.contains_key(sp) && #[trigger] holds(
                    s.spaces[sp].all_aspects,
                    e,
                    x,
                ) implies t.spaces.contains_key(sp) && holds(t.spaces[sp].all_aspects, e, x) by {
                assert(m.spaces.contains_key(sp) && holds(m.spaces[sp].all_aspects, e, x));
            }
        }
    }
}

/// Standing still keeps.
pub proof fn lemma_keeps_refl(s: Sim2hView)
    ensures
        keeps(s, s),
{
    lemma_extends(s.outbox, s.outbox, s.outbox, arbitrary());
}

/// A quiet step keeps, and leaves the bindings in agreement.
pub proof fn lemma_quiet_keeps(s: Sim2hView, t: Sim2hView)
    requires
        quiet(s, t),
    ensures
        keeps(s, t),
        joined_are_members(s) ==> joined_are_members(t),
        bindings_agree(s) ==> bindings_agree(t),
        forall|uri: Key| unreferenced(s, uri) ==> unreferenced(t, uri),
{
    assert(aspects_grow(s, t)) by {
        assert forall|sp: Key, e: Key, x: Key|
            s.spaces.contains_key(sp) && #[trigger] holds(
                s.spaces[sp].all_aspects,
                e,
                x,
            ) implies t.spaces.contains_key(sp) && holds(t.spaces[sp].all_aspects, e, x) by {
            assert(t.spaces.contains_key(sp));
            assert(space_grows(s.space(sp), t.spaces[sp]));
        }
    }
    if ledgers_known(s) && s.wf() {
        assert forall|sp: Key| #[trigger] t.spaces.contains_key(sp) implies ledger_known(
            t.spaces[sp],
        ) by {
            assert(space_grows(s.space(sp), t.spaces[sp]));
            if s.spaces.contains_key(sp) {
                assert(ledger_known(s.spaces[sp]));
                assert(s.spaces[sp].wf());
            } else {
                assert(ledger_known(SpaceView::empty()));
                assert(crate::aspect_list::well_formed(SpaceView::empty().all_aspects));
            }
        }
    }
    if joined_are_members(s) {
        assert forall|uri: Key| #[trigger] t.connections.contains_key(uri) implies (
        t.connections[uri] matches ConnectionStateView::Joined(sp, a) ==> t.spaces.contains_key(sp)
            && (lookup(t.spaces[sp].agents, a) matches Some(info) && info.uri == uri)) by {
            assert(s.connections.contains_key(uri));
            if let ConnectionStateView::Joined(sp, a) = t.connections[uri] {
                assert(s.spaces.contains_key(sp));
                assert(t.spaces.contains_key(sp));
                assert(space_grows(s.space(sp), t.spaces[sp]));
            }
        }
    }
    if bindings_agree(s) {
        assert forall|sp: Key, a: Key|
            t.spaces.contains_key(sp) && #[trigger] has_key(t.spaces[sp].agents, a) implies {
            let uri = lookup(t.spaces[sp].agents, a)->Some_0.uri;
            t.connections.contains_key(uri) && t.connections[uri] == ConnectionStateView::Joined(
                sp,
                a,
            )
        } by {
            assert(space_grows(s.space(sp), t.spaces[sp]));
            if s.spaces.contains_key(sp) {
                assert(has_key(s.spaces[sp].agents, a));
            }
        }
    }
    assert forall|uri: Key| unreferenced(s, uri) implies unreferenced(t, uri) by {
        assert forall|sp: Key, a: Key|
            t.spaces.contains_key(sp) && #[trigger] has_key(t.spaces[sp].agents, a) implies lookup(
            t.spaces[sp].agents,
            a,
        )->Some_0.uri != uri by {
            assert(space_grows(s.space(sp), t.spaces[sp]));
            if s.spaces.contains_key(sp) {
                assert(has_key(s.spaces[sp].agents, a));
            }
        }
    }
}

/// Giving up a connection keeps; the space of the agent that leaves, if it
/// was the last one in it, is gone.
pub proof fn lemma_disconnect_keeps(s: Sim2hView, uri: Key)
    requires
        s.wf(),
    ensures
        keeps(s, s.disconnect(uri)),
        closes(s, s.disconnect(uri)),
        s.connections.contains_key(uri) ==> (s.connections[uri] matches ConnectionStateView::Joined(
            sp,
            a,
        ) ==> s.spaces.contains_key(sp) && del(s.spaces[sp].agents, a).len() == 0
            ==> !s.disconnect(uri).spaces.contains_key(sp)),
        !s.disconnect(uri).connections.contains_key(uri),
{
    let t = s.disconnect(uri);
    let cmd = WssCommandView::CloseConnection(uri);
    lemma_extends(s.outbox, s.outbox, s.outbox, cmd);
    assert(t.outbox == s.outbox.push(cmd));
    assert(t.outbox[s.outbox.len() as int] is CloseConnection);
    if ledgers_known(s) {
        assert forall|sp: Key| #[trigger] t.spaces.contains_key(sp) implies ledger_known(
            t.spaces[sp],
        ) by {
            assert(s.spaces.contains_key(sp));
            assert(ledger_known(s.spaces[sp]));
        }
    }
}

/// Giving up a connection leaves every joined connection its agent's
/// address.
pub proof fn lemma_disconnect_members(s: Sim2hView, uri: Key)
    requires
        s.wf(),
    ensures
        joined_are_members(s) ==> joined_are_members(s.disconnect(uri)),
{
    let t = s.disconnect(uri);
    if joined_are_members(s) {
        assert forall|u: Key| #[trigger] t.connections.contains_key(u) implies (
        t.connections[u] matches ConnectionStateView::Joined(sp, a) ==> t.spaces.contains_key(sp)
            && (lookup(t.spaces[sp].agents, a) matches Some(info) && info.uri == u)) by {
            assert(s.connections.contains_key(u));
            if let ConnectionStateView::Joined(sp, a) = t.connections[u] {
                assert(s.spaces.contains_key(sp));
                assert(s.spaces[sp].wf());
                let agents = s.spaces[sp].agents;
                assert(has_key(agents, a));
                if s.connections.contains_key(uri) && s.connections[uri] is Joined
                    && s.connections[uri]->Joined_0 == sp {
                    let gone = s.connections[uri]->Joined_1;
                    lemma_del(agents, gone);
                    assert(a != gone);
                    assert(has_key(del(agents, gone), a));
                    assert(del(agents, gone).len() > 0);
                }
            }
        }
    }
}

/// After a connection is given up, no space refers to its address, provided
/// the connections and the spaces agreed; and they still agree.
pub proof fn lemma_disconnect_forgets(s: Sim2hView, uri: Key)
    requires
        s.wf(),
        bindings_agree(s),
    ensures
        unreferenced(s.disconnect(uri), uri),
        bindings_agree(s.disconnect(uri)),
{
    let t = s.disconnect(uri);
    assert forall|sp: Key, a: Key|
        t.spaces.contains_key(sp) && #[trigger] has_key(t.spaces[sp].agents, a) implies lookup(
        t.spaces[sp].agents,
        a,
    )->Some_0.uri != uri && {
        let u = lookup(t.spaces[sp].agents, a)->Some_0.uri;
        t.connections.contains_key(u) && t.connections[u] == ConnectionStateView::Joined(sp, a)
    } by {
        assert(s.spaces.contains_key(sp));
        assert(s.spaces[sp].wf());
        let agents = s.spaces[sp].agents;
        if s.connections.contains_key(uri) && s.connections[uri] is Joined
            && s.connections[uri]->Joined_0 == sp {
            let gone = s.connections[uri]->Joined_1;
            lemma_del(agents, gone);
            assert(t.spaces[sp].agents == del(agents, gone));
            assert(a != gone);
            assert(has_key(agents, a));
            assert(lookup(t.spaces[sp].agents, a) == lookup(agents, a));
        } else {
            assert(t.spaces[sp] == s.spaces[sp]);
            assert(has_key(agents, a));
        }
    }
    assert forall|u: Key| #[trigger] t.connections.contains_key(u) implies (
    t.connections[u] matches ConnectionStateView::Joined(sp, a) ==> t.spaces.contains_key(sp) && (
    lookup(t.spaces[sp].agents, a) matches Some(info) && info.uri == u)) by {
        assert(s.connections.contains_key(u));
        if let ConnectionStateView::Joined(sp, a) = t.connections[u] {
            assert(s.spaces.contains_key(sp));
            assert(s.spaces[sp].wf());
            let agents = s.spaces[sp].agents;
            assert(has_key(agents, a));
            if s.connections.contains_key(uri) && s.connections[uri] is Joined
                && s.connections[uri]->Joined_0 == sp {
                let gone = s.connections[uri]->Joined_1;
                lemma_del(agents, gone);
                assert(a != gone);
                assert(has_key(del(agents, gone), a));
                assert(del(agents, gone).len() > 0);
            }
        }
    }
}

/// Taking up a connection from an address that is not joined keeps, and
/// leaves the bindings in agreement.
pub proof fn lemma_connect_keeps(s: Sim2hView, uri: Key)
    ensures
        keeps(s, s.handle_event(WssEventView::IncomingConnection(uri))),
        joined_are_members(s) ==> joined_are_members(
            s.handle_event(WssEventView::IncomingConnection(uri)),
        ),
        bindings_agree(s) && !rebinds(s, WssEventView::IncomingConnection(uri)) ==> bindings_agree(
            s.handle_event(WssEventView::IncomingConnection(uri)),
        ),
{
    let t = s.handle_event(WssEventView::IncomingConnection(uri));
    lemma_extends(s.outbox, s.outbox, s.outbox, arbitrary());
    if joined_are_members(s) {
        assert forall|u: Key| #[trigger] t.connections.contains_key(u) implies (
        t.connections[u] matches ConnectionStateView::Joined(sp, a) ==> t.spaces.contains_key(sp)
            && (lookup(t.spaces[sp].agents, a) matches Some(info) && info.uri == u)) by {
            if u != uri {
                assert(s.connections.contains_key(u));
            }
        }
    }
    if bindings_agree(s) && !rebinds(s, WssEventView::IncomingConnection(uri)) {
        assert forall|sp: Key, a: Key|
            t.spaces.contains_key(sp) && #[trigger] has_key(t.spaces[sp].agents, a) implies {
            let u = lookup(t.spaces[sp].agents, a)->Some_0.uri;
            t.connections.contains_key(u) && t.connections[u] == ConnectionStateView::Joined(sp, a)
        } by {
            assert(has_key(s.spaces[sp].agents, a));
        }
        assert forall|u: Key| #[trigger] t.connections.contains_key(u) implies (
        t.connections[u] matches ConnectionStateView::Joined(sp, a) ==> t.spaces.contains_key(sp)
            && (lookup(t.spaces[sp].agents, a) matches Some(info) && info.uri == u)) by {
            if u != uri {
                assert(s.connections.contains_key(u));
            }
        }
    }
}

/// A message that arrives in limbo and is not a join changes no space. It is
/// kept for after the join, or, if it is a ping or a status request,
/// answered.
pub proof fn lemma_limbo_keeps_spaces(s: Sim2hView, uri: Key, msg: WireMessageView, signer: Key)
    requires
        s.connections.contains_key(uri),
        s.connections[uri] is Limbo,
        !(msg matches WireMessageView::ClientToLib3h(ClientToLib3hView::JoinSpace(_))),
    ensures
        s.handle_message(uri, msg, signer).0.spaces == s.spaces,
        s.handle_message(uri, msg, signer).0.open == s.open,
        extends(s.outbox, s.handle_message(uri, msg, signer).0.outbox),
        !closes(s, s.handle_message(uri, msg, signer).0),
        s.handle_message(uri, msg, signer).0.connections == s.connections || (!(msg is Ping) && !(
        msg is Status) && s.handle_message(uri, msg, signer).0.connections == s.connections.insert(
            uri,
            ConnectionStateView::Limbo(s.connections[uri]->Limbo_0.push(msg)),
        )),
{
    let t = s.handle_message(uri, msg, signer).0;
    let base = if msg is Ping || msg is Status {
        s
    } else {
        let l = s.logged(Direction::In, signer, uri, msg);
        Sim2hView {
            connections: l.connections.insert(
                uri,
                ConnectionStateView::Limbo(l.connections[uri]->Limbo_0.push(msg)),
            ),
            ..l
        }
    };
    let answer = if msg is Ping {
        WireMessageView::Pong
    } else if msg is Status {
        WireMessageView::StatusResponse(s.status())
    } else {
        WireMessageView::Error(WireErrorView::MessageWhileInLimbo)
    };
    assert(t == base.send(signer, uri, answer));
    crate::frame::lemma_send_frame(base, signer, uri, answer);
    assert(t.outbox == base.outbox || t.outbox == base.outbox.push(
        WssCommandView::SendMessage(uri, answer),
    ));
}

/// On a connection that is not in limbo, handling a message is what the
/// replay after a join does with a message that waited.
pub proof fn lemma_established_is_handle_message(s: Sim2hView, uri: Key, msg: WireMessageView, signer: Key)
    requires
        !(s.connections.contains_key(uri) && s.connections[uri] is Limbo),
    ensures
        s.handle_established(uri, msg, signer) == s.handle_message(uri, msg, signer),
{
}

/// One step of the replay after a join is the handling of the message that
/// waited longest, with its error reported, and leaves the connection out
/// of limbo, as the step before it did.
pub proof fn lemma_replay_step(s: Sim2hView, uri: Key, queue: Seq<WireMessageView>, agent: Key, i: int)
    requires
        s.wf(),
        0 <= i < queue.len(),
        !(s.connections.contains_key(uri) && s.connections[uri] is Limbo),
    ensures
        s.replay_from(uri, queue, agent, i) == s.handle_message(uri, queue[i], agent).0.report_outcome(
            s.handle_message(uri, queue[i], agent).1,
        ).replay_from(uri, queue, agent, i + 1),
        !(s.handle_message(uri, queue[i], agent).0.connections.contains_key(uri)
            && s.handle_message(uri, queue[i], agent).0.connections[uri] is Limbo),
{
    s.lemma_handle_established(uri, queue[i], agent);
}

/// What handling a message on a joined connection keeps.
pub proof fn lemma_joined_keeps(s: Sim2hView, uri: Key, sp: Key, agent: Key, msg: WireMessageView)
    requires
        s.wf(),
    ensures
        keeps(s, s.handle_joined(uri, sp, agent, msg).0),
        joined_are_members(s) ==> joined_are_members(s.handle_joined(uri, sp, agent, msg).0),
        bindings_agree(s) ==> bindings_agree(s.handle_joined(uri, sp, agent, msg).0),
{
    s.lemma_handle_joined(uri, sp, agent, msg);
    let t = s.handle_joined(uri, sp, agent, msg).0;
    if quiet(s, t) {
        lemma_quiet_keeps(s, t);
    } else {
        lemma_disconnect_keeps(s, uri);
        lemma_disconnect_members(s, uri);
        if bindings_agree(s) {
            lemma_disconnect_forgets(s, uri);
        }
    }
}

/// A join that is not turned down makes the connection joined as the agent,
/// and the agent's address in the space the address of the connection.
pub proof fn lemma_join_binds(s: Sim2hView, uri: Key, d: SpaceDataView)
    requires
        s.wf(),
    ensures
        ({
            let t = joined_before_replay(s, uri, d);
            &&& t.connections.contains_key(uri)
            &&& t.connections[uri] == ConnectionStateView::Joined(d.space_address, d.agent_id)
            &&& t.spaces.contains_key(d.space_address)
            &&& lookup(t.spaces[d.space_address].agents, d.agent_id) == Some(
                AgentInfoView { uri, location: d.agent_location },
            )
            &&& forall|k: Key|
                k != d.space_address ==> t.spaces.contains_key(k) == s.spaces.contains_key(k)
            &&& forall|k: Key|
                k != d.space_address && s.spaces.contains_key(k) ==> t.spaces[k] == s.spaces[k]
        }),
{
    let agents = s.space(d.space_address).agents;
    assert(distinct_keys(agents));
    lemma_put(agents, d.agent_id, AgentInfoView { uri, location: d.agent_location });
}

/// What handling a message on a connection that is not in limbo keeps.
pub proof fn lemma_established_keeps(s: Sim2hView, uri: Key, msg: WireMessageView, signer: Key)
    requires
        s.wf(),
    ensures
        keeps(s, s.handle_established(uri, msg, signer).0),
        joined_are_members(s) ==> joined_are_members(s.handle_established(uri, msg, signer).0),
        bindings_agree(s) ==> bindings_agree(s.handle_established(uri, msg, signer).0),
{
    s.lemma_handle_established(uri, msg, signer);
    let t = s.handle_established(uri, msg, signer).0;
    if quiet(s, t) {
        lemma_quiet_keeps(s, t);
    } else {
        let l = s.logged(Direction::In, signer, uri, msg);
        s.lemma_logged_quiet(Direction::In, signer, uri, msg);
        lemma_quiet_keeps(s, l);
        lemma_disconnect_keeps(l, uri);
        lemma_disconnect_members(l, uri);
        lemma_keeps_chain(s, l, t);
        if bindings_agree(s) {
            lemma_disconnect_forgets(l, uri);
        }
    }
}

/// The state in which the join of `d` over `uri` has put the agent into the
/// space and asked for its lists, before the messages that waited are
/// handled.
pub open spec fn joined_before_replay(s: Sim2hView, uri: Key, d: SpaceDataView) -> Sim2hView {
    let space = s.space(d.space_address);
    Sim2hView {
        connections: s.connections.insert(
            uri,
            ConnectionStateView::Joined(d.space_address, d.agent_id),
        ),
        ..s
    }.put_space(
        d.space_address,
        SpaceView {
            agents: put(space.agents, d.agent_id, AgentInfoView { uri, location: d.agent_location }),
            ..space
        },
    ).send(
        d.agent_id,
        uri,
        crate::model::authoring_list_request(d.space_address, d.agent_id),
    ).send(d.agent_id, uri, crate::model::gossiping_list_request(d.space_address, d.agent_id))
}

/// What a join comes to. A join from an address of another agent of the
/// space changes nothing. Any other join keeps, up to the replay, what every
/// step keeps, and makes the connection its agent's address; it leaves all
/// joined connections their agents' addresses unless the agent is in the
/// space already.
pub proof fn lemma_join_keeps(s: Sim2hView, uri: Key, d: SpaceDataView)
    requires
        s.wf(),
        s.connections.contains_key(uri),
        s.connections[uri] is Limbo,
    ensures
        bindings_agree(s) ==> !claimed_by_other(s.space(d.space_address).agents, d.agent_id, uri),
        claimed_by_other(s.space(d.space_address).agents, d.agent_id, uri) ==> s.join(uri, d) == (
            s,
            Err::<(), crate::error::Sim2hError>(crate::error::Sim2hError::UriClaimed),
        ),
        !claimed_by_other(s.space(d.space_address).agents, d.agent_id, uri) ==> s.join(uri, d).0
            == joined_before_replay(s, uri, d).replay_from(
            uri,
            s.connections[uri]->Limbo_0,
            d.agent_id,
            0,
        ) && keeps(s, joined_before_replay(s, uri, d)),
        joined_are_members(s) && !has_key(s.space(d.space_address).agents, d.agent_id)
            ==> joined_are_members(joined_before_replay(s, uri, d)),
        bindings_agree(s) && !has_key(s.space(d.space_address).agents, d.agent_id)
            ==> bindings_agree(joined_before_replay(s, uri, d)),
{
    let sp = d.space_address;
    let a = d.agent_id;
    let agents = s.space(sp).agents;
    let info = AgentInfoView { uri, location: d.agent_location };
    let c1 = Sim2hView {
        connections: s.connections.insert(uri, ConnectionStateView::Joined(sp, a)),
        ..s
    };
    assert(distinct_keys(agents));
    lemma_put(agents, a, info);
    let s2 = c1.put_space(sp, SpaceView { agents: put(agents, a, info), ..s.space(sp) });
    let m1 = crate::model::authoring_list_request(sp, a);
    let m2 = crate::model::gossiping_list_request(sp, a);
    let s3 = s2.send(a, uri, m1);
    let s4 = s3.send(a, uri, m2);
    s2.lemma_send_quiet(a, uri, m1);
    s3.lemma_send_quiet(a, uri, m2);
    lemma_quiet_chain(s2, s3, s4);
    lemma_quiet_keeps(s2, s4);
    lemma_extends(s.outbox, s.outbox, s.outbox, arbitrary());
    if bindings_agree(s) {
        if claimed_by_other(agents, a, uri) {
            let i = choose|i: int| 0 <= i < agents.len() && (#[trigger] agents[i]).0 != a
                && agents[i].1.uri == uri;
            lemma_position_unique(agents, i);
            assert(s.spaces.contains_key(sp));
            assert(has_key(s.spaces[sp].agents, agents[i].0));
        }
    }
    assert(keeps(s, s2)) by {
        assert forall|k: Key| #[trigger] s2.spaces.contains_key(k) implies ledger_known(
            s2.spaces[k],
        ) || !ledgers_known(s) by {
            if k == sp {
                if s.spaces.contains_key(sp) {
                    assert(ledger_known(s.spaces[sp]) || !ledgers_known(s));
                } else {
                    assert(ledger_known(SpaceView::empty()));
                }
            } else {
                assert(s.spaces.contains_key(k));
            }
        }
        assert(aspects_grow(s, s2));
    }
    assert(keeps(s, s4)) by {
        lemma_extends(s.outbox, s2.outbox, s4.outbox, arbitrary());
        assert(aspects_grow(s2, s4) || closes(s2, s4));
        if closes(s2, s4) {
            let i = choose|i: int|
                s2.outbox.len() <= i < s4.outbox.len() && #[trigger] s4.outbox[i] is CloseConnection;
            assert(s4.outbox[i] is CloseConnection);
        } else {
            assert forall|k: Key, e: Key, x: Key|
                s.spaces.contains_key(k) && #[trigger] holds(
                    s.spaces[k].all_aspects,
                    e,
                    x,
                ) implies s4.spaces.contains_key(k) && holds(s4.spaces[k].all_aspects, e, x) by {
                assert(s2.spaces.contains_key(k) && holds(s2.spaces[k].all_aspects, e, x));
            }
        }
        if ledgers_known(s) && s.wf() {
            assert(ledgers_known(s2));
            assert forall|k: Key| #[trigger] s4.spaces.contains_key(k) implies ledger_known(
                s4.spaces[k],
            ) by {
                assert(space_grows(s2.space(k), s4.spaces[k]));
                if s2.spaces.contains_key(k) {
                    assert(ledger_known(s2.spaces[k]));
                    if k == sp {
                        assert(crate::aspect_list::well_formed(s.space(sp).all_aspects));
                    } else {
                        assert(s.spaces.contains_key(k));
                        assert(s.spaces[k].wf());
                    }
                } else {
                    assert(ledger_known(SpaceView::empty()));
                }
            }
        }
    }
    if joined_are_members(s) && !has_key(agents, a) {
        assert(joined_are_members(s2)) by {
            assert forall|u: Key| #[trigger] s2.connections.contains_key(u) implies (
            s2.connections[u] matches ConnectionStateView::Joined(k, b) ==> s2.spaces.contains_key(
                k,
            ) && (lookup(s2.spaces[k].agents, b) matches Some(i2) && i2.uri == u)) by {
                if u != uri {
                    assert(s.connections.contains_key(u));
                    if let ConnectionStateView::Joined(k, b) = s.connections[u] {
                        assert(s.spaces.contains_key(k));
                        if k == sp {
                            assert(has_key(agents, b));
                            assert(b != a);
                        }
                    }
                }
            }
        }
        lemma_quiet_keeps(s2, s4);
    }
    if bindings_agree(s) && !has_key(agents, a) {
        assert(members_are_joined(s2)) by {
            assert forall|k: Key, b: Key|
                s2.spaces.contains_key(k) && #[trigger] has_key(s2.spaces[k].agents, b) implies {
                let u = lookup(s2.spaces[k].agents, b)->Some_0.uri;
                s2.connections.contains_key(u) && s2.connections[u]
                    == ConnectionStateView::Joined(k, b)
            } by {
                if k == sp && b == a {
                } else {
                    if k == sp {
                        assert(has_key(agents, b));
                        assert(s.spaces.contains_key(sp));
                    }
                    assert(has_key(s.spaces[k].agents, b));
                    let u = lookup(s.spaces[k].agents, b)->Some_0.uri;
                    assert(s.connections[u] == ConnectionStateView::Joined(k, b));
                    assert(u != uri);
                }
            }
        }
        lemma_quiet_keeps(s2, s4);
    }
}

/// What keeping a message for after the join, or answering it in limbo,
/// keeps.
pub proof fn lemma_limbo_keeps(s: Sim2hView, uri: Key, msg: WireMessageView, signer: Key)
    requires
        s.connections.contains_key(uri),
        s.connections[uri] is Limbo,
        !(msg matches WireMessageView::ClientToLib3h(ClientToLib3hView::JoinSpace(_))),
    ensures
        keeps(s, s.handle_message(uri, msg, signer).0),
        joined_are_members(s) ==> joined_are_members(s.handle_message(uri, msg, signer).0),
        bindings_agree(s) ==> bindings_agree(s.handle_message(uri, msg, signer).0),
{
    let t = s.handle_message(uri, msg, signer).0;
    lemma_limbo_keeps_spaces(s, uri, msg, signer);
    assert(aspects_grow(s, t));
    assert(t.connections.contains_key(uri) && t.connections[uri] is Limbo);
    if joined_are_members(s) {
        assert forall|u: Key| #[trigger] t.connections.contains_key(u) implies (
        t.connections[u] matches ConnectionStateView::Joined(sp, a) ==> t.spaces.contains_key(sp)
            && (lookup(t.spaces[sp].agents, a) matches Some(info) && info.uri == u)) by {
            if u != uri {
                assert(s.connections.contains_key(u));
                assert(t.connections[u] == s.connections[u]);
            }
        }
    }
    if bindings_agree(s) {
        assert forall|sp: Key, a: Key|
            t.spaces.contains_key(sp) && #[trigger] has_key(t.spaces[sp].agents, a) implies {
            let u = lookup(t.spaces[sp].agents, a)->Some_0.uri;
            t.connections.contains_key(u) && t.connections[u] == ConnectionStateView::Joined(sp, a)
        } by {
            assert(has_key(s.spaces[sp].agents, a));
            let u = lookup(s.spaces[sp].agents, a)->Some_0.uri;
            assert(s.connections[u] == ConnectionStateView::Joined(sp, a));
            assert(u != uri);
            assert(t.connections[u] == s.connections[u]);
        }
    }
}

/// The agent that a fetch goes to, whatever the order of the pool: it is one
/// of the pool from position `i` on, it is not the agent that the aspects
/// are for, and the ledger does not show it to lack every one of them; and
/// if the fetch goes to nobody, the pool holds no such agent from `i` on.
pub proof fn lemma_first_source(
    ledger: Seq<crate::space::Missing>,
    entry: Key,
    aspects: Seq<Key>,
    for_agent: Key,
    pool: Seq<Key>,
    i: int,
)
    requires
        0 <= i,
    ensures
        match crate::model::first_source_from(ledger, entry, aspects, for_agent, pool, i) {
            Some(a) => exists|k: int|
                i <= k < pool.len() && #[trigger] pool[k] == a && a != for_agent
                    && !crate::space::missing_all(ledger, a, entry, aspects),
            None => forall|k: int|
                i <= k < pool.len() ==> #[trigger] pool[k] == for_agent
                    || crate::space::missing_all(ledger, pool[k], entry, aspects),
        },
    decreases pool.len() - i,
{
    if i < pool.len() {
        if pool[i] != for_agent && !crate::space::missing_all(ledger, pool[i], entry, aspects) {
            assert(pool[i] == pool[i]);
        } else {
            lemma_first_source(ledger, entry, aspects, for_agent, pool, i + 1);
        }
    }
}

/// A message that only the switchboard may send is turned down when it
/// arrives over a joined connection, and changes nothing.
pub proof fn lemma_wrong_direction(s: Sim2hView, uri: Key, sp: Key, agent: Key, msg: WireMessageView)
    requires
        crate::model::server_only(msg),
    ensures
        s.handle_joined(uri, sp, agent, msg) == (
            s,
            Err::<(), crate::error::Sim2hError>(crate::error::Sim2hError::WrongDirection),
        ),
{
}

/// The agent that a query goes to, when there are candidates, is one of the
/// candidates.
pub proof fn lemma_query_target(candidates: Seq<Key>, seed: u64)
    requires
        candidates.len() > 0,
    ensures
        candidates.contains(crate::model::drawn(candidates, seed)[0]),
{
    crate::model::lemma_drawn(candidates, seed);
    let d = crate::model::drawn(candidates, seed);
    assert(d.contains(d[0]));
}

/// The agent that a fetch goes to is an agent of the pool other than the one
/// that the aspects are for, and one that the ledger does not show to lack
/// every one of the aspects.
pub proof fn lemma_fetch_source(
    ledger: Seq<crate::space::Missing>,
    entry: Key,
    aspects: Seq<Key>,
    for_agent: Key,
    pool: Seq<Key>,
    seed: u64,
)
    ensures
        crate::model::first_source_from(
            ledger,
            entry,
            aspects,
            for_agent,
            crate::model::drawn(pool, seed),
            0,
        ) matches Some(a) ==> pool.contains(a) && a != for_agent && !crate::space::missing_all(
            ledger,
            a,
            entry,
            aspects,
        ),
{
    let d = crate::model::drawn(pool, seed);
    crate::model::lemma_drawn(pool, seed);
    lemma_first_source(ledger, entry, aspects, for_agent, d, 0);
    if let Some(a) = crate::model::first_source_from(ledger, entry, aspects, for_agent, d, 0) {
        let k = choose|k: int|
            0 <= k < d.len() && #[trigger] d[k] == a && a != for_agent
                && !crate::space::missing_all(ledger, a, entry, aspects);
        assert(d.contains(a));
    }
}

/// Under full sync, an agent that reports exactly what its space has been
/// told of is asked for nothing and lacks nothing: the step changes nothing.
pub proof fn lemma_gossip_of_what_is_known(
    s: Sim2hView,
    uri: Key,
    sp: Key,
    agent: Key,
    pairs: crate::aspect_list::Aspects,
)
    requires
        s.wf(),
        s.spaces.contains_key(sp),
        s.algorithm is FullSync,
        crate::aspect_list::from_pairs(pairs) == s.spaces[sp].all_aspects,
    ensures
        s.handle_gossiping_list(uri, sp, agent, pairs) == s,
{
    let known = s.spaces[sp].all_aspects;
    crate::aspect_list::lemma_diff_self(known);
    assert(s.ensure_space(sp).spaces =~= s.spaces);
    assert(s.ensure_space(sp) == s);
}

/// Whether `x` is one of `xs` from position `j` on.
pub open spec fn among_from(xs: Seq<Key>, x: Key, j: int) -> bool {
    exists|k: int| j <= k < xs.len() && #[trigger] xs[k] == x
}

/// Whether `missing` lists aspect `x` for entry `e` at a position from `i`
/// on.
pub open spec fn listed_from(missing: crate::aspect_list::Aspects, e: Key, x: Key, i: int) -> bool {
    exists|k: int| i <= k < missing.len() && (#[trigger] missing[k]).0 == e && missing[k].1.contains(x)
}

/// Noting the aspects of one entry adds a line for each of them, and no
/// other line.
pub proof fn lemma_note_entry_lines(
    ledger: Seq<crate::space::Missing>,
    agent: Key,
    entry: Key,
    aspects: Seq<Key>,
    j: int,
)
    requires
        0 <= j,
    ensures
        forall|line: crate::space::Missing| #[trigger]
            crate::model::note_entry_from(ledger, agent, entry, aspects, j).contains(line) <==> (
            ledger.contains(line) || (line.0 == agent && line.1 == entry && among_from(
                aspects,
                line.2,
                j,
            ))),
    decreases aspects.len() - j,
{
    let r = crate::model::note_entry_from(ledger, agent, entry, aspects, j);
    if j < aspects.len() {
        let l0 = (agent, entry, aspects[j]);
        let next = crate::space::with_missing(ledger, l0);
        lemma_note_entry_lines(next, agent, entry, aspects, j + 1);
        assert(r == crate::model::note_entry_from(next, agent, entry, aspects, j + 1));
        assert forall|line: crate::space::Missing| #[trigger] r.contains(line) <==> (
        ledger.contains(line) || (line.0 == agent && line.1 == entry && among_from(
            aspects,
            line.2,
            j,
        ))) by {
            // the lines of `next` are those of `ledger` and `l0`
            if ledger.contains(line) {
                let p = choose|p: int| 0 <= p < ledger.len() && ledger[p] == line;
                assert(next[p] == line);
                assert(next.contains(line));
            }
            if line == l0 {
                if !ledger.contains(l0) {
                    assert(next[ledger.len() as int] == l0);
                }
                assert(next.contains(line));
                assert(aspects[j] == line.2);
            }
            if next.contains(line) && !ledger.contains(line) {
                let p = choose|p: int| 0 <= p < next.len() && next[p] == line;
                if p < ledger.len() {
                    assert(ledger[p] == line);
                }
                assert(line == l0);
            }
            if among_from(aspects, line.2, j) {
                let k = choose|k: int| j <= k < aspects.len() && #[trigger] aspects[k] == line.2;
                if k > j {
                    assert(among_from(aspects, line.2, j + 1));
                }
            }
            if among_from(aspects, line.2, j + 1) {
                let k = choose|k: int| j + 1 <= k < aspects.len() && #[trigger] aspects[k] == line.2;
                assert(aspects[k] == line.2);
            }
        }
    } else {
        assert(r == ledger);
    }
}

/// Noting what an agent lacks adds a line for each aspect that the list of
/// what it lacks holds, and no other line.
pub proof fn lemma_note_missing_lines(
    ledger: Seq<crate::space::Missing>,
    agent: Key,
    missing: crate::aspect_list::Aspects,
    i: int,
)
    requires
        0 <= i,
    ensures
        forall|line: crate::space::Missing| #[trigger]
            crate::model::note_missing_from(ledger, agent, missing, i).contains(line) <==> (
            ledger.contains(line) || (line.0 == agent && listed_from(
                missing,
                line.1,
                line.2,
                i,
            ))),
    decreases missing.len() - i,
{
    let r = crate::model::note_missing_from(ledger, agent, missing, i);
    if i < missing.len() {
        let next = crate::model::note_entry_from(ledger, agent, missing[i].0, missing[i].1, 0);
        lemma_note_entry_lines(ledger, agent, missing[i].0, missing[i].1, 0);
        lemma_note_missing_lines(next, agent, missing, i + 1);
        assert(r == crate::model::note_missing_from(next, agent, missing, i + 1));
        assert forall|line: crate::space::Missing| #[trigger] r.contains(line) <==> (
        ledger.contains(line) || (line.0 == agent && listed_from(
            missing,
            line.1,
            line.2,
            i,
        ))) by {
            if among_from(missing[i].1, line.2, 0) {
                let k = choose|k: int|
                    0 <= k < missing[i].1.len() && #[trigger] missing[i].1[k] == line.2;
                assert(missing[i].1.contains(line.2));
            }
            if missing[i].1.contains(line.2) {
                let k = choose|k: int| 0 <= k < missing[i].1.len() && missing[i].1[k] == line.2;
                assert(missing[i].1[k] == line.2);
                assert(among_from(missing[i].1, line.2, 0));
            }
            if listed_from(missing, line.1, line.2, i) {
                let k = choose|k: int|
                    i <= k < missing.len() && (#[trigger] missing[k]).0 == line.1
                        && missing[k].1.contains(line.2);
                if k > i {
                    assert(listed_from(missing, line.1, line.2, i + 1));
                }
            }
            if listed_from(missing, line.1, line.2, i + 1) {
                let k = choose|k: int|
                    i + 1 <= k < missing.len() && (#[trigger] missing[k]).0 == line.1
                        && missing[k].1.contains(line.2);
                assert(missing[k].0 == line.1);
            }
            if line.1 == missing[i].0 && missing[i].1.contains(line.2) {
                assert(missing[i].0 == line.1);
            }
        }
    } else {
        assert(r == ledger);
    }
}

/// With distinct entries, a list holds an aspect of an entry just when it
/// lists it at some position.
pub proof fn lemma_listed_is_held(missing: crate::aspect_list::Aspects, e: Key, x: Key)
    requires
        distinct_keys(missing),
    ensures
        listed_from(missing, e, x, 0) <==> holds(missing, e, x),
{
    if listed_from(missing, e, x, 0) {
        let k = choose|k: int|
            0 <= k < missing.len() && (#[trigger] missing[k]).0 == e && missing[k].1.contains(x);
        lemma_position_unique(missing, k);
    }
    if holds(missing, e, x) {
        if has_key(missing, e) {
            let p = position(missing, e);
            assert(missing[p].0 == e);
        } else {
            assert(crate::aspect_list::aspects_of(missing, e) =~= Seq::<Key>::empty());
        }
    }
}

/// What taking in the list of what an agent holds does to the space: its
/// agents and what it has been told of stay, and the ledger gains a line for
/// the agent and each aspect that the agent is expected to hold and did not
/// report, and no other line.
pub proof fn lemma_gossip_ledger(
    s: Sim2hView,
    uri: Key,
    sp: Key,
    agent: Key,
    pairs: crate::aspect_list::Aspects,
)
    requires
        s.wf(),
    ensures
        ({
            let t = s.handle_gossiping_list(uri, sp, agent, pairs);
            let missing = crate::aspect_list::diff(
                s.expected_of(sp, agent),
                crate::aspect_list::from_pairs(pairs),
            );
            &&& t.spaces.contains_key(sp)
            &&& t.spaces[sp].agents == s.space(sp).agents
            &&& t.spaces[sp].all_aspects == s.space(sp).all_aspects
            &&& forall|k: Key| k != sp ==> t.spaces.contains_key(k) == s.spaces.contains_key(k)
            &&& forall|k: Key| k != sp && s.spaces.contains_key(k) ==> t.spaces[k] == s.spaces[k]
            &&& forall|line: crate::space::Missing| #[trigger]
                t.spaces[sp].missing.contains(line) <==> (s.space(sp).missing.contains(line) || (
                line.0 == agent && holds(missing, line.1, line.2)))
        }),
{
    let t = s.handle_gossiping_list(uri, sp, agent, pairs);
    let s1 = s.handle_unseen_aspects(uri, sp, agent, pairs);
    s.lemma_unseen_quiet(uri, sp, agent, pairs);
    let space = s1.space(sp);
    assert(space == s.space(sp));
    let expected = s1.expected_of(sp, agent);
    assert(expected == s.expected_of(sp, agent));
    let reported = crate::aspect_list::from_pairs(pairs);
    let missing = crate::aspect_list::diff(expected, reported);
    match s1.algorithm {
        crate::dht::DhtAlgorithm::FullSync => {},
        crate::dht::DhtAlgorithm::NaiveSharding { redundant_count } => {
            crate::quiet::lemma_shard_of(space, space.all_aspects, agent, redundant_count as nat);
        },
    }
    crate::aspect_list::lemma_diff(expected, reported);
    if missing.len() == 0 {
        assert(t == s1);
        assert forall|line: crate::space::Missing| #[trigger]
            t.spaces[sp].missing.contains(line) <==> (s.space(sp).missing.contains(line) || (line.0
                == agent && holds(missing, line.1, line.2))) by {
            assert(crate::aspect_list::aspects_of(missing, line.1) =~= Seq::<Key>::empty()) by {
                if has_key(missing, line.1) {
                    let p = position(missing, line.1);
                }
            }
        }
    } else {
        let noted = SpaceView {
            missing: crate::model::note_missing_from(space.missing, agent, missing, 0),
            ..space
        };
        let s2 = s1.put_space(sp, noted);
        match s.algorithm {
            crate::dht::DhtAlgorithm::FullSync => {
                if space.agents.len() != 1 {
                    crate::frame::lemma_fetch_frame(
                        s2,
                        missing,
                        agent,
                        crate::model::member_ids(space.agents),
                        sp,
                    );
                }
            },
            crate::dht::DhtAlgorithm::NaiveSharding { redundant_count } => {
                crate::frame::lemma_fetch_by_shard_frame(s2, missing, agent, sp, redundant_count, 0);
            },
        }
        assert(t.spaces == s2.spaces);
        lemma_note_missing_lines(space.missing, agent, missing, 0);
        assert forall|line: crate::space::Missing| #[trigger]
            t.spaces[sp].missing.contains(line) <==> (s.space(sp).missing.contains(line) || (line.0
                == agent && holds(missing, line.1, line.2))) by {
            lemma_listed_is_held(missing, line.1, line.2);
        }
    }
}

} // verus!
