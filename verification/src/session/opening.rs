//! Opening a session, from the CONNECT to the first packet that may be sent.

use vstd::prelude::*;

use crate::client;
use crate::client::send;
use crate::client::send::SendOutcome;
use crate::client::{
    ClientError, Clock, ConnectionStatus, ContextModel, Keeping, Moment, MqttContext, Store,
};
use crate::connect;
use crate::connect::{connect_packet_size, Connect, ConnectSize};
use crate::context::{ClientLimits, ConnectionProperties};
use crate::reader::Transport;
use crate::session;
use crate::session::announce;
use crate::session::resume;
use crate::state;
use crate::state::{AckType, Operation, QoS};
use crate::validate;
use crate::validate::{
    id, validate_connect_properties, validate_will_properties, ConnectValidation,
};
use crate::wire;

verus! {

/// The size of a network buffer, as far as a property can say it.
pub open spec fn announced_size(network: Seq<u8>) -> u32 {
    if network.len() > u32::MAX {
        u32::MAX
    } else {
        network.len() as u32
    }
}

/// The properties that go out with a CONNECT: its own, or the size of the
/// network buffer.
pub open spec fn outgoing_properties(context: ContextModel, connect: Connect<'_>) -> Seq<u8> {
    if connect.properties@.len() == 0 {
        seq![id::MAX_PACKET_SIZE] + wire::u32_bytes(announced_size(context.network))
    } else {
        connect.properties@
    }
}

/// The CONNECT that goes out.
pub open spec fn goes_out(
    context: ContextModel,
    connect: Connect<'_>,
    outgoing: Connect<'_>,
) -> bool {
    &&& outgoing.info == connect.info
    &&& outgoing.client_identifier == connect.client_identifier
    &&& outgoing.will == connect.will
    &&& outgoing.properties@ == outgoing_properties(context, connect)
}

/// Whether the properties of a CONNECT may be sent, and the context that goes
/// with them.
pub open spec fn prepared(context: ContextModel, connect: Connect<'_>) -> (
    Result<(), ClientError>,
    ContextModel,
) {
    let blank = ConnectValidation { request_problem_info: false, max_packet_size: None };
    let (answer, found) = validate::connect_check(connect.properties@, Set::empty(), blank);
    if connect.will matches Some(will) && (validate::section_too_long(will.properties@)
        || !validate::will_properties_ok(will.properties@, Set::empty())) {
        (Err(ClientError::BadParameter), context)
    } else if connect.properties@.len() == 0 {
        (
            Ok(()),
            ContextModel {
                properties: ConnectionProperties {
                    client: ClientLimits {
                        max_packet_size: announced_size(context.network),
                        ..context.properties.client
                    },
                    ..context.properties
                },
                ..context
            },
        )
    } else if validate::section_too_long(connect.properties@) || answer is Err {
        (Err(ClientError::BadParameter), context)
    } else {
        (
            if found.max_packet_size matches Some(size) && size > context.network.len() {
                Err(ClientError::BadParameter)
            } else {
                Ok(())
            },
            ContextModel {
                properties: ConnectionProperties {
                    client: ClientLimits {
                        request_problem_info: found.request_problem_info,
                        ..context.properties.client
                    },
                    ..context.properties
                },
                ..context
            },
        )
    }
}

/// The context with no more records than both sides allow for.
pub open spec fn capped(context: ContextModel) -> ContextModel {
    ContextModel {
        records: match context.records {
            None => None,
            Some(records) => Some(
                records.capped(
                    context.properties.server.receive_max as int,
                    context.properties.client.receive_max as int,
                ),
            ),
        },
        ..context
    }
}

/// A connection that is up, and has been silent so far.
pub open spec fn up(context: ContextModel) -> ContextModel {
    ContextModel {
        status: ConnectionStatus::Connected,
        keep_alive_seconds: context.properties.server.keep_alive,
        waiting_for_ping_resp: false,
        ping_req_send_time: 0,
        ..context
    }
}

/// A session began with a CONNACK that was accepted. `asked` is what was asked
/// of the store.
pub open spec fn session_begun<S: Store>(
    before: Moment,
    after: Moment,
    store: Option<S>,
    kept: bool,
    asked: Seq<Keeping>,
    result: Result<(), ClientError>,
) -> bool {
    let context = capped(before.context);
    if kept {
        &&& asked == Seq::<Keeping>::empty()
        &&& resume::resumed(Moment { context: up(context), ..before }, after, store, result)
    } else {
        &&& asked == if store is Some {
            resume::forgotten_in_store(context)
        } else {
            Seq::empty()
        }
        &&& after == (Moment { context: up(resume::forgotten(context)), ..before })
        &&& result == Ok::<(), ClientError>(())
    }
}

/// What happens once a CONNECT has gone out: at the moment `answered` the
/// CONNACK had been waited for.
pub open spec fn connect_followed<S: Store>(
    answered: Moment,
    after: Moment,
    store: Option<S>,
    kept: Option<bool>,
    asked: Seq<Keeping>,
    answer: Result<(), ClientError>,
    result: Result<(), ClientError>,
) -> bool {
    if answer is Err {
        after == answered && result == answer && asked == Seq::<Keeping>::empty()
    } else {
        kept is Some && session_begun(answered, after, store, kept->0, asked, result)
    }
}

/// A session was opened, or that failed: a CONNECT was sent, a CONNACK received,
/// and the session begun.
pub open spec fn session_opened<S: Store>(
    before: Moment,
    after: Moment,
    store: Option<S>,
    connect: Connect<'_>,
    remaining_length: u32,
    timeout_ms: u32,
    kept: Option<bool>,
    asked: Seq<Keeping>,
    result: Result<(), ClientError>,
) -> bool {
    ||| {
        &&& result is Err
        &&& announce::connect_sent(before, after, connect, remaining_length, result)
        &&& kept is None
        &&& asked == Seq::<Keeping>::empty()
    }
    ||| exists|sent: Moment, answered: Moment, answer: Result<(), ClientError>|
        {
            &&& announce::connect_sent(before, sent, connect, remaining_length, Ok(()))
            &&& #[trigger] session::connack_received(
                sent,
                answered,
                timeout_ms,
                connect.info.clean_session,
                kept,
                answer,
            )
            &&& connect_followed(answered, after, store, kept, asked, answer, result)
        }
}

/// The context after a connect that failed once the connection was up.
pub open spec fn given_up(context: ContextModel, result: Result<(), ClientError>) -> ContextModel {
    if result is Err && context.status == ConnectionStatus::Connected {
        ContextModel { status: ConnectionStatus::DisconnectPending, ..context }
    } else {
        context
    }
}

/// What happens to a CONNECT that is ready to go out.
pub open spec fn connect_made<S: Store>(
    before: Moment,
    after: Moment,
    store: Option<S>,
    outgoing: Connect<'_>,
    timeout_ms: u32,
    kept: Option<bool>,
    asked: Seq<Keeping>,
    result: Result<(), ClientError>,
) -> bool {
    let idle = after == before && kept is None && asked == Seq::<Keeping>::empty();
    match connect::connect_size(outgoing) {
        Err(error) => idle && result == Err::<(), ClientError>(client::from_connect(error)),
        Ok(size) => match before.context.status {
            ConnectionStatus::Connected => idle && result == Err::<(), ClientError>(
                ClientError::StatusConnected,
            ),
            ConnectionStatus::DisconnectPending => idle && result == Err::<(), ClientError>(
                ClientError::DisconnectPending,
            ),
            ConnectionStatus::NotConnected => exists|opened: Moment| #[trigger]
                session_opened(
                    before,
                    opened,
                    store,
                    outgoing,
                    size.remaining_length,
                    timeout_ms,
                    kept,
                    asked,
                    result,
                ) && after == (Moment { context: given_up(opened.context, result), ..opened }),
        },
    }
}

/// A connection was asked for, with this result. `kept` is what came to be known
/// of the session, and `asked` what was asked of the store.
pub open spec fn connecting<S: Store>(
    before: Moment,
    after: Moment,
    store: Option<S>,
    connect: Connect<'_>,
    timeout_ms: u32,
    kept: Option<bool>,
    asked: Seq<Keeping>,
    result: Result<(), ClientError>,
) -> bool {
    let (ready, context) = prepared(before.context, connect);
    if ready is Err {
        &&& after == (Moment { context, ..before })
        &&& kept is None
        &&& asked == Seq::<Keeping>::empty()
        &&& result == ready
    } else {
        exists|outgoing: Connect<'_>| #[trigger]
            goes_out(before.context, connect, outgoing) && connect_made(
                Moment { context, ..before },
                after,
                store,
                outgoing,
                timeout_ms,
                kept,
                asked,
                result,
            )
    }
}

/// A CONNACK that was accepted said whether the session was kept.
proof fn lemma_accepted_says(
    before: Moment,
    after: Moment,
    timeout_ms: u32,
    clean_session: bool,
    kept: Option<bool>,
)
    requires
        session::connack_received(before, after, timeout_ms, clean_session, kept, Ok(())),
    ensures
        kept is Some,
{
}

impl<'a> MqttContext<'a> {
    /// Begins a session with a CONNACK that was accepted.
    fn begin_session<T: Transport, C: Clock, S: Store>(
        &mut self,
        transport: &mut T,
        clock: &mut C,
        store: Option<&mut S>,
        session_present: bool,
    ) -> (result: Result<(), ClientError>)
        ensures
            match store {
                Some(keeper) => exists|asked: Seq<Keeping>| #[trigger]
                    session_begun(
                        Moment::of(*old(self), *old(transport), *old(clock)),
                        Moment::of(*final(self), *final(transport), *final(clock)),
                        Some(*keeper),
                        session_present,
                        asked,
                        result,
                    ) && final(keeper).keepings() == keeper.keepings() + asked,
                None => session_begun(
                    Moment::of(*old(self), *old(transport), *old(clock)),
                    Moment::of(*final(self), *final(transport), *final(clock)),
                    None::<S>,
                    session_present,
                    Seq::empty(),
                    result,
                ),
            },
    {
        let ghost before = Moment::of(*self, *transport, *clock);
        let server_max = self.properties.server.receive_max as usize;
        let client_max = self.properties.client.receive_max as usize;
        if let Some(records) = &mut self.records {
            records.cap(server_max, client_max);
        }
        assert(self@ =~= capped(before.context));
        if session_present {
            self.note_up();
            match store {
                Some(keeper) => {
                    let ghost held = *keeper;
                    let result = self.handle_unclean_session(transport, clock, Some(&mut *keeper));
                    let ghost after = Moment::of(*self, *transport, *clock);
                    assert(session_begun(
                        before,
                        after,
                        Some(held),
                        true,
                        Seq::<Keeping>::empty(),
                        result,
                    ));
                    assert(held.keepings() =~= held.keepings() + Seq::<Keeping>::empty());
                    result
                },
                None => self.handle_unclean_session(transport, clock, None::<&mut S>),
            }
        } else {
            match store {
                Some(keeper) => {
                    let ghost held = *keeper;
                    self.handle_clean_session(Some(&mut *keeper));
                    self.note_up();
                    let ghost after = Moment::of(*self, *transport, *clock);
                    assert(session_begun(
                        before,
                        after,
                        Some(held),
                        false,
                        resume::forgotten_in_store(capped(before.context)),
                        Ok(()),
                    ));
                },
                None => {
                    self.handle_clean_session(None::<&mut S>);
                    self.note_up();
                },
            }
            Ok(())
        }
    }

    /// Notes that the connection is up.
    fn note_up(&mut self)
        ensures
            final(self)@ == up(old(self)@),
    {
        self.connect_status = ConnectionStatus::Connected;
        self.keep_alive_seconds = self.properties.server.keep_alive;
        self.waiting_for_ping_resp = false;
        self.ping_req_send_time = 0;
    }

    /// Sends a CONNECT, waits for the CONNACK, and begins the session.
    fn connect_inner<T: Transport, C: Clock, S: Store>(
        &mut self,
        transport: &mut T,
        clock: &mut C,
        store: Option<&mut S>,
        connect: &Connect<'_>,
        timeout_ms: u32,
        size: ConnectSize,
        session_present: &mut bool,
    ) -> (result: Result<(), ClientError>)
        requires
            connect::connect_size(*connect) == Ok::<ConnectSize, connect::ConnectError>(size),
        ensures
            match store {
                Some(keeper) => exists|kept: Option<bool>, asked: Seq<Keeping>| #[trigger]
                    session_opened(
                        Moment::of(*old(self), *old(transport), *old(clock)),
                        Moment::of(*final(self), *final(transport), *final(clock)),
                        Some(*keeper),
                        *connect,
                        size.remaining_length,
                        timeout_ms,
                        kept,
                        asked,
                        result,
                    ) && final(keeper).keepings() == keeper.keepings() + asked
                        && *final(session_present) == known(kept, *old(session_present)),
                None => exists|kept: Option<bool>| #[trigger]
                    session_opened(
                        Moment::of(*old(self), *old(transport), *old(clock)),
                        Moment::of(*final(self), *final(transport), *final(clock)),
                        None::<S>,
                        *connect,
                        size.remaining_length,
                        timeout_ms,
                        kept,
                        Seq::empty(),
                        result,
                    ) && *final(session_present) == known(kept, *old(session_present)),
            },
    {
        let ghost before = Moment::of(*self, *transport, *clock);
        let ghost clean = connect.info.clean_session;
        let announcement = self.send_connect(transport, clock, connect, size.remaining_length);
        let ghost sent = Moment::of(*self, *transport, *clock);
        if announcement.is_err() {
            proof {
                lemma_nothing_asked();
                match store {
                    Some(keeper) => {
                        assert(session_opened(
                            before,
                            sent,
                            Some(*keeper),
                            *connect,
                            size.remaining_length,
                            timeout_ms,
                            None,
                            Seq::empty(),
                            announcement,
                        ));
                    },
                    None => {
                        assert(session_opened(
                            before,
                            sent,
                            None::<S>,
                            *connect,
                            size.remaining_length,
                            timeout_ms,
                            None,
                            Seq::empty(),
                            announcement,
                        ));
                    },
                }
            }
            return announcement;
        }
        assert(announcement == Ok::<(), ClientError>(()));
        let answer = self.receive_connack(
            transport,
            clock,
            timeout_ms,
            connect.info.clean_session,
            session_present,
        );
        let ghost answered = Moment::of(*self, *transport, *clock);
        let ghost kept = choose|kept: Option<bool>|
            {
                &&& #[trigger] session::connack_received(
                    sent,
                    answered,
                    timeout_ms,
                    clean,
                    kept,
                    answer,
                )
                &&& *session_present == known(kept, *old(session_present))
            };
        proof {
            lemma_nothing_asked();
        }
        if answer.is_err() {
            proof {
                match store {
                    Some(keeper) => {
                        lemma_opened_with_answer(
                            before,
                            sent,
                            answered,
                            answered,
                            Some(*keeper),
                            *connect,
                            size.remaining_length,
                            timeout_ms,
                            kept,
                            Seq::empty(),
                            answer,
                            answer,
                        );
                    },
                    None => {
                        lemma_opened_with_answer(
                            before,
                            sent,
                            answered,
                            answered,
                            None::<S>,
                            *connect,
                            size.remaining_length,
                            timeout_ms,
                            kept,
                            Seq::empty(),
                            answer,
                            answer,
                        );
                    },
                }
            }
            return answer;
        }
        proof {
            assert(answer == Ok::<(), ClientError>(()));
            lemma_accepted_says(sent, answered, timeout_ms, clean, kept);
        }
        let session_present: bool = *session_present;
        match store {
            Some(keeper) => {
                let ghost held = *keeper;
                let result = self.begin_session(
                    transport,
                    clock,
                    Some(&mut *keeper),
                    session_present,
                );
                let ghost after = Moment::of(*self, *transport, *clock);
                proof {
                    let asked = choose|asked: Seq<Keeping>| #[trigger]
                        session_begun(
                            answered,
                            after,
                            Some(held),
                            session_present,
                            asked,
                            result,
                        ) && keeper.keepings() == held.keepings() + asked;
                    lemma_opened_with_answer(
                        before,
                        sent,
                        answered,
                        after,
                        Some(held),
                        *connect,
                        size.remaining_length,
                        timeout_ms,
                        kept,
                        asked,
                        answer,
                        result,
                    );
                }
                result
            },
            None => {
                let result = self.begin_session(
                    transport,
                    clock,
                    None::<&mut S>,
                    session_present,
                );
                let ghost after = Moment::of(*self, *transport, *clock);
                proof {
                    lemma_opened_with_answer(
                        before,
                        sent,
                        answered,
                        after,
                        None::<S>,
                        *connect,
                        size.remaining_length,
                        timeout_ms,
                        kept,
                        Seq::empty(),
                        answer,
                        result,
                    );
                }
                result
            },
        }
    }
}

/// What is known of the session: what came to be known, or what was said before.
pub open spec fn known(kept: Option<bool>, before: bool) -> bool {
    match kept {
        Some(kept) => kept,
        None => before,
    }
}

/// Nothing asked leaves everything asked before.
proof fn lemma_nothing_asked()
    ensures
        forall|asked: Seq<Keeping>| #[trigger] (asked + Seq::<Keeping>::empty()) == asked,
{
    assert forall|asked: Seq<Keeping>| #[trigger] (asked + Seq::<Keeping>::empty()) == asked by {
        assert(asked + Seq::<Keeping>::empty() =~= asked);
    }
}

/// A CONNECT that was answered, or for which an answer was waited.
proof fn lemma_opened_with_answer<S: Store>(
    before: Moment,
    sent: Moment,
    answered: Moment,
    after: Moment,
    held: Option<S>,
    connect: Connect<'_>,
    remaining_length: u32,
    timeout_ms: u32,
    kept: Option<bool>,
    asked: Seq<Keeping>,
    answer: Result<(), ClientError>,
    result: Result<(), ClientError>,
)
    requires
        announce::connect_sent(before, sent, connect, remaining_length, Ok(())),
        session::connack_received(
            sent,
            answered,
            timeout_ms,
            connect.info.clean_session,
            kept,
            answer,
        ),
        answer is Err ==> after == answered && result == answer && asked == Seq::<
            Keeping,
        >::empty(),
        answer is Ok ==> kept is Some && session_begun(
            answered,
            after,
            held,
            kept->0,
            asked,
            result,
        ),
    ensures
        session_opened(
            before,
            after,
            held,
            connect,
            remaining_length,
            timeout_ms,
            kept,
            asked,
            result,
        ),
{
    assert(connect_followed(answered, after, held, kept, asked, answer, result));
}

impl<'a> MqttContext<'a> {
    /// Checks the properties of a CONNECT, and takes note of what they say of
    /// this client.
    fn prepare(&mut self, connect: &Connect<'_>) -> (result: Result<(), ClientError>)
        ensures
            (result, final(self)@) == prepared(old(self)@, *connect),
    {
        if let Some(will) = &connect.will {
            if will.properties.len() > 0 {
                match validate_will_properties(will.properties) {
                    Ok(()) => {},
                    Err(error) => return Err(ClientError::from(error)),
                }
            }
        }
        if connect.properties.len() == 0 {
            self.properties.client.max_packet_size = self.announced_network_size();
            return Ok(());
        }
        let mut found = ConnectValidation::default();
        match validate_connect_properties(connect.properties, &mut found) {
            Ok(()) => {},
            Err(error) => return Err(ClientError::from(error)),
        }
        self.properties.client.request_problem_info = found.request_problem_info;
        if let Some(max) = found.max_packet_size {
            if max as usize > self.network.len() {
                return Err(ClientError::BadParameter);
            }
        }
        Ok(())
    }

    /// The size of the network buffer, as far as a property can say it.
    fn announced_network_size(&self) -> (size: u32)
        ensures
            size == announced_size(self@.network),
    {
        if self.network.len() > u32::MAX as usize {
            u32::MAX
        } else {
            self.network.len() as u32
        }
    }

    /// Opens a session.
    ///
    /// With a timeout of zero, the CONNACK is asked for a fixed number of times.
    /// `session_present` tells whether the broker has kept the session, if that
    /// came to be known.
    ///
    /// # Errors
    ///
    /// [`ClientError::BadParameter`] if the CONNECT may not be sent,
    /// [`ClientError::StatusConnected`] or [`ClientError::DisconnectPending`] if
    /// there is a connection, [`ClientError::SendFailed`] if the CONNECT does not
    /// go out, [`ClientError::RecvFailed`] if no CONNACK comes,
    /// [`ClientError::BadResponse`] if it is malformed, and
    /// [`ClientError::ServerRefused`]. A session that was kept may also fail to
    /// be taken up.
    pub fn connect<T: Transport, C: Clock, S: Store>(
        &mut self,
        transport: &mut T,
        clock: &mut C,
        store: Option<&mut S>,
        connect: &Connect<'_>,
        timeout_ms: u32,
        session_present: &mut bool,
    ) -> (result: Result<(), ClientError>)
        ensures
            match store {
                Some(keeper) => exists|kept: Option<bool>, asked: Seq<Keeping>| #[trigger]
                    connecting(
                        Moment::of(*old(self), *old(transport), *old(clock)),
                        Moment::of(*final(self), *final(transport), *final(clock)),
                        Some(*keeper),
                        *connect,
                        timeout_ms,
                        kept,
                        asked,
                        result,
                    ) && final(keeper).keepings() == keeper.keepings() + asked
                        && *final(session_present) == known(kept, *old(session_present)),
                None => exists|kept: Option<bool>| #[trigger]
                    connecting(
                        Moment::of(*old(self), *old(transport), *old(clock)),
                        Moment::of(*final(self), *final(transport), *final(clock)),
                        None::<S>,
                        *connect,
                        timeout_ms,
                        kept,
                        Seq::empty(),
                        result,
                    ) && *final(session_present) == known(kept, *old(session_present)),
            },
    {
        let ghost before = Moment::of(*self, *transport, *clock);
        proof {
            lemma_nothing_asked();
        }
        let network_size = wire::split_u32(self.announced_network_size());
        let invented: [u8; 5] = [
            id::MAX_PACKET_SIZE,
            network_size[0],
            network_size[1],
            network_size[2],
            network_size[3],
        ];
        match self.prepare(connect) {
            Ok(()) => {},
            Err(error) => {
                proof {
                    let after = Moment::of(*self, *transport, *clock);
                    match store {
                        Some(keeper) => {
                            assert(connecting(
                                before,
                                after,
                                Some(*keeper),
                                *connect,
                                timeout_ms,
                                None,
                                Seq::empty(),
                                Err(error),
                            ));
                        },
                        None => {
                            assert(connecting(
                                before,
                                after,
                                None::<S>,
                                *connect,
                                timeout_ms,
                                None,
                                Seq::empty(),
                                Err(error),
                            ));
                        },
                    }
                }
                return Err(error);
            },
        }
        let outgoing = Connect {
            info: connect.info,
            client_identifier: connect.client_identifier,
            properties: if connect.properties.len() == 0 {
                invented.as_slice()
            } else {
                connect.properties
            },
            will: connect.will,
        };
        assert(invented@ =~= seq![id::MAX_PACKET_SIZE] + wire::u32_bytes(
            announced_size(before.context.network),
        ));
        assert(goes_out(before.context, *connect, outgoing));
        let ghost ready = Moment::of(*self, *transport, *clock);
        match store {
            Some(keeper) => {
                let ghost held = *keeper;
                let result = self.connect_ready(
                    transport,
                    clock,
                    Some(&mut *keeper),
                    &outgoing,
                    timeout_ms,
                    session_present,
                );
                let ghost after = Moment::of(*self, *transport, *clock);
                proof {
                    let (kept, asked) = choose|kept: Option<bool>, asked: Seq<Keeping>| #[trigger]
                        connect_made(
                            ready,
                            after,
                            Some(held),
                            outgoing,
                            timeout_ms,
                            kept,
                            asked,
                            result,
                        ) && keeper.keepings() == held.keepings() + asked && *session_present
                            == known(kept, *old(session_present));
                    assert(connecting(
                        before,
                        after,
                        Some(held),
                        *connect,
                        timeout_ms,
                        kept,
                        asked,
                        result,
                    ));
                }
                result
            },
            None => {
                let result = self.connect_ready(
                    transport,
                    clock,
                    None::<&mut S>,
                    &outgoing,
                    timeout_ms,
                    session_present,
                );
                let ghost after = Moment::of(*self, *transport, *clock);
                proof {
                    let kept = choose|kept: Option<bool>| #[trigger]
                        connect_made(
                            ready,
                            after,
                            None::<S>,
                            outgoing,
                            timeout_ms,
                            kept,
                            Seq::empty(),
                            result,
                        ) && *session_present == known(kept, *old(session_present));
                    assert(connecting(
                        before,
                        after,
                        None::<S>,
                        *connect,
                        timeout_ms,
                        kept,
                        Seq::empty(),
                        result,
                    ));
                }
                result
            },
        }
    }

    /// Opens a session with a CONNECT whose properties are in order.
    fn connect_ready<T: Transport, C: Clock, S: Store>(
        &mut self,
        transport: &mut T,
        clock: &mut C,
        store: Option<&mut S>,
        outgoing: &Connect<'_>,
        timeout_ms: u32,
        session_present: &mut bool,
    ) -> (result: Result<(), ClientError>)
        ensures
            match store {
                Some(keeper) => exists|kept: Option<bool>, asked: Seq<Keeping>| #[trigger]
                    connect_made(
                        Moment::of(*old(self), *old(transport), *old(clock)),
                        Moment::of(*final(self), *final(transport), *final(clock)),
                        Some(*keeper),
                        *outgoing,
                        timeout_ms,
                        kept,
                        asked,
                        result,
                    ) && final(keeper).keepings() == keeper.keepings() + asked
                        && *final(session_present) == known(kept, *old(session_present)),
                None => exists|kept: Option<bool>| #[trigger]
                    connect_made(
                        Moment::of(*old(self), *old(transport), *old(clock)),
                        Moment::of(*final(self), *final(transport), *final(clock)),
                        None::<S>,
                        *outgoing,
                        timeout_ms,
                        kept,
                        Seq::empty(),
                        result,
                    ) && *final(session_present) == known(kept, *old(session_present)),
            },
    {
        let ghost before = Moment::of(*self, *transport, *clock);
        proof {
            lemma_nothing_asked();
        }
        let refusal: Result<ConnectSize, ClientError> = match connect_packet_size(outgoing) {
            Ok(size) => match self.connect_status {
                ConnectionStatus::NotConnected => Ok(size),
                ConnectionStatus::Connected => Err(ClientError::StatusConnected),
                ConnectionStatus::DisconnectPending => Err(ClientError::DisconnectPending),
            },
            Err(error) => Err(ClientError::from(error)),
        };
        let size = match refusal {
            Ok(size) => size,
            Err(error) => {
                proof {
                    match store {
                        Some(keeper) => {
                            assert(connect_made(
                                before,
                                before,
                                Some(*keeper),
                                *outgoing,
                                timeout_ms,
                                None,
                                Seq::empty(),
                                Err(error),
                            ));
                        },
                        None => {
                            assert(connect_made(
                                before,
                                before,
                                None::<S>,
                                *outgoing,
                                timeout_ms,
                                None,
                                Seq::empty(),
                                Err(error),
                            ));
                        },
                    }
                }
                return Err(error);
            },
        };
        assert(connect::connect_size(*outgoing)->Ok_0 == size);
        match store {
            Some(keeper) => {
                let ghost held = *keeper;
                let result = self.connect_inner(
                    transport,
                    clock,
                    Some(&mut *keeper),
                    outgoing,
                    timeout_ms,
                    size,
                    session_present,
                );
                let ghost opened = Moment::of(*self, *transport, *clock);
                if result.is_err() && self.connect_status == ConnectionStatus::Connected {
                    self.connect_status = ConnectionStatus::DisconnectPending;
                }
                let ghost after = Moment::of(*self, *transport, *clock);
                proof {
                    let (kept, asked) = choose|kept: Option<bool>, asked: Seq<Keeping>| #[trigger]
                        session_opened(
                            before,
                            opened,
                            Some(held),
                            *outgoing,
                            size.remaining_length,
                            timeout_ms,
                            kept,
                            asked,
                            result,
                        ) && keeper.keepings() == held.keepings() + asked && *session_present
                            == known(kept, *old(session_present));
                    assert(after =~= (Moment { context: given_up(opened.context, result), ..opened }));
                    assert(connect_made(
                        before,
                        after,
                        Some(held),
                        *outgoing,
                        timeout_ms,
                        kept,
                        asked,
                        result,
                    ));
                }
                result
            },
            None => {
                let result = self.connect_inner(
                    transport,
                    clock,
                    None::<&mut S>,
                    outgoing,
                    timeout_ms,
                    size,
                    session_present,
                );
                let ghost opened = Moment::of(*self, *transport, *clock);
                if result.is_err() && self.connect_status == ConnectionStatus::Connected {
                    self.connect_status = ConnectionStatus::DisconnectPending;
                }
                let ghost after = Moment::of(*self, *transport, *clock);
                proof {
                    let kept = choose|kept: Option<bool>| #[trigger]
                        session_opened(
                            before,
                            opened,
                            None::<S>,
                            *outgoing,
                            size.remaining_length,
                            timeout_ms,
                            kept,
                            Seq::empty(),
                            result,
                        ) && *session_present == known(kept, *old(session_present));
                    assert(after =~= (Moment { context: given_up(opened.context, result), ..opened }));
                    assert(connect_made(
                        before,
                        after,
                        None::<S>,
                        *outgoing,
                        timeout_ms,
                        kept,
                        Seq::empty(),
                        result,
                    ));
                }
                result
            },
        }
    }
}

// ---------------------------------------------------------------------------
// What opening a session promises
// ---------------------------------------------------------------------------

/// Sending a CONNECT leaves the connection as it is, unless the transport fails,
/// and does not touch the records.
proof fn lemma_announcing_keeps(
    before: Moment,
    after: Moment,
    connect: Connect<'_>,
    remaining_length: u32,
    result: Result<(), ClientError>,
)
    requires
        announce::connect_sent(before, after, connect, remaining_length, result),
    ensures
        after.context.records == before.context.records,
{
    let (taken, context) = announce::announced(before.context, connect);
    let bytes = connect::connect_bytes(connect, remaining_length);
    if taken is Ok {
        let outcome = choose|outcome: SendOutcome| #[trigger]
            send::sending(Moment { context, ..before }, after, bytes, true, outcome) && result
                == if outcome == SendOutcome::Sent(bytes.len() as usize) {
                Ok::<(), ClientError>(())
            } else {
                Err(ClientError::SendFailed)
            };
        send::lemma_sending_keeps(Moment { context, ..before }, after, bytes, true, outcome);
    }
}

/// Receiving a CONNACK does not touch the records.
proof fn lemma_answer_keeps(
    before: Moment,
    after: Moment,
    timeout_ms: u32,
    clean_session: bool,
    kept: Option<bool>,
    result: Result<(), ClientError>,
)
    requires
        session::connack_received(before, after, timeout_ms, clean_session, kept, result),
    ensures
        after.context.records == before.context.records,
{
    reveal(session::receiving);
}

/// Beginning a session brings the connection up, and keeps the invariant of the
/// records.
proof fn lemma_beginning_keeps<S: Store>(
    before: Moment,
    after: Moment,
    store: Option<S>,
    kept: bool,
    asked: Seq<Keeping>,
    result: Result<(), ClientError>,
)
    requires
        session_begun(before, after, store, kept, asked, result),
    ensures
        result is Ok ==> after.context.status == ConnectionStatus::Connected,
        client::records_ok(before.context) ==> client::records_ok(after.context),
{
    if let Some(records) = before.context.records {
        if records.well_formed() && records.apart() {
            let properties = before.context.properties;
            state::law_directions_stay_apart(
                records,
                0,
                AckType::PubAck,
                Operation::Send,
                QoS::AtMostOnce,
                properties.server.receive_max as nat,
                properties.client.receive_max as nat,
            );
            state::law_records_stay_well_formed(
                records,
                0,
                AckType::PubAck,
                Operation::Send,
                QoS::AtMostOnce,
                properties.server.receive_max as nat,
                properties.client.receive_max as nat,
            );
        }
    }
    let context = capped(before.context);
    if kept {
        resume::law_resumed_keeps(Moment { context: up(context), ..before }, after, store, result);
    }
}

/// What a connect keeps, from the moment its CONNECT is ready.
proof fn lemma_connect_keeps<S: Store>(
    before: Moment,
    after: Moment,
    store: Option<S>,
    outgoing: Connect<'_>,
    timeout_ms: u32,
    kept: Option<bool>,
    asked: Seq<Keeping>,
    result: Result<(), ClientError>,
)
    requires
        connect_made(before, after, store, outgoing, timeout_ms, kept, asked, result),
    ensures
        result is Ok ==> after.context.status == ConnectionStatus::Connected,
        result is Err && before.context.status == ConnectionStatus::NotConnected
            ==> after.context.status != ConnectionStatus::Connected,
        client::records_ok(before.context) ==> client::records_ok(after.context),
{
    if let Ok(size) = connect::connect_size(outgoing) {
        if before.context.status == ConnectionStatus::NotConnected {
            let rl = size.remaining_length;
            let opened = choose|opened: Moment| #[trigger]
                session_opened(before, opened, store, outgoing, rl, timeout_ms, kept, asked, result)
                    && after == (Moment { context: given_up(opened.context, result), ..opened });
            if announce::connect_sent(before, opened, outgoing, rl, result) && result is Err
                && kept is None && asked == Seq::<Keeping>::empty() {
                lemma_announcing_keeps(before, opened, outgoing, rl, result);
            } else {
                let (sent, answered, answer) = choose|
                    sent: Moment,
                    answered: Moment,
                    answer: Result<(), ClientError>,
                |
                    {
                        &&& announce::connect_sent(before, sent, outgoing, rl, Ok(()))
                        &&& #[trigger] session::connack_received(
                            sent,
                            answered,
                            timeout_ms,
                            outgoing.info.clean_session,
                            kept,
                            answer,
                        )
                        &&& connect_followed(answered, opened, store, kept, asked, answer, result)
                    };
                lemma_announcing_keeps(before, sent, outgoing, rl, Ok(()));
                lemma_answer_keeps(
                    sent,
                    answered,
                    timeout_ms,
                    outgoing.info.clean_session,
                    kept,
                    answer,
                );
                if answer is Ok {
                    lemma_beginning_keeps(answered, opened, store, kept->0, asked, result);
                }
            }
        }
    }
}

/// **Law.** A connect that succeeds leaves the connection up. One that fails
/// does not, even where it fails after the broker had accepted. Either way the
/// records keep their invariant.
pub proof fn law_connect_decides_the_status<S: Store>(
    before: Moment,
    after: Moment,
    store: Option<S>,
    connect: Connect<'_>,
    timeout_ms: u32,
    kept: Option<bool>,
    asked: Seq<Keeping>,
    result: Result<(), ClientError>,
)
    requires
        connecting(before, after, store, connect, timeout_ms, kept, asked, result),
    ensures
        result is Ok ==> after.context.status == ConnectionStatus::Connected,
        result is Err && before.context.status == ConnectionStatus::NotConnected
            ==> after.context.status != ConnectionStatus::Connected,
        client::records_ok(before.context) ==> client::records_ok(after.context),
{
    let (ready, context) = prepared(before.context, connect);
    if ready is Ok {
        let start = Moment { context, ..before };
        let outgoing = choose|outgoing: Connect<'_>| #[trigger]
            goes_out(before.context, connect, outgoing) && connect_made(
                start,
                after,
                store,
                outgoing,
                timeout_ms,
                kept,
                asked,
                result,
            );
        lemma_connect_keeps(start, after, store, outgoing, timeout_ms, kept, asked, result);
    }
}

/// **Law.** A connection that is up, or being given up, is left alone.
pub proof fn law_connect_needs_no_connection<S: Store>(
    before: Moment,
    after: Moment,
    store: Option<S>,
    connect: Connect<'_>,
    timeout_ms: u32,
    kept: Option<bool>,
    asked: Seq<Keeping>,
    result: Result<(), ClientError>,
)
    requires
        connecting(before, after, store, connect, timeout_ms, kept, asked, result),
        before.context.status != ConnectionStatus::NotConnected,
    ensures
        result is Err,
        after.wire == before.wire,
        after.context.status == before.context.status,
        asked == Seq::<Keeping>::empty(),
{
}

} // verus!
