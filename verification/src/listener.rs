//! The sockets on which the public side listens.
//!
//! What the operating system hands out - a listening socket of type `L`, a stream of type
//! `S` - passes through as it is.
use vstd::prelude::*;

use crate::error::{Error, ErrorKind, Failure};
use crate::socket_addr::SocketAddr;

verus! {

/// A listening socket and the address it was bound to.
pub struct TcpListener<L> {
    pub addr: SocketAddr,
    pub listener: L,
}

/// A connection that was accepted on `local_addr`, from `remote_addr`.
pub struct Accepted<S> {
    pub stream: S,
    pub local_addr: SocketAddr,
    pub remote_addr: SocketAddr,
}

impl<L> TcpListener<L> {
    /// What binding a socket to `addr` came to.
    pub fn bind<E>(addr: SocketAddr, bound: Result<L, E>) -> (r: Result<TcpListener<L>, E>)
        ensures
            r == (match bound {
                Ok(listener) => Ok::<TcpListener<L>, E>(TcpListener { addr, listener }),
                Err(error) => Err(error),
            }),
    {
        match bound {
            Ok(listener) => Ok(TcpListener { addr, listener }),
            Err(error) => Err(error),
        }
    }

    /// What accepting a connection on this socket came to: the stream and its far end, next
    /// to the address that this socket was bound to.
    pub fn accept<S, E>(&self, accepted: Result<(S, SocketAddr), E>) -> (r: Result<Accepted<S>, E>)
        ensures
            r == (match accepted {
                Ok((stream, remote_addr)) => Ok::<Accepted<S>, E>(
                    Accepted { stream, local_addr: self.addr, remote_addr },
                ),
                Err(error) => Err(error),
            }),
    {
        match accepted {
            Ok((stream, remote_addr)) => Ok(
                Accepted { stream, local_addr: self.addr, remote_addr },
            ),
            Err(error) => Err(error),
        }
    }
}

/// The sockets that were bound, in the order of `results`.
pub open spec fn bound<L>(results: Seq<Result<TcpListener<L>, String>>) -> Seq<TcpListener<L>>
    decreases results.len(),
{
    if results.len() == 0 {
        Seq::empty()
    } else {
        match results.last() {
            Ok(listener) => bound(results.drop_last()).push(listener),
            Err(_) => bound(results.drop_last()),
        }
    }
}

/// The reasons of those that were not, a line each, in the order of `results`.
pub open spec fn bind_errors<L>(results: Seq<Result<TcpListener<L>, String>>) -> Seq<char>
    decreases results.len(),
{
    if results.len() == 0 {
        Seq::empty()
    } else {
        match results.last() {
            Ok(_) => bind_errors(results.drop_last()),
            Err(reason) => bind_errors(results.drop_last()) + reason@.push('\n'),
        }
    }
}

/// Whether every socket was bound.
pub open spec fn all_bound<L>(results: Seq<Result<TcpListener<L>, String>>) -> bool {
    forall|i: int| 0 <= i < results.len() ==> #[trigger] results[i] is Ok
}

/// There is a reason to give exactly where some socket was not bound.
proof fn lemma_bind_errors<L>(results: Seq<Result<TcpListener<L>, String>>)
    ensures
        bind_errors(results).len() == 0 <==> all_bound(results),
    decreases results.len(),
{
    if results.len() > 0 {
        let before = results.drop_last();
        lemma_bind_errors(before);
        assert(results.last() == results[results.len() - 1]);
        if all_bound(results) {
            assert forall|i: int| 0 <= i < before.len() implies #[trigger] before[i] is Ok by {
                assert(before[i] == results[i]);
            }
        } else if results.last() is Ok {
            let i = choose|i: int| 0 <= i < results.len() && !(#[trigger] results[i] is Ok);
            assert(before[i] == results[i]);
        }
    }
}

/// The sockets on which the public side listens.
pub struct Listeners<L> {
    pub listeners: Vec<TcpListener<L>>,
}

impl<L> Listeners<L> {
    /// Takes in what binding each of the sockets came to, in the order in which that was
    /// known. Where any could not be bound there are no listeners, and the error gives the
    /// reason of each.
    pub fn new(results: Vec<Result<TcpListener<L>, String>>) -> (r: Result<Listeners<L>, Error>)
        ensures
            match r {
                Ok(all) => all_bound(results@) && all.listeners@ == bound(results@),
                Err(error) => !all_bound(results@) && error@ == (Failure {
                    kind: ErrorKind::Other,
                    message: bind_errors(results@),
                }),
            },
            r is Ok <==> forall|i: int| 0 <= i < results@.len() ==> #[trigger] results@[i] is Ok,
            r matches Ok(all) ==> all.listeners@.len() == results@.len() && forall|i: int|
                0 <= i < results@.len() ==> Ok::<TcpListener<L>, String>(
                    #[trigger] all.listeners@[i],
                ) == results@[i],
            r matches Err(error) ==> error.kind == ErrorKind::Other,
    {
        let mut errs: String = String::new();
        let mut listeners: Vec<TcpListener<L>> = Vec::new();
        let ghost all = results@;
        for result in it: results
            invariant
                it.seq() == all,
                listeners@ == bound(all.take(it.index() as int)),
                errs@ == bind_errors(all.take(it.index() as int)),
        {
            proof {
                let i = it.index() as int;
                assert(all.take(i + 1).drop_last() =~= all.take(i));
                assert(all.take(i + 1).last() == all[i]);
            }
            match result {
                Ok(listener) => listeners.push(listener),
                Err(reason) => {
                    errs.append(reason.as_str());
                    errs.push('\n');
                },
            }
        }
        proof {
            assert(all.take(all.len() as int) =~= all);
            lemma_bind_errors(all);
            if all_bound(all) {
                law_all_or_nothing(all);
            }
        }
        if !errs.as_str().is_empty() {
            return Err(Error { kind: ErrorKind::Other, message: errs });
        }
        Ok(Listeners { listeners })
    }

    /// The addresses of the sockets, in their order.
    pub fn addrs(&self) -> (r: Vec<SocketAddr>)
        ensures
            r@ == self.listeners@.map_values(|l: TcpListener<L>| l.addr),
            r@.len() == self.listeners@.len(),
            forall|i: int| 0 <= i < r@.len() ==> #[trigger] r@[i] == self.listeners@[i].addr,
    {
        let mut addrs: Vec<SocketAddr> = Vec::new();
        let mut i: usize = 0;
        while i < self.listeners.len()
            invariant
                i <= self.listeners.len(),
                addrs@ == self.listeners@.take(i as int).map_values(|l: TcpListener<L>| l.addr),
            decreases self.listeners.len() - i,
        {
            addrs.push(self.listeners[i].addr);
            assert(self.listeners@.take(i + 1) =~= self.listeners@.take(i as int).push(
                self.listeners@[i as int],
            ));
            i += 1;
        }
        assert(self.listeners@.take(i as int) =~= self.listeners@);
        addrs
    }

    /// Decides how to go on waiting for a connection: the first that any socket accepts is
    /// taken, a socket that fails is left out until the round is over, and then all are asked
    /// again.
    pub fn accept<A, E>(&self, round: Round<A, E>) -> (r: RoundAction<A>)
        ensures
            r == (match round {
                Round::Ready(Ok(accepted)) => RoundAction::Return(accepted),
                Round::Ready(Err(_)) => RoundAction::Wait,
                Round::Over => RoundAction::Restart,
            }),
    {
        match round {
            Round::Ready(Ok(accepted)) => RoundAction::Return(accepted),
            Round::Ready(Err(_)) => RoundAction::Wait,
            Round::Over => RoundAction::Restart,
        }
    }
}

/// What a round of accepting on all sockets at once has brought.
pub enum Round<A, E> {
    /// One socket has a result.
    Ready(Result<A, E>),
    /// Every socket has given its result.
    Over,
}

/// What to do about it.
pub enum RoundAction<A> {
    /// This is the connection.
    Return(A),
    /// Wait for the next socket of the round.
    Wait,
    /// Start a new round on all sockets.
    Restart,
}

/// Where all sockets were bound, none is missing: there is one for each result, in order.
pub proof fn law_all_or_nothing<L>(results: Seq<Result<TcpListener<L>, String>>)
    requires
        all_bound(results),
    ensures
        bound(results).len() == results.len(),
        forall|i: int|
            0 <= i < results.len() ==> results[i] == Ok::<TcpListener<L>, String>(
                #[trigger] bound(results)[i],
            ),
    decreases results.len(),
{
    if results.len() > 0 {
        let before = results.drop_last();
        assert forall|i: int| 0 <= i < before.len() implies #[trigger] before[i] is Ok by {
            assert(before[i] == results[i]);
        }
        law_all_or_nothing(before);
        assert(results[results.len() - 1] is Ok);
        assert forall|i: int| 0 <= i < results.len() implies results[i] == Ok::<
            TcpListener<L>,
            String,
        >(#[trigger] bound(results)[i]) by {
            if i < before.len() {
                assert(bound(results)[i] == bound(before)[i]);
            }
        }
    }
}

/// The reasons are given in the order of the results, each on a line of its own: what two lists
/// of results give together is what the one gives and then what the other gives, a socket that
/// was bound gives nothing, and one that was not gives its reason and a line break.
pub proof fn law_reasons_line_by_line<L>(
    front: Seq<Result<TcpListener<L>, String>>,
    back: Seq<Result<TcpListener<L>, String>>,
)
    ensures
        bind_errors::<L>(Seq::empty()) == Seq::<char>::empty(),
        bind_errors(front + back) == bind_errors(front) + bind_errors(back),
        front.len() == 1 ==> bind_errors(front) == (match front[0] {
            Ok(_) => Seq::<char>::empty(),
            Err(reason) => reason@ + seq!['\n'],
        }),
    decreases back.len(),
{
    if back.len() > 0 {
        law_reasons_line_by_line(front, back.drop_last());
        assert((front + back).drop_last() =~= front + back.drop_last());
        assert((front + back).last() == back.last());
        assert(bind_errors(front + back) =~= bind_errors(front) + bind_errors(back));
    } else {
        assert(front + back =~= front);
        assert(bind_errors(front) + Seq::<char>::empty() =~= bind_errors(front));
    }
    if front.len() == 1 {
        let none = front.drop_last();
        assert(none.len() == 0);
        assert(bind_errors(none) == Seq::<char>::empty());
        assert(front.last() == front[0]);
        match front[0] {
            Ok(_) => {},
            Err(reason) => {
                assert(bind_errors(front) =~= reason@ + seq!['\n']);
            },
        }
    }
}

/// A connection is handed on as it was accepted: the stream and its far end as they came, next
/// to the address of the socket that took it; and an error stays that error.
pub proof fn law_accepted_on_its_own_address<L, S, E>(
    listener: TcpListener<L>,
    accepted: Result<(S, SocketAddr), E>,
    r: Result<Accepted<S>, E>,
)
    requires
        call_ensures(TcpListener::<L>::accept::<S, E>, (&listener, accepted), r),
    ensures
        r is Ok <==> accepted is Ok,
        r matches Ok(made) ==> {
            &&& made.local_addr == listener.addr
            &&& made.stream == accepted->Ok_0.0
            &&& made.remote_addr == accepted->Ok_0.1
        },
        r matches Err(error) ==> accepted == Err::<(S, SocketAddr), E>(error),
{
}

/// A socket that was bound keeps the address it was bound to, and an error stays that error.
pub proof fn law_bound_to_its_own_address<L, E>(
    addr: SocketAddr,
    bound: Result<L, E>,
    r: Result<TcpListener<L>, E>,
)
    requires
        call_ensures(TcpListener::<L>::bind::<E>, (addr, bound), r),
    ensures
        r is Ok <==> bound is Ok,
        r matches Ok(made) ==> made.addr == addr && bound == Ok::<L, E>(made.listener),
        r matches Err(error) ==> bound == Err::<L, E>(error),
{
}

/// Waiting ends exactly where a socket has accepted a connection, with that connection; a socket
/// that fails does not end it, and a new round starts exactly where the last is over.
pub proof fn law_waits_for_a_connection<L, A, E>(
    listeners: Listeners<L>,
    round: Round<A, E>,
    r: RoundAction<A>,
)
    requires
        call_ensures(Listeners::<L>::accept::<A, E>, (&listeners, round), r),
    ensures
        r is Restart <==> round is Over,
        r matches RoundAction::Return(accepted) ==> round == Round::<A, E>::Ready(Ok(accepted)),
        (round matches Round::Ready(Ok(_))) ==> r is Return,
        (round matches Round::Ready(Err(_))) ==> r is Wait,
{
}

} // verus!
