//! The router: fans the global message stream out to per-client accounts.
//!
//! The router owns the directory from client id to account. Accounts are
//! created lazily, by the first deposit for an unseen client; any other
//! message for an unknown client is dropped. Every routed message is applied
//! by the owning account strictly in arrival order, so the state a client
//! ends in depends only on that client's own messages — a fact proved here as
//! [`lemma_client_state_own_messages`].

use vstd::prelude::*;
use std::collections::HashMap;
use crate::account::{step, Account, AccountView, ClientState, ProcessingError, Running,
    Transaction};
use crate::message::Message;

verus! {

broadcast use vstd::std_specs::hash::group_hash_axioms, vstd::seq_lib::group_seq_properties;

/// Given message is for a client who does not have an account yet:
/// - a withdrawal would fail, since the starting account balance is 0;
/// - a dispute, resolve or chargeback would fail, since there is no previous
///   deposit to refer to;
/// - a deposit would succeed.
///
/// So only a deposit warrants creating an account.
pub fn should_create_account(msg: &Message) -> (create: bool)
    ensures
        create == (*msg is Deposit),
{
    msg.is_deposit()
}

/// One client's running account together with its private transaction
/// history. Exactly one actor exists per known client, owned by the router's
/// directory; nothing else ever reads or writes its state.
pub struct Actor {
    pub account: Account<Running>,
    pub history: HashMap<u32, Transaction>,
}

impl View for Actor {
    type V = ClientState;

    open spec fn view(&self) -> ClientState {
        ClientState { acct: self.account@, hist: self.history@ }
    }
}

/// The state one client has reached after the stream `ms`: `None` while the
/// client has no account, `Some` from its first deposit on.
///
/// A message for another client changes nothing here. The client's own
/// messages are applied in order: while no account exists, only a deposit
/// creates one (starting from the zero-balance account) and every other
/// message is dropped; once the account exists, each message is one
/// [`step`] of the account state machine.
pub open spec fn client_state(client: u16, ms: Seq<Message>) -> Option<ClientState>
    decreases ms.len(),
{
    if ms.len() == 0 {
        None
    } else {
        let prev = client_state(client, ms.drop_last());
        let m = ms.last();
        if m.spec_client_id() != client {
            prev
        } else {
            match prev {
                Some(s) => Some(step(s.acct, s.hist, m).state),
                None => {
                    if m is Deposit {
                        Some(step(AccountView::initial(client), Map::empty(), m).state)
                    } else {
                        None
                    }
                },
            }
        }
    }
}

/// How [`client_state`] evolves when one more message arrives.
pub proof fn lemma_client_state_push(client: u16, ms: Seq<Message>, m: Message)
    ensures
        m.spec_client_id() != client ==> client_state(client, ms.push(m)) == client_state(
            client,
            ms,
        ),
        m.spec_client_id() == client ==> client_state(client, ms.push(m)) == (match client_state(
            client,
            ms,
        ) {
            Some(s) => Some(step(s.acct, s.hist, m).state),
            None => if m is Deposit {
                Some(step(AccountView::initial(client), Map::empty(), m).state)
            } else {
                None
            },
        }),
{
    assert(ms.push(m).drop_last() =~= ms);
    assert(ms.push(m).last() == m);
}

/// The account a client has reached keeps that client's id.
pub proof fn lemma_client_state_client(client: u16, ms: Seq<Message>)
    ensures
        client_state(client, ms) is Some ==> client_state(client, ms).unwrap().acct.client
            == client,
    decreases ms.len(),
{
    if ms.len() > 0 {
        lemma_client_state_client(client, ms.drop_last());
    }
}

/// Law: every reachable account state satisfies the invariant
/// `available + held == total`.
pub proof fn lemma_client_state_balanced(client: u16, ms: Seq<Message>)
    ensures
        client_state(client, ms) is Some ==> client_state(client, ms).unwrap().acct.balanced(),
    decreases ms.len(),
{
    if ms.len() > 0 {
        lemma_client_state_balanced(client, ms.drop_last());
    }
}

/// Law: a client has an account exactly when its own part of the stream
/// contains a deposit; until the first deposit arrives, every message for the
/// client is dropped and no account exists.
pub proof fn lemma_account_only_after_deposit(client: u16, ms: Seq<Message>)
    ensures
        client_state(client, ms) is Some <==> exists|i: int|
            0 <= i < ms.len() && (#[trigger] ms[i]).spec_client_id() == client && ms[i] is Deposit,
    decreases ms.len(),
{
    if ms.len() > 0 {
        let prefix = ms.drop_last();
        let m = ms.last();
        lemma_account_only_after_deposit(client, prefix);
        if client_state(client, ms) is Some {
            if m.spec_client_id() == client && m is Deposit {
                assert(ms[ms.len() - 1] == m);
            } else {
                assert(client_state(client, prefix) is Some);
                let i = choose|i: int|
                    0 <= i < prefix.len() && (#[trigger] prefix[i]).spec_client_id() == client
                        && prefix[i] is Deposit;
                assert(ms[i] == prefix[i]);
            }
        }
        if exists|i: int|
            0 <= i < ms.len() && (#[trigger] ms[i]).spec_client_id() == client
                && ms[i] is Deposit {
            let i = choose|i: int|
                0 <= i < ms.len() && (#[trigger] ms[i]).spec_client_id() == client
                    && ms[i] is Deposit;
            if i < ms.len() - 1 {
                assert(prefix[i] == ms[i]);
                assert(client_state(client, prefix) is Some);
            }
            assert(client_state(client, ms) is Some);
        }
    }
}

/// Law: the state a client ends in is the sequential left-fold of that
/// client's own messages, in their original relative order — however the
/// other clients' messages were interleaved with them.
pub proof fn lemma_client_state_own_messages(client: u16, ms: Seq<Message>)
    ensures
        client_state(client, ms) == client_state(
            client,
            ms.filter(|m: Message| m.spec_client_id() == client),
        ),
    decreases ms.len(),
{
    let pred = |m: Message| m.spec_client_id() == client;
    reveal(Seq::filter);
    if ms.len() > 0 {
        let prefix = ms.drop_last();
        let m = ms.last();
        lemma_client_state_own_messages(client, prefix);
        if pred(m) {
            assert(ms.filter(pred) == prefix.filter(pred).push(m));
            lemma_client_state_push(client, prefix.filter(pred), m);
        } else {
            assert(ms.filter(pred) == prefix.filter(pred));
        }
    }
}

/// Law: two interleavings that agree on one client's own messages give that
/// client the same final state, whatever the other clients' messages did.
pub proof fn lemma_interleaving_independent(client: u16, ms1: Seq<Message>, ms2: Seq<Message>)
    requires
        ms1.filter(|m: Message| m.spec_client_id() == client) == ms2.filter(
            |m: Message| m.spec_client_id() == client,
        ),
    ensures
        client_state(client, ms1) == client_state(client, ms2),
{
    lemma_client_state_own_messages(client, ms1);
    lemma_client_state_own_messages(client, ms2);
}

/// What became of one routed message.
#[derive(Clone, Copy, Debug, PartialEq, Eq)]
pub enum RouteOutcome {
    /// The message named a client with no account and was not a deposit:
    /// dropped without touching any state.
    Dropped,
    /// The message reached its account, which applied it with this
    /// per-message result.
    Applied(Result<(), ProcessingError>),
}

/// The outcome owed for a message, given the state its client was in.
pub open spec fn spec_route_outcome(prev: Option<ClientState>, m: Message) -> RouteOutcome {
    match prev {
        Some(s) => RouteOutcome::Applied(step(s.acct, s.hist, m).result),
        None => if m is Deposit {
            RouteOutcome::Applied(
                step(AccountView::initial(m.spec_client_id()), Map::empty(), m).result,
            )
        } else {
            RouteOutcome::Dropped
        },
    }
}

/// What the snapshots emitted for a fully processed stream `ms` must hold:
/// exactly one snapshot per client that ever had an account, each equal to
/// that client's final account state. The order across clients is left open.
pub open spec fn snapshots_of(snapshots: Seq<Account<Running>>, ms: Seq<Message>) -> bool {
    &&& forall|i: int|
        0 <= i < snapshots.len() ==> {
            let c = (#[trigger] snapshots[i]).client;
            &&& client_state(c, ms) is Some
            &&& snapshots[i]@ == client_state(c, ms).unwrap().acct
        }
    &&& forall|c: u16|
        (#[trigger] client_state(c, ms)) is Some ==> exists|i: int|
            0 <= i < snapshots.len() && (#[trigger] snapshots[i]).client == c
    &&& forall|i: int, j: int|
        #![trigger snapshots[i], snapshots[j]]
        0 <= i < snapshots.len() && 0 <= j < snapshots.len() && i != j ==> snapshots[i].client
            != snapshots[j].client
}

/// Law: every snapshot a fully processed stream emits satisfies the account
/// invariant `available + held == total`.
pub proof fn lemma_snapshots_balanced(snapshots: Seq<Account<Running>>, ms: Seq<Message>)
    requires
        snapshots_of(snapshots, ms),
    ensures
        forall|i: int| 0 <= i < snapshots.len() ==> (#[trigger] snapshots[i])@.balanced(),
{
    assert forall|i: int| 0 <= i < snapshots.len() implies (#[trigger] snapshots[i])@.balanced() by {
        lemma_client_state_balanced(snapshots[i].client, ms);
    }
}

/// The router. It consumes the global message stream one message at a time,
/// creates accounts on demand, and hands each message to the account that
/// owns it; when the stream ends, [`Router::finish`] emits one final
/// snapshot per account.
pub struct Router {
    directory: HashMap<u16, Actor>,
    clients: Vec<u16>,
    log: Ghost<Seq<Message>>,
}

impl Router {
    /// The messages routed so far, in arrival order.
    pub closed spec fn processed(&self) -> Seq<Message> {
        self.log@
    }

    /// The router's invariant: the directory holds exactly the clients whose
    /// stream so far gives them an account, each at the state its own
    /// messages produce, and `clients` lists those clients once each.
    pub closed spec fn wf(&self) -> bool {
        &&& forall|c: u16|
            (#[trigger] client_state(c, self.log@)) is Some <==> self.directory@.contains_key(c)
        &&& forall|c: u16|
            client_state(c, self.log@) is Some ==> (#[trigger] self.directory@[c])@
                == client_state(c, self.log@).unwrap()
        &&& self.clients@.no_duplicates()
        &&& forall|c: u16| #[trigger] self.clients@.contains(c) <==> self.directory@.contains_key(c)
    }

    /// A router with no accounts, ready for the start of the stream.
    pub fn new() -> (router: Router)
        ensures
            router.wf(),
            router.processed() == Seq::<Message>::empty(),
    {
        let router = Router {
            directory: HashMap::new(),
            clients: Vec::new(),
            log: Ghost(Seq::empty()),
        };
        proof {
            assert forall|c: u16| !((#[trigger] client_state(c, router.log@)) is Some) by {
                assert(router.log@.len() == 0);
            }
        }
        router
    }

    /// Routes one message: creates the account if the message is a deposit
    /// for an unseen client, drops it if it is anything else for an unseen
    /// client, and otherwise lets the owning account apply it.
    pub fn route(&mut self, msg: Message) -> (outcome: RouteOutcome)
        requires
            old(self).wf(),
        ensures
            final(self).wf(),
            final(self).processed() == old(self).processed().push(msg),
            outcome == spec_route_outcome(
                client_state(msg.spec_client_id(), old(self).processed()),
                msg,
            ),
    {
        let client = msg.client_id();
        let ghost old_log = self.log@;
        if !self.directory.contains_key(&client) {
            if !should_create_account(&msg) {
                self.log = Ghost(self.log@.push(msg));
                proof {
                    assert forall|c2: u16| (#[trigger] client_state(c2, self.log@)) == client_state(
                        c2,
                        old_log,
                    ) by {
                        lemma_client_state_push(c2, old_log, msg);
                    }
                }
                return RouteOutcome::Dropped;
            }
            let account = Account::new(client).into_running();
            let actor = Actor { account, history: HashMap::new() };
            self.directory.insert(client, actor);
            self.clients.push(client);
        }
        let actor_opt = self.directory.remove(&client);
        let mut actor = actor_opt.unwrap();
        let result = actor.account.apply(&msg, &mut actor.history);
        self.directory.insert(client, actor);
        self.log = Ghost(self.log@.push(msg));
        proof {
            assert forall|c2: u16| c2 != client implies (#[trigger] client_state(c2, self.log@))
                == client_state(c2, old_log) by {
                lemma_client_state_push(c2, old_log, msg);
            }
            lemma_client_state_push(client, old_log, msg);
            assert(client_state(client, self.log@) is Some);
            assert(client_state(client, self.log@).unwrap() == actor@);
            if !old(self).directory@.contains_key(client) {
                let old_clients = old(self).clients@;
                assert(!old_clients.contains(client));
                assert(self.clients@ == old_clients.push(client));
                assert forall|i: int, j: int|
                    (0 <= i < self.clients@.len() && 0 <= j < self.clients@.len() && i
                        != j) implies self.clients@[i] != self.clients@[j] by {
                    if i < old_clients.len() && j < old_clients.len() {
                        assert(old_clients[i] != old_clients[j]);
                    } else if i < old_clients.len() {
                        assert(old_clients.contains(old_clients[i]));
                    } else {
                        assert(old_clients.contains(old_clients[j]));
                    }
                }
            }
        }
        RouteOutcome::Applied(result)
    }

    /// The stream has ended: emits the final snapshot of every account and
    /// consumes the router, so no message can ever be applied afterwards.
    pub fn finish(self) -> (snapshots: Vec<Account<Running>>)
        requires
            self.wf(),
        ensures
            snapshots_of(snapshots@, self.processed()),
    {
        let Router { mut directory, clients, log } = self;
        proof {
            assert forall|c: u16| client_state(c, log@) is Some implies client_state(
                c,
                log@,
            ).unwrap().acct.client == c by {
                lemma_client_state_client(c, log@);
            }
            assert forall|k: int| 0 <= k < clients@.len() implies directory@.contains_key(
                #[trigger] clients@[k],
            ) && directory@[clients@[k]]@ == client_state(clients@[k], log@).unwrap() by {
                assert(clients@.contains(clients@[k]));
            }
        }
        let mut snapshots: Vec<Account<Running>> = Vec::new();
        let mut i: usize = 0;
        while i < clients.len()
            invariant
                i <= clients.len(),
                snapshots@.len() == i as int,
                clients@.no_duplicates(),
                forall|c: u16| #[trigger] clients@.contains(c) <==> client_state(c, log@) is Some,
                forall|c: u16|
                    client_state(c, log@) is Some ==> client_state(c, log@).unwrap().acct.client
                        == c,
                forall|k: int|
                    i as int <= k < clients@.len() ==> directory@.contains_key(
                        #[trigger] clients@[k],
                    ) && directory@[clients@[k]]@ == client_state(clients@[k], log@).unwrap(),
                forall|k: int|
                    0 <= k < i as int ==> (#[trigger] snapshots@[k]).client == clients@[k]
                        && snapshots@[k]@ == client_state(clients@[k], log@).unwrap().acct,
            decreases clients.len() - i,
        {
            let c = clients[i];
            proof {
                assert(clients@.contains(clients@[i as int]));
            }
            let actor_opt = directory.remove(&c);
            let actor = actor_opt.unwrap();
            snapshots.push(actor.account);
            i += 1;
        }
        proof {
            assert forall|c: u16| (#[trigger] client_state(c, log@)) is Some implies exists|k: int|
                0 <= k < snapshots@.len() && (#[trigger] snapshots@[k]).client == c by {
                assert(clients@.contains(c));
                let k = choose|k: int| 0 <= k < clients@.len() && clients@[k] == c;
                assert(snapshots@[k].client == c);
            }
        }
        snapshots
    }

    /// Routes a whole message stream through a fresh router and emits the
    /// final snapshots: the single-threaded equivalent of running one actor
    /// per client.
    pub fn run(messages: &Vec<Message>) -> (snapshots: Vec<Account<Running>>)
        ensures
            snapshots_of(snapshots@, messages@),
    {
        let mut router = Router::new();
        let mut i: usize = 0;
        while i < messages.len()
            invariant
                i <= messages.len(),
                router.wf(),
                router.processed() == messages@.subrange(0, i as int),
            decreases messages.len() - i,
        {
            let _ = router.route(messages[i]);
            proof {
                assert(messages@.subrange(0, i as int).push(messages@[i as int]) =~= messages@
                    .subrange(0, i as int + 1));
            }
            i += 1;
        }
        proof {
            assert(messages@.subrange(0, messages@.len() as int) =~= messages@);
        }
        router.finish()
    }
}

} // verus!
