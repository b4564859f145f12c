//! Server side of the per-connection state machine. Each handler consumes
//! exactly one inbound frame (`None` when the peer closed without one) and
//! returns the next session state together with the write directives it
//! produced: pairs of a target handle and the `FromServer` value owed to it.
//! The caller drives the loop, performs the writes, and owns the socket; the
//! registry is the only shared state and is mutated here, under the caller's
//! lock, so the check for a free name and the insert are one atomic step.

use vstd::prelude::*;
use vstd::string::StringExecFns;

use crate::msg::{ChatState, ClientMsgV, FromClient, FromServer, ServerMsgV};
use crate::user_table::{is_broadcast, Users};

verus! {

/// The error text answering a join on a taken name.
pub open spec fn taken_text(u: Seq<char>) -> Seq<char> {
    ("'")@ + u + ("' is already taken. Choose another name.")@
}

/// The private greeting sent to a fresh joiner.
pub open spec fn welcome_text(u: Seq<char>) -> Seq<char> {
    ("Welcome ")@ + u + ("!")@
}

/// The next session state out of Waiting, given the registry and one frame.
pub open spec fn waiting_next(m0: Map<Seq<char>, u64>, input: Option<ClientMsgV>) -> ChatState {
    match input {
        None => ChatState::Leaving,
        Some(ClientMsgV::Join { username }) => if m0.dom().contains(username) {
            ChatState::Waiting
        } else {
            ChatState::Joined
        },
        Some(ClientMsgV::Send { .. }) => ChatState::Waiting,
        Some(ClientMsgV::Leave) => ChatState::Leaving,
    }
}

/// The next session state out of Joined, given one frame.
pub open spec fn joined_next(input: Option<ClientMsgV>) -> ChatState {
    match input {
        None => ChatState::Leaving,
        Some(ClientMsgV::Join { .. }) => ChatState::Joined,
        Some(ClientMsgV::Send { .. }) => ChatState::Joined,
        Some(ClientMsgV::Leave) => ChatState::Leaving,
    }
}

/// Handles one frame of a connection in Waiting: a join attempt, an early
/// leave, a stray chat frame, or the peer closing. Returns the next state,
/// the name bound on a successful join, and the owed writes.
pub fn handle_waiting_state(users: &mut Users, handle: u64, input: Option<FromClient>) -> (r: (
    ChatState,
    Option<String>,
    Vec<(u64, FromServer)>,
))
    requires
        old(users).wf(),
    ensures
        final(users).wf(),
        r.0 == waiting_next(old(users)@, match input {
            Some(m) => Some(m@),
            None => None,
        }),
        ({
            let m0 = old(users)@;
            match input {
                None => r.1 is None && r.2@.len() == 0 && final(users)@ == m0,
                Some(fc) => match fc@ {
                    ClientMsgV::Join { username: u } => if m0.dom().contains(u) {
                        &&& r.1 is None
                        &&& final(users)@ == m0
                        &&& r.2@.len() == 1
                        &&& r.2@[0].0 == handle
                        &&& r.2@[0].1@ == (ServerMsgV::Error { reason: taken_text(u) })
                    } else {
                        &&& (match r.1 {
                            Some(name) => name@ == u,
                            None => false,
                        })
                        &&& final(users)@ == m0.insert(u, handle)
                        &&& r.2@.len() >= 2
                        &&& r.2@[0].0 == handle
                        &&& r.2@[0].1@ == ServerMsgV::JoinSuccess
                        &&& r.2@[1].0 == handle
                        &&& r.2@[1].1@ == (ServerMsgV::Message { message: welcome_text(u) })
                        &&& is_broadcast(
                            r.2@.skip(2),
                            final(users)@,
                            u,
                            ("I just entered the chat!")@,
                        )
                    },
                    ClientMsgV::Send { .. } => {
                        &&& r.1 is None
                        &&& final(users)@ == m0
                        &&& r.2@.len() == 1
                        &&& r.2@[0].0 == handle
                        &&& r.2@[0].1@ == (ServerMsgV::Error {
                            reason: ("Error joining server")@,
                        })
                    },
                    ClientMsgV::Leave => r.1 is None && r.2@.len() == 0 && final(users)@ == m0,
                },
            }
        }),
{
    match input {
        None => (ChatState::Leaving, None, Vec::new()),
        Some(FromClient::Join { username }) => {
            if users.contains_name(&username) {
                let mut reason = String::from_str("'");
                reason.append(username.as_str());
                reason.append("' is already taken. Choose another name.");
                proof {
                    assert(reason@ =~= taken_text(username@));
                }
                let mut out: Vec<(u64, FromServer)> = Vec::new();
                out.push((handle, FromServer::Error(reason)));
                (ChatState::Waiting, None, out)
            } else {
                let _ = users.add_user(&username, handle);
                let mut out: Vec<(u64, FromServer)> = Vec::new();
                out.push((handle, FromServer::JoinSuccess));
                let mut welcome = String::from_str("Welcome ");
                welcome.append(username.as_str());
                welcome.append("!");
                proof {
                    assert(welcome@ =~= welcome_text(username@));
                }
                out.push((handle, FromServer::Message { message: welcome }));
                let entry_note = String::from_str("I just entered the chat!");
                let mut bs = users.send(&username, &entry_note);
                let ghost bsv = bs@;
                out.append(&mut bs);
                proof {
                    assert(out@.skip(2) =~= bsv);
                }
                (ChatState::Joined, Some(username), out)
            }
        },
        Some(FromClient::Send { message: _ }) => {
            let mut out: Vec<(u64, FromServer)> = Vec::new();
            out.push((handle, FromServer::Error(String::from_str("Error joining server"))));
            (ChatState::Waiting, None, out)
        },
        Some(FromClient::Leave) => (ChatState::Leaving, None, Vec::new()),
    }
}

/// Handles one frame of a connection in Joined: a rejected second join, a
/// chat message to relay, a graceful leave, or an abrupt close. Returns the
/// next state and the owed writes.
pub fn handle_joined_state(
    users: &mut Users,
    handle: u64,
    username: &String,
    input: Option<FromClient>,
) -> (r: (ChatState, Vec<(u64, FromServer)>))
    requires
        old(users).wf(),
    ensures
        final(users).wf(),
        r.0 == joined_next(match input {
            Some(m) => Some(m@),
            None => None,
        }),
        ({
            let m0 = old(users)@;
            match input {
                None => final(users)@ == m0.remove(username@) && is_broadcast(
                    r.1@,
                    m0,
                    username@,
                    ("Later guys!")@,
                ),
                Some(fc) => match fc@ {
                    ClientMsgV::Join { .. } => {
                        &&& final(users)@ == m0
                        &&& r.1@.len() == 1
                        &&& r.1@[0].0 == handle
                        &&& r.1@[0].1@ == (ServerMsgV::Error {
                            reason: ("You're already joined.")@,
                        })
                    },
                    ClientMsgV::Send { message: t } => final(users)@ == m0 && is_broadcast(
                        r.1@,
                        m0,
                        username@,
                        t,
                    ),
                    ClientMsgV::Leave => final(users)@ == m0.remove(username@) && is_broadcast(
                        r.1@,
                        m0,
                        username@,
                        ("Outa-here like Vladamir!")@,
                    ),
                },
            }
        }),
{
    match input {
        None => {
            let note = String::from_str("Later guys!");
            let bs = users.send(username, &note);
            users.remove_user(username);
            (ChatState::Leaving, bs)
        },
        Some(FromClient::Join { .. }) => {
            let mut out: Vec<(u64, FromServer)> = Vec::new();
            out.push((handle, FromServer::Error(String::from_str("You're already joined."))));
            (ChatState::Joined, out)
        },
        Some(FromClient::Send { message }) => {
            let bs = users.send(username, &message);
            (ChatState::Joined, bs)
        },
        Some(FromClient::Leave) => {
            let note = String::from_str("Outa-here like Vladamir!");
            let bs = users.send(username, &note);
            users.remove_user(username);
            (ChatState::Leaving, bs)
        },
    }
}

/// State-machine totality. From Waiting, a join moves the session to Joined
/// exactly when the name is free and otherwise leaves it Waiting; a stray
/// chat frame leaves it Waiting; a leave or a disconnect ends it. From
/// Joined, a second join and a chat frame are handled in place; a leave or a
/// disconnect ends it. No other transition exists, and Leaving is terminal by
/// construction: no handler takes it.
pub proof fn lemma_state_totality(m0: Map<Seq<char>, u64>, input: Option<ClientMsgV>)
    ensures
        (match input {
            Some(ClientMsgV::Join { username }) => waiting_next(m0, input) == (
            if m0.dom().contains(username) {
                ChatState::Waiting
            } else {
                ChatState::Joined
            }) && joined_next(input) == ChatState::Joined,
            Some(ClientMsgV::Send { .. }) => waiting_next(m0, input) == ChatState::Waiting
                && joined_next(input) == ChatState::Joined,
            Some(ClientMsgV::Leave) => waiting_next(m0, input) == ChatState::Leaving
                && joined_next(input) == ChatState::Leaving,
            None => waiting_next(m0, input) == ChatState::Leaving && joined_next(input)
                == ChatState::Leaving,
        }),
{
}

} // verus!
