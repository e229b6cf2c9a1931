//! Option negotiation: the state of every option of one connection, the local
//! policy, and what each command from the peer does to them.
//!
//! A reply is a statement of change. The machine answers a command only when
//! the command moves an option to a state that the peer has not yet been told
//! of, so two machines talking to each other always come to rest.

use vstd::prelude::*;
use crate::frame::{FrameView, TelnetCommand, TelnetFrame};

verus! {

/// Where the negotiation of one option stands.
#[derive(Clone, Copy, Debug, PartialEq, Eq, Structural)]
pub enum OptionState {
    /// Neither side has spoken of the option.
    NotNegotiated,
    /// The option is in effect.
    Enabled,
    /// The option is not in effect, and this has been said.
    Disabled,
    /// This side has offered the option (`WILL`) and awaits `DO` or `DONT`.
    PendingLocalRequest,
    /// This side has asked the peer for the option (`DO`) and awaits `WILL` or
    /// `WONT`.
    PendingRemoteRequest,
}

/// What the state machine wants done with a frame it was given.
#[derive(Debug, PartialEq, Eq)]
pub enum Action {
    /// Nothing: the frame was consumed or discarded.
    Nothing,
    /// Write this command back to the peer.
    Reply(TelnetCommand),
    /// Hand this frame to the application.
    Forward(TelnetFrame),
}

/// The mathematical value of an [`Action`].
pub enum ActionView {
    /// Nothing is to be done.
    Nothing,
    /// The command is to be written back.
    Reply(TelnetCommand),
    /// The frame is to be handed to the application.
    Forward(FrameView),
}

impl View for Action {
    type V = ActionView;

    open spec fn view(&self) -> ActionView {
        match self {
            Action::Nothing => ActionView::Nothing,
            Action::Reply(c) => ActionView::Reply(*c),
            Action::Forward(f) => ActionView::Forward(f@),
        }
    }
}

/// The state that option `state` takes, and the reply that is owed, when the
/// peer sends `command` and the local policy does or does not support the
/// option.
///
/// - `DO` and `WILL` ask for the option. Policy decides: the option becomes
///   `Enabled` or `Disabled`. The decision is written back (`WILL` or `WONT`
///   to a `DO`, `DO` or `DONT` to a `WILL`) unless the peer knows it already:
///   an agreement is not repeated where the option is `Enabled` or where the
///   command answers this side's own request, and a refusal is not repeated
///   where the option is `Disabled`.
/// - `DONT` and `WONT` switch the option off. The option becomes `Disabled`,
///   and this is acknowledged (`WONT` to a `DONT`, `DONT` to a `WONT`) only
///   where the option was `Enabled`.
pub open spec fn spec_respond(state: OptionState, supported: bool, command: TelnetCommand) -> (
    OptionState,
    Option<TelnetCommand>,
) {
    match command {
        TelnetCommand::Do(opt) => if supported {
            (
                OptionState::Enabled,
                if state == OptionState::Enabled || state == OptionState::PendingLocalRequest {
                    None
                } else {
                    Some(TelnetCommand::Will(opt))
                },
            )
        } else {
            (
                OptionState::Disabled,
                if state == OptionState::Disabled {
                    None
                } else {
                    Some(TelnetCommand::Wont(opt))
                },
            )
        },
        TelnetCommand::Will(opt) => if supported {
            (
                OptionState::Enabled,
                if state == OptionState::Enabled || state == OptionState::PendingRemoteRequest {
                    None
                } else {
                    Some(TelnetCommand::Do(opt))
                },
            )
        } else {
            (
                OptionState::Disabled,
                if state == OptionState::Disabled {
                    None
                } else {
                    Some(TelnetCommand::Dont(opt))
                },
            )
        },
        TelnetCommand::Dont(opt) => (
            OptionState::Disabled,
            if state == OptionState::Enabled {
                Some(TelnetCommand::Wont(opt))
            } else {
                None
            },
        ),
        TelnetCommand::Wont(opt) => (
            OptionState::Disabled,
            if state == OptionState::Enabled {
                Some(TelnetCommand::Dont(opt))
            } else {
                None
            },
        ),
    }
}

/// The state that option `state` takes, and the command that is to be sent,
/// when this side itself asks for `command`.
///
/// - `WILL` offers the option and `DO` asks the peer for it. The request is
///   sent and the option waits for the answer, unless the option is `Enabled`
///   or the same request is under way already.
/// - `WONT` and `DONT` switch the option off. The option becomes `Disabled`,
///   and the command is sent where the peer may believe otherwise: where the
///   option was `Enabled` or a request for it was under way.
pub open spec fn spec_initiate(state: OptionState, command: TelnetCommand) -> (
    OptionState,
    Option<TelnetCommand>,
) {
    match command {
        TelnetCommand::Will(_) => if state == OptionState::Enabled || state
            == OptionState::PendingLocalRequest {
            (state, None)
        } else {
            (OptionState::PendingLocalRequest, Some(command))
        },
        TelnetCommand::Do(_) => if state == OptionState::Enabled || state
            == OptionState::PendingRemoteRequest {
            (state, None)
        } else {
            (OptionState::PendingRemoteRequest, Some(command))
        },
        _ => (
            OptionState::Disabled,
            if state == OptionState::NotNegotiated || state == OptionState::Disabled {
                None
            } else {
                Some(command)
            },
        ),
    }
}

/// The mathematical value of a [`Negotiation`]: for every option code its
/// state and whether local policy supports it.
pub struct OptionTable {
    /// The state of each option, by option code.
    pub states: Seq<OptionState>,
    /// Whether local policy supports each option, by option code.
    pub policy: Seq<bool>,
}

impl OptionTable {
    /// Every option code has an entry.
    pub open spec fn well_formed(self) -> bool {
        self.states.len() == 256 && self.policy.len() == 256
    }

    /// The table of a new connection: nothing negotiated, nothing supported.
    pub open spec fn initial() -> OptionTable {
        OptionTable {
            states: Seq::new(256, |i: int| OptionState::NotNegotiated),
            policy: Seq::new(256, |i: int| false),
        }
    }

    /// The state of `option`.
    pub open spec fn state(self, option: u8) -> OptionState {
        self.states[option as int]
    }

    /// Whether local policy supports `option`.
    pub open spec fn supports(self, option: u8) -> bool {
        self.policy[option as int]
    }

    /// This table with the policy for `option` set.
    pub open spec fn with_policy(self, option: u8, supported: bool) -> OptionTable {
        OptionTable { states: self.states, policy: self.policy.update(option as int, supported) }
    }

    /// This table with the state of `option` set.
    pub open spec fn with_state(self, option: u8, state: OptionState) -> OptionTable {
        OptionTable { states: self.states.update(option as int, state), policy: self.policy }
    }

    /// The table after `command` has come from the peer, and the reply owed.
    pub open spec fn respond(self, command: TelnetCommand) -> (OptionTable, Option<TelnetCommand>) {
        let option = command.spec_option();
        let (state, reply) = spec_respond(self.state(option), self.supports(option), command);
        (self.with_state(option, state), reply)
    }

    /// The table after this side has asked for `command`, and the command to
    /// send.
    pub open spec fn initiate(self, command: TelnetCommand) -> (
        OptionTable,
        Option<TelnetCommand>,
    ) {
        let option = command.spec_option();
        let (state, sent) = spec_initiate(self.state(option), command);
        (self.with_state(option, state), sent)
    }

    /// The table after `frame` has come from the peer, and what is to be done
    /// with the frame.
    ///
    /// - A command is negotiated; its reply, if one is owed, is to be written.
    /// - Data goes to the application.
    /// - A subnegotiation goes to the application where its option is
    ///   `Enabled`, and is discarded otherwise.
    /// - An unknown command is discarded.
    pub open spec fn handle(self, frame: FrameView) -> (OptionTable, ActionView) {
        match frame {
            FrameView::Command(command) => {
                let (next, reply) = self.respond(command);
                (
                    next,
                    match reply {
                        Some(r) => ActionView::Reply(r),
                        None => ActionView::Nothing,
                    },
                )
            },
            FrameView::Data(_) => (self, ActionView::Forward(frame)),
            FrameView::Subnegotiation(option, _) => (
                self,
                if self.state(option) == OptionState::Enabled {
                    ActionView::Forward(frame)
                } else {
                    ActionView::Nothing
                },
            ),
            FrameView::UnknownCommand(_) => (self, ActionView::Nothing),
        }
    }
}

/// Idempotence: a command that comes a second time changes nothing and
/// draws no reply, whatever the first one did.
pub proof fn lemma_respond_idempotent(table: OptionTable, command: TelnetCommand)
    requires
        table.well_formed(),
    ensures
        table.respond(command).0.respond(command) == (table.respond(command).0, None::<TelnetCommand>),
{
    let once = table.respond(command).0;
    let twice = once.respond(command).0;
    assert(twice.states =~= once.states);
}

/// A `DO` for a supported option that is neither enabled nor on offer is
/// answered with `WILL` once: the same `DO` again finds the option `Enabled`
/// and is not answered.
pub proof fn lemma_do_answered_once(table: OptionTable, option: u8)
    requires
        table.well_formed(),
        table.supports(option),
        table.state(option) != OptionState::Enabled,
        table.state(option) != OptionState::PendingLocalRequest,
    ensures
        table.respond(TelnetCommand::Do(option)).1 == Some(TelnetCommand::Will(option)),
        table.respond(TelnetCommand::Do(option)).0.state(option) == OptionState::Enabled,
        table.respond(TelnetCommand::Do(option)).0.respond(TelnetCommand::Do(option)).1 is None,
{
    lemma_respond_idempotent(table, TelnetCommand::Do(option));
}

/// No reply without a transition: where a command is answered, the option it
/// speaks of has changed state. A command that finds the option where it
/// asks it to be is never answered.
pub proof fn lemma_reply_only_on_transition(table: OptionTable, command: TelnetCommand)
    requires
        table.well_formed(),
    ensures
        table.respond(command).1 is Some ==> table.respond(command).0.state(command.spec_option())
            != table.state(command.spec_option()),
{
}

/// The command by which a peer confirms `command`: `DO` confirms `WILL` and
/// `DONT` confirms `WONT`, and the other way round.
pub open spec fn acknowledgment(command: TelnetCommand) -> TelnetCommand {
    match command {
        TelnetCommand::Will(opt) => TelnetCommand::Do(opt),
        TelnetCommand::Wont(opt) => TelnetCommand::Dont(opt),
        TelnetCommand::Do(opt) => TelnetCommand::Will(opt),
        TelnetCommand::Dont(opt) => TelnetCommand::Wont(opt),
    }
}

/// No loops: where a command has been answered and the peer confirms the
/// answer, the confirmation is not answered in turn.
pub proof fn lemma_acknowledgment_draws_no_reply(table: OptionTable, command: TelnetCommand)
    requires
        table.well_formed(),
    ensures
        table.respond(command).1 matches Some(reply) ==> table.respond(command).0.respond(
            acknowledgment(reply),
        ).1 is None,
{
}

/// A request of this side that the peer confirms is settled in silence: the
/// option is `Enabled` after a confirmed `WILL` or `DO` and `Disabled` after a
/// confirmed `WONT` or `DONT`, and nothing more is sent. For `WILL` and `DO`
/// this needs a policy that supports the option; against policy the option
/// is withdrawn again.
pub proof fn lemma_request_settles(table: OptionTable, command: TelnetCommand)
    requires
        table.well_formed(),
        table.supports(command.spec_option()) || command is Wont || command is Dont,
    ensures
        table.initiate(command).1 matches Some(sent) ==> {
            let settled = table.initiate(command).0.respond(acknowledgment(sent));
            &&& settled.1 is None
            &&& settled.0.state(command.spec_option()) == if command is Will || command is Do {
                OptionState::Enabled
            } else {
                OptionState::Disabled
            }
        },
{
}

/// A command touches one option: every other option keeps its state, the
/// policy stays as it is, and a reply speaks of the same option.
pub proof fn lemma_respond_touches_one_option(table: OptionTable, command: TelnetCommand)
    requires
        table.well_formed(),
    ensures
        table.respond(command).0.well_formed(),
        table.respond(command).0.policy == table.policy,
        forall|other: u8|
            other != command.spec_option() ==> #[trigger] table.respond(command).0.state(other)
                == table.state(other),
        table.respond(command).1 matches Some(reply) ==> reply.spec_option()
            == command.spec_option(),
{
}

/// Only commands move options: data, subnegotiations and unknown commands
/// leave every state and the policy as they are, and are never answered.
pub proof fn lemma_only_commands_move_options(table: OptionTable, frame: FrameView)
    requires
        !(frame is Command),
    ensures
        table.handle(frame).0 == table,
        !(table.handle(frame).1 is Reply),
{
}

/// The option negotiation state of one connection.
#[derive(Debug)]
pub struct Negotiation {
    states: [OptionState; 256],
    policy: [bool; 256],
}

impl View for Negotiation {
    type V = OptionTable;

    closed spec fn view(&self) -> OptionTable {
        OptionTable { states: self.states@, policy: self.policy@ }
    }
}

impl Clone for Negotiation {
    fn clone(&self) -> (copy: Self)
        ensures
            copy@ == self@,
    {
        Negotiation { states: self.states, policy: self.policy }
    }
}

impl Negotiation {
    /// Every value of this type has a well-formed table.
    pub proof fn lemma_well_formed(self)
        ensures
            self@.well_formed(),
    {
    }

    /// The state of a new connection: nothing negotiated, and no option
    /// supported until policy says so.
    pub fn new() -> (fresh: Negotiation)
        ensures
            fresh@ == OptionTable::initial(),
    {
        let fresh = Negotiation {
            states: [OptionState::NotNegotiated;256],
            policy: [false;256],
        };
        assert(fresh@.states =~= OptionTable::initial().states);
        assert(fresh@.policy =~= OptionTable::initial().policy);
        fresh
    }

    /// Sets whether local policy supports `option`.
    pub fn set_policy(&mut self, option: u8, supported: bool)
        ensures
            final(self)@ == old(self)@.with_policy(option, supported),
    {
        self.policy[option as usize] = supported;
    }

    /// Whether local policy supports `option`.
    pub fn supports(&self, option: u8) -> (supported: bool)
        ensures
            supported == self@.supports(option),
    {
        self.policy[option as usize]
    }

    /// The state of `option`.
    pub fn state(&self, option: u8) -> (state: OptionState)
        ensures
            state == self@.state(option),
    {
        self.states[option as usize]
    }

    /// Takes a command from the peer: updates the option it speaks of and
    /// returns the reply to write back, if one is owed.
    pub fn receive_command(&mut self, command: TelnetCommand) -> (reply: Option<TelnetCommand>)
        ensures
            final(self)@ == old(self)@.respond(command).0,
            reply == old(self)@.respond(command).1,
    {
        let option = command.option();
        let state = self.states[option as usize];
        let supported = self.policy[option as usize];
        let (next, reply) = respond(state, supported, command);
        self.states[option as usize] = next;
        reply
    }

    /// Opens a negotiation from this side: updates the option that `command`
    /// speaks of and returns the command to send, if there is anything to say.
    pub fn request(&mut self, command: TelnetCommand) -> (sent: Option<TelnetCommand>)
        ensures
            final(self)@ == old(self)@.initiate(command).0,
            sent == old(self)@.initiate(command).1,
    {
        let option = command.option();
        let state = self.states[option as usize];
        let (next, sent) = initiate(state, command);
        self.states[option as usize] = next;
        sent
    }

    /// Takes one frame from the decoder: updates the option state and says
    /// what is to be done with the frame.
    pub fn handle_frame(&mut self, frame: TelnetFrame) -> (action: Action)
        ensures
            final(self)@ == old(self)@.handle(frame@).0,
            action@ == old(self)@.handle(frame@).1,
    {
        match frame {
            TelnetFrame::Command(command) => match self.receive_command(command) {
                Some(reply) => Action::Reply(reply),
                None => Action::Nothing,
            },
            TelnetFrame::Data(data) => Action::Forward(TelnetFrame::Data(data)),
            TelnetFrame::Subnegotiation(option, payload) => {
                if self.state(option) == OptionState::Enabled {
                    Action::Forward(TelnetFrame::Subnegotiation(option, payload))
                } else {
                    Action::Nothing
                }
            },
            TelnetFrame::UnknownCommand(_) => Action::Nothing,
        }
    }
}

/// The state that an option takes, and the reply that is owed, when the peer
/// sends `command`.
pub fn respond(state: OptionState, supported: bool, command: TelnetCommand) -> (r: (
    OptionState,
    Option<TelnetCommand>,
))
    ensures
        r == spec_respond(state, supported, command),
{
    match command {
        TelnetCommand::Do(opt) => {
            if supported {
                let told = state == OptionState::Enabled || state
                    == OptionState::PendingLocalRequest;
                (
                    OptionState::Enabled,
                    if told {
                        None
                    } else {
                        Some(TelnetCommand::Will(opt))
                    },
                )
            } else {
                (
                    OptionState::Disabled,
                    if state == OptionState::Disabled {
                        None
                    } else {
                        Some(TelnetCommand::Wont(opt))
                    },
                )
            }
        },
        TelnetCommand::Will(opt) => {
            if supported {
                let told = state == OptionState::Enabled || state
                    == OptionState::PendingRemoteRequest;
                (
                    OptionState::Enabled,
                    if told {
                        None
                    } else {
                        Some(TelnetCommand::Do(opt))
                    },
                )
            } else {
                (
                    OptionState::Disabled,
                    if state == OptionState::Disabled {
                        None
                    } else {
                        Some(TelnetCommand::Dont(opt))
                    },
                )
            }
        },
        TelnetCommand::Dont(opt) => (
            OptionState::Disabled,
            if state == OptionState::Enabled {
                Some(TelnetCommand::Wont(opt))
            } else {
                None
            },
        ),
        TelnetCommand::Wont(opt) => (
            OptionState::Disabled,
            if state == OptionState::Enabled {
                Some(TelnetCommand::Dont(opt))
            } else {
                None
            },
        ),
    }
}

/// The state that an option takes, and the command that is to be sent, when
/// this side itself asks for `command`.
pub fn initiate(state: OptionState, command: TelnetCommand) -> (r: (
    OptionState,
    Option<TelnetCommand>,
))
    ensures
        r == spec_initiate(state, command),
{
    match command {
        TelnetCommand::Will(_) => {
            if state == OptionState::Enabled || state == OptionState::PendingLocalRequest {
                (state, None)
            } else {
                (OptionState::PendingLocalRequest, Some(command))
            }
        },
        TelnetCommand::Do(_) => {
            if state == OptionState::Enabled || state == OptionState::PendingRemoteRequest {
                (state, None)
            } else {
                (OptionState::PendingRemoteRequest, Some(command))
            }
        },
        _ => {
            let quiet = state == OptionState::NotNegotiated || state == OptionState::Disabled;
            (
                OptionState::Disabled,
                if quiet {
                    None
                } else {
                    Some(command)
                },
            )
        },
    }
}

} // verus!
