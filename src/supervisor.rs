//! The listener supervisor: the decisions of the control loop, from the
//! message or the store's answer it is handed to the next state and the
//! action the loop must perform.
use vstd::prelude::*;
use crate::routes::{RouteTable, RouteError, build, build_outcome, name_views};

verus! {

/// The messages carried by the control channel, consumed in send order.
#[derive(Clone, Copy, Debug, PartialEq, Eq, Structural)]
pub enum ControlMessage {
    Start,
    Restart,
}

/// A failure reported by the store, with its diagnostic text.
#[derive(Debug)]
pub struct StoreError {
    pub message: String,
}

/// What the control loop must do after a message.
pub enum Directive {
    /// Read the current entity names from the store and hand the answer to
    /// `Supervisor::rebuilt`.
    Rebuild,
    /// Cancel these listeners, then send `send` on the control channel.
    CancelThenSend { cancel: Vec<u64>, send: ControlMessage },
}

impl Directive {
    /// The listeners this directive cancels.
    pub open spec fn cancelled(&self) -> Seq<u64> {
        match self {
            Directive::Rebuild => Seq::empty(),
            Directive::CancelThenSend { cancel, .. } => cancel@,
        }
    }

    /// The messages this directive sends on the control channel.
    pub open spec fn sent(&self) -> Seq<ControlMessage> {
        match self {
            Directive::Rebuild => Seq::empty(),
            Directive::CancelThenSend { send, .. } => seq![*send],
        }
    }
}

/// Why a start did not launch a listener; the listeners already running stay.
#[derive(Debug)]
pub enum StartError {
    Store(StoreError),
    Routes(RouteError),
    /// Every listener id has been handed out.
    Exhausted,
}

/// A listener to spawn: its id, under which it can later be cancelled, and
/// the routes it serves.
pub struct Launch {
    pub listener: u64,
    pub routes: RouteTable,
}

/// The live listeners, in launch order, and the id the next one gets.
pub struct Supervisor {
    live: Vec<u64>,
    next_id: u64,
}

/// The live listeners after a message is handled.
pub open spec fn live_after(live: Seq<u64>, m: ControlMessage) -> Seq<u64> {
    match m {
        ControlMessage::Start => live,
        ControlMessage::Restart => Seq::empty(),
    }
}

/// The messages the supervisor sends itself while handling a message.
pub open spec fn sent_after(m: ControlMessage) -> Seq<ControlMessage> {
    match m {
        ControlMessage::Start => Seq::empty(),
        ControlMessage::Restart => seq![ControlMessage::Start],
    }
}

/// The live listeners after a start launches listener `id`.
pub open spec fn live_after_launch(live: Seq<u64>, id: u64) -> Seq<u64> {
    live.push(id)
}

impl View for Supervisor {
    type V = (Seq<u64>, u64);

    closed spec fn view(&self) -> (Seq<u64>, u64) {
        (self.live@, self.next_id)
    }
}

impl Supervisor {
    /// Live ids are ascending, hence distinct, and below the next id.
    pub open spec fn wf(&self) -> bool {
        &&& forall|i: int, j: int| 0 <= i < j < self@.0.len() ==> self@.0[i] < self@.0[j]
        &&& forall|i: int| 0 <= i < self@.0.len() ==> self@.0[i] < self@.1
    }

    /// A supervisor with no listener running.
    pub fn new() -> (r: Supervisor)
        ensures
            r.wf(),
            r@.0.len() == 0,
    {
        Supervisor { live: Vec::new(), next_id: 0 }
    }

    /// The ids of the listeners running now, in launch order.
    pub fn live(&self) -> (r: &Vec<u64>)
        ensures
            r@ == self@.0,
    {
        &self.live
    }

    /// Handles one control message. A start asks for a rebuild and changes
    /// nothing yet; a restart cancels every live listener, empties the
    /// collection and sends exactly one start.
    pub fn receive(&mut self, m: ControlMessage) -> (d: Directive)
        requires
            old(self).wf(),
        ensures
            final(self).wf(),
            final(self)@.0 == live_after(old(self)@.0, m),
            final(self)@.1 == old(self)@.1,
            d.sent() == sent_after(m),
            m == ControlMessage::Start ==> d is Rebuild,
            m == ControlMessage::Restart ==> d.cancelled() == old(self)@.0,
    {
        match m {
            ControlMessage::Start => Directive::Rebuild,
            ControlMessage::Restart => {
                let mut cancel: Vec<u64> = Vec::new();
                core::mem::swap(&mut cancel, &mut self.live);
                Directive::CancelThenSend { cancel, send: ControlMessage::Start }
            },
        }
    }

    /// Takes the store's answer to a rebuild. With the entity names in hand,
    /// builds the route table and launches one new listener under a fresh id;
    /// on any failure no listener is added and those running keep running.
    pub fn rebuilt(&mut self, discovered: Result<Vec<String>, StoreError>) -> (r: Result<Launch, StartError>)
        requires
            old(self).wf(),
        ensures
            final(self).wf(),
            r is Err ==> final(self)@ == old(self)@,
            discovered matches Err(e) ==> r == Err::<Launch, StartError>(StartError::Store(e)),
            discovered matches Ok(names) ==> match build_outcome(name_views(names@)) {
                Err(e) => r == Err::<Launch, StartError>(StartError::Routes(e)),
                Ok(routes) => if old(self)@.1 == u64::MAX {
                    r is Err && r->Err_0 is Exhausted
                } else {
                    r is Ok
                    && r->Ok_0.listener == old(self)@.1
                    && r->Ok_0.routes.wf()
                    && r->Ok_0.routes@.to_set() == routes
                    && final(self)@.0 == live_after_launch(old(self)@.0, old(self)@.1)
                    && final(self)@.1 == old(self)@.1 + 1
                },
            },
    {
        match discovered {
            Err(e) => Err(StartError::Store(e)),
            Ok(names) => match build(&names) {
                Err(e) => Err(StartError::Routes(e)),
                Ok(routes) => {
                    if self.next_id == u64::MAX {
                        Err(StartError::Exhausted)
                    } else {
                        let listener = self.next_id;
                        let ghost before = self.live@;
                        let ghost pre = self@;
                        assert(pre.0 == before);
                        self.live.push(listener);
                        self.next_id = self.next_id + 1;
                        proof {
                            assert forall|i: int| 0 <= i < self.live@.len() implies self.live@[i] < self.next_id by {
                                if i < before.len() {
                                    assert(self.live@[i] == before[i]);
                                    assert(pre.0[i] < pre.1);
                                }
                            }
                            assert forall|i: int, j: int| 0 <= i < j < self.live@.len() implies self.live@[i] < self.live@[j] by {
                                assert(self.live@[i] == before[i]);
                                assert(pre.0[i] < pre.1);
                                if j < before.len() {
                                    assert(self.live@[j] == before[j]);
                                    assert(pre.0[i] < pre.0[j]);
                                }
                            }
                        }
                        Ok(Launch { listener, routes })
                    }
                },
            },
        }
    }
}

/// A restart leaves no listener live and sends exactly one start; a start
/// sends nothing and leaves the collection as it was, so the collection stays
/// empty until that start launches a listener, after which exactly one is live.
pub proof fn lemma_restart_then_one_start(live: Seq<u64>, id: u64)
    ensures
        live_after(live, ControlMessage::Restart).len() == 0,
        sent_after(ControlMessage::Restart) == seq![ControlMessage::Start],
        sent_after(ControlMessage::Start).len() == 0,
        live_after(live_after(live, ControlMessage::Restart), ControlMessage::Start).len() == 0,
        live_after_launch(live_after(live, ControlMessage::Restart), id) == seq![id],
{
    assert(live_after_launch(live_after(live, ControlMessage::Restart), id) =~= seq![id]);
}

} // verus!
