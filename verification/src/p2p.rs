//! The decisions of a node between the overlay and its validator.
//!
//! The transport runs the event loop. It hands each command and each
//! inbound message to a [`Node`], performs the action that comes back,
//! reports the verdict to the overlay once, and then writes the score
//! update, if there is one, to the overlay's application-score surface.

use crate::decision::{Acceptance, Reason};
use crate::metrics::{bump, bumped, Counters};
use crate::model::{blame_target, blamed_peer, ValidatorView};
use crate::peers::{quarantined_count, PeerId};
use crate::validator::{author_view, Validator, ValidatorConfig};
use vstd::prelude::*;

verus! {

/// Configuration of a node.
#[derive(Debug, Clone)]
pub struct NodeConfig {
    /// Index of the node in the simulation.
    pub idx: usize,
    /// Topic that the node subscribes and publishes to.
    pub topic: String,
    /// Longest message that the node's validator lets pass, in bytes.
    pub max_message_bytes: usize,
}

/// What a node is told to do.
#[derive(Debug)]
pub enum NodeCommand {
    /// Connect to the peer that listens at `addr`.
    Dial { addr: String },
    /// Subscribe to the node's topic.
    Subscribe,
    /// Publish `data` on the node's topic.
    Publish { data: Vec<u8> },
    /// Replace the list of peers whose traffic counts as hostile.
    SetBadPeers { bad_peer_ids: Vec<PeerId> },
    /// Stop and report.
    Shutdown,
}

/// What a node reports when it stops.
#[derive(Debug, Clone, Copy, PartialEq, Eq, Structural)]
pub struct NodeSummary {
    pub accepted: u64,
    pub rejected: u64,
    pub ignored: u64,
    pub quarantined_peers: u64,
    /// Mean credit per judged message, in thousandths of a point: a tenth
    /// of a point for each accepted message, three points off for each
    /// rejected one.
    pub avg_peer_score: i64,
    /// Accepted messages whose author is not on the list of bad peers.
    pub honest_accepted: u64,
    /// Rejected messages whose author is not on the list of bad peers.
    pub honest_rejected: u64,
}

/// What a node tells its owner.
#[derive(Debug)]
pub enum NodeEvent {
    /// The node listens at this address.
    NewListenAddr(String),
    /// The node has stopped.
    Summary(NodeSummary),
}

/// What the transport is to do after a command.
#[derive(Debug)]
pub enum NodeAction {
    /// Connect to the peer that listens at `addr`.
    Dial { addr: String },
    /// Subscribe to the node's topic.
    Subscribe,
    /// Publish `data` on the node's topic.
    Publish { data: Vec<u8> },
    /// Nothing; the node has changed its own state.
    Nothing,
    /// Send the event to the node's owner and leave the event loop.
    Finish(NodeEvent),
}

/// What the transport is to do after an inbound message.
#[derive(Debug)]
pub struct MessageReport {
    /// The verdict to report to the overlay, once.
    pub acceptance: Acceptance,
    /// Why.
    pub reason: Reason,
    /// The peer whose application score is to be written after the
    /// verdict was reported, and the score in thousandths of a point.
    pub score_update: Option<(PeerId, i64)>,
}

/// Mean credit per judged message, in thousandths of a point, rounded
/// toward zero; zero when no message was judged.
pub open spec fn average_credit(accepted: u64, rejected: u64) -> i64 {
    let judged = accepted + rejected;
    let gain = accepted * 100;
    let loss = rejected * 3000;
    if judged == 0 {
        0
    } else if gain >= loss {
        ((gain - loss) / judged) as i64
    } else {
        (-((loss - gain) / judged)) as i64
    }
}

/// Computes [`average_credit`].
pub fn average(accepted: u64, rejected: u64) -> (mean: i64)
    ensures
        mean == average_credit(accepted, rejected),
        -3000 <= mean <= 100,
{
    let judged: u128 = accepted as u128 + rejected as u128;
    if judged == 0 {
        return 0;
    }
    let gain: u128 = accepted as u128 * 100;
    let loss: u128 = rejected as u128 * 3000;
    if gain >= loss {
        let mean: u128 = (gain - loss) / judged;
        assert(mean <= 100) by (nonlinear_arith)
            requires
                mean == (gain - loss) / (judged as int),
                gain - loss <= 100 * judged,
                gain >= loss,
                judged > 0,
        ;
        mean as i64
    } else {
        let mean: u128 = (loss - gain) / judged;
        assert(mean <= 3000) by (nonlinear_arith)
            requires
                mean == (loss - gain) / (judged as int),
                loss - gain <= 3000 * judged,
                loss > gain,
                judged > 0,
        ;
        -(mean as i64)
    }
}

/// Mathematical value of a node.
pub struct NodeView {
    pub validator: ValidatorView,
    pub counters: Counters,
    pub honest_accepted: u64,
    pub honest_rejected: u64,
    pub bad_peers: Seq<Seq<u8>>,
}

impl NodeView {
    /// Whether a peer is not on the list of bad peers.
    pub open spec fn is_honest(self, id: Seq<u8>) -> bool {
        !self.bad_peers.contains(id)
    }

    /// The node after it judged a message that arrived at `now`.
    pub open spec fn after_message(
        self,
        now: u64,
        forwarder: Seq<u8>,
        author: Option<Seq<u8>>,
        bytes: Seq<u8>,
    ) -> NodeView {
        let (validator, decision) = self.validator.step(now, forwarder, author, bytes);
        let honest = self.is_honest(blame_target(forwarder, author));
        NodeView {
            validator,
            counters: self.counters.counted(decision.acceptance),
            honest_accepted: if honest && decision.acceptance == Acceptance::Accept {
                bumped(self.honest_accepted)
            } else {
                self.honest_accepted
            },
            honest_rejected: if honest && decision.acceptance == Acceptance::Reject {
                bumped(self.honest_rejected)
            } else {
                self.honest_rejected
            },
            bad_peers: self.bad_peers,
        }
    }

    /// The score that the overlay is to be given after a message with the
    /// verdict's reason `reason`: that of the peer the verdict is held
    /// against, if a penalty was ever recorded against it. That peer is the
    /// forwarder after a rate-limit reject, else the author, or the
    /// forwarder in its place.
    pub open spec fn score_update(
        self,
        forwarder: Seq<u8>,
        author: Option<Seq<u8>>,
        reason: Reason,
    ) -> Option<(Seq<u8>, i64)> {
        let target = blamed_peer(forwarder, author, reason);
        match self.validator.app_score(target) {
            Some(score) => Some((target, score)),
            None => None,
        }
    }

    /// What the node reports when it stops.
    pub open spec fn summary(self) -> NodeSummary {
        NodeSummary {
            accepted: self.counters.accepted,
            rejected: self.counters.rejected,
            ignored: self.counters.ignored,
            quarantined_peers: quarantined_count(self.validator.peers) as u64,
            avg_peer_score: average_credit(self.counters.accepted, self.counters.rejected),
            honest_accepted: self.honest_accepted,
            honest_rejected: self.honest_rejected,
        }
    }
}

/// The identities of a list of peers.
pub open spec fn ids_of(peers: Seq<PeerId>) -> Seq<Seq<u8>> {
    Seq::new(peers.len(), |i: int| peers[i]@)
}

/// The identity of the peer inside a score update.
pub open spec fn update_view(update: Option<(PeerId, i64)>) -> Option<(Seq<u8>, i64)> {
    match update {
        Some((peer, score)) => Some((peer@, score)),
        None => None,
    }
}

/// Whether `peer` is among `peers`.
pub fn contains_peer(peers: &Vec<PeerId>, peer: &PeerId) -> (found: bool)
    ensures
        found == ids_of(peers@).contains(peer@),
{
    let n = peers.len();
    let mut i: usize = 0;
    while i < n
        invariant
            n == peers@.len(),
            i <= n,
            forall|k: int| 0 <= k < i ==> ids_of(peers@)[k] != peer@,
        decreases n - i,
    {
        if peers[i].same(peer) {
            assert(ids_of(peers@)[i as int] == peer@);
            return true;
        }
        i += 1;
    }
    false
}

/// A node: a validator, the counters for the summary, and the list of
/// peers whose traffic counts as hostile.
pub struct Node {
    cfg: NodeConfig,
    validator: Validator,
    counters: Counters,
    honest_accepted: u64,
    honest_rejected: u64,
    bad_peer_ids: Vec<PeerId>,
}

impl View for Node {
    type V = NodeView;

    closed spec fn view(&self) -> NodeView {
        NodeView {
            validator: self.validator@,
            counters: self.counters,
            honest_accepted: self.honest_accepted,
            honest_rejected: self.honest_rejected,
            bad_peers: ids_of(self.bad_peer_ids@),
        }
    }
}

impl Node {
    /// The node's validator is well formed.
    pub closed spec fn wf(&self) -> bool {
        self.validator.wf()
    }

    /// The configuration that the node was made with.
    pub closed spec fn config(&self) -> NodeConfig {
        self.cfg
    }

    /// A well-formed node has a well-formed validator.
    pub proof fn lemma_wf(&self)
        requires
            self.wf(),
        ensures
            self@.validator.wf(),
    {
        self.validator.lemma_wf();
    }

    /// A node that has seen nothing.
    pub fn new(cfg: NodeConfig, bad_peer_ids: Vec<PeerId>) -> (node: Node)
        ensures
            node.wf(),
            node.config() == cfg,
            node@ == (NodeView {
                validator: ValidatorView::initial(
                    ValidatorConfig::with_defaults(cfg.max_message_bytes),
                ),
                counters: Counters::zero(),
                honest_accepted: 0,
                honest_rejected: 0,
                bad_peers: ids_of(bad_peer_ids@),
            }),
    {
        let validator = Validator::new(ValidatorConfig::new(cfg.max_message_bytes));
        Node {
            cfg,
            validator,
            counters: Counters::default(),
            honest_accepted: 0,
            honest_rejected: 0,
            bad_peer_ids,
        }
    }

    /// The node's index in the simulation.
    pub fn idx(&self) -> (idx: usize)
        ensures
            idx == self.config().idx,
    {
        self.cfg.idx
    }

    /// The node's topic.
    pub fn topic(&self) -> (topic: &str)
        ensures
            topic@ == self.config().topic@,
    {
        self.cfg.topic.as_str()
    }

    /// The node's validator.
    pub fn validator(&self) -> (validator: &Validator)
        ensures
            validator@ == self@.validator,
            self.wf() ==> validator.wf(),
    {
        &self.validator
    }

    /// Whether a peer is not on the list of bad peers.
    pub fn is_honest(&self, peer: &PeerId) -> (honest: bool)
        ensures
            honest == self@.is_honest(peer@),
    {
        !contains_peer(&self.bad_peer_ids, peer)
    }

    /// Takes a command, or the end of the command stream, and says what
    /// the transport is to do. A new list of bad peers is taken over by the
    /// node itself. On `Shutdown` and at the end of the stream the node
    /// hands out its summary.
    pub fn on_command(&mut self, command: Option<NodeCommand>) -> (action: NodeAction)
        requires
            old(self).wf(),
        ensures
            final(self).wf(),
            final(self).config() == old(self).config(),
            match command {
                Some(NodeCommand::Dial { addr }) => final(self)@ == old(self)@ && action
                    == (NodeAction::Dial { addr }),
                Some(NodeCommand::Subscribe) => final(self)@ == old(self)@ && action
                    == NodeAction::Subscribe,
                Some(NodeCommand::Publish { data }) => final(self)@ == old(self)@ && action
                    == (NodeAction::Publish { data }),
                Some(NodeCommand::SetBadPeers { bad_peer_ids }) => final(self)@ == (NodeView {
                    bad_peers: ids_of(bad_peer_ids@),
                    ..old(self)@
                }) && action == NodeAction::Nothing,
                Some(NodeCommand::Shutdown) | None => final(self)@ == old(self)@ && action
                    == NodeAction::Finish(NodeEvent::Summary(old(self)@.summary())),
            },
    {
        match command {
            Some(NodeCommand::Dial { addr }) => NodeAction::Dial { addr },
            Some(NodeCommand::Subscribe) => NodeAction::Subscribe,
            Some(NodeCommand::Publish { data }) => NodeAction::Publish { data },
            Some(NodeCommand::SetBadPeers { bad_peer_ids }) => {
                self.bad_peer_ids = bad_peer_ids;
                NodeAction::Nothing
            },
            Some(NodeCommand::Shutdown) | None => NodeAction::Finish(
                NodeEvent::Summary(self.summary()),
            ),
        }
    }

    /// Says what the node's owner is to hear of a new listen address.
    pub fn on_listen_addr(&self, addr: String) -> (event: NodeEvent)
        ensures
            event == NodeEvent::NewListenAddr(addr),
    {
        NodeEvent::NewListenAddr(addr)
    }

    /// Judges an inbound message at the present time. See
    /// [`Node::on_message_at`].
    pub fn on_message(
        &mut self,
        propagation_source: &PeerId,
        author: Option<&PeerId>,
        data: &[u8],
    ) -> (report: MessageReport)
        requires
            old(self).wf(),
        ensures
            final(self).wf(),
            final(self).config() == old(self).config(),
            exists|now: u64|
                {
                    &&& final(self)@ == #[trigger] old(self)@.after_message(
                        now,
                        propagation_source@,
                        author_view(author),
                        data@,
                    )
                    &&& report.acceptance == old(self)@.validator.step(
                        now,
                        propagation_source@,
                        author_view(author),
                        data@,
                    ).1.acceptance
                    &&& report.reason == old(self)@.validator.step(
                        now,
                        propagation_source@,
                        author_view(author),
                        data@,
                    ).1.reason
                },
            update_view(report.score_update) == final(self)@.score_update(
                propagation_source@,
                author_view(author),
                report.reason,
            ),
    {
        let now = self.validator.now_micros();
        self.on_message_at(now, propagation_source, author, data)
    }

    /// Judges a message that arrives at `now`: has it validated, counts
    /// the verdict, counts it again for honest traffic if the author is
    /// not on the list of bad peers, and looks up the score that the
    /// overlay is to be given: that of the peer the verdict is held
    /// against.
    pub fn on_message_at(
        &mut self,
        now: u64,
        propagation_source: &PeerId,
        author: Option<&PeerId>,
        data: &[u8],
    ) -> (report: MessageReport)
        requires
            old(self).wf(),
        ensures
            final(self).wf(),
            final(self).config() == old(self).config(),
            final(self)@ == old(self)@.after_message(
                now,
                propagation_source@,
                author_view(author),
                data@,
            ),
            report.acceptance == old(self)@.validator.step(
                now,
                propagation_source@,
                author_view(author),
                data@,
            ).1.acceptance,
            report.reason == old(self)@.validator.step(
                now,
                propagation_source@,
                author_view(author),
                data@,
            ).1.reason,
            update_view(report.score_update) == final(self)@.score_update(
                propagation_source@,
                author_view(author),
                report.reason,
            ),
    {
        let decision = self.validator.validate_at(now, propagation_source, author, data);
        let target: &PeerId = match author {
            Some(a) => a,
            None => propagation_source,
        };
        let honest = self.is_honest(target);
        self.counters.record(decision.acceptance);
        match decision.acceptance {
            Acceptance::Accept => {
                if honest {
                    self.honest_accepted = bump(self.honest_accepted);
                }
            },
            Acceptance::Reject => {
                if honest {
                    self.honest_rejected = bump(self.honest_rejected);
                }
            },
            Acceptance::Ignore => {},
        }
        let blamed: &PeerId = match decision.reason {
            Reason::RateLimited => propagation_source,
            _ => target,
        };
        let score_update = match self.validator.get_app_score_option(blamed) {
            Some(score) => Some((blamed.clone(), score)),
            None => None,
        };
        MessageReport { acceptance: decision.acceptance, reason: decision.reason, score_update }
    }

    /// What the node reports when it stops.
    pub fn summary(&self) -> (summary: NodeSummary)
        ensures
            summary == self@.summary(),
    {
        NodeSummary {
            accepted: self.counters.accepted,
            rejected: self.counters.rejected,
            ignored: self.counters.ignored,
            quarantined_peers: self.validator.get_quarantined_count() as u64,
            avg_peer_score: average(self.counters.accepted, self.counters.rejected),
            honest_accepted: self.honest_accepted,
            honest_rejected: self.honest_rejected,
        }
    }
}

} // verus!
