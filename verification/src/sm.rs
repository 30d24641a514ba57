//! The per-block resync decision procedure, as a state machine.
//!
//! Resyncing one block alternates outside work (status check, RPC to
//! peers, local reads, writes and deletes) with decisions. The decisions
//! live here: the host performs each returned action, then hands the
//! outcome back as a plain value, and the machine decides the next step.
//!
//! The procedure follows the decision table: a block that exists locally
//! and is deletable is offloaded before deletion — peers are asked who
//! still needs it, the block is pushed to all of them with full quorum
//! over that set, and only then deleted locally (and only if still
//! unneeded, which the block store re-checks) — while a block that has a
//! nonzero refcount but no local copy is fetched. Both guards are
//! evaluated from the one status read, offload first.

use vstd::prelude::*;
use vstd::pervasive::unreached;

verus! {

/// What the block store reports for one block: whether a local copy
/// exists, and what the refcount makes of it.
#[derive(Clone, Copy, PartialEq, Eq, Structural, Debug)]
pub struct BlockStatus {
    /// A local copy of the block is present.
    pub exists: bool,
    /// The block is needed here by the replication policy.
    pub is_needed: bool,
    /// The block's refcount is nonzero.
    pub is_nonzero: bool,
    /// The block may be deleted locally (offloaded first).
    pub is_deletable: bool,
}

/// Why one resync attempt failed.
#[derive(Clone, Copy, PartialEq, Eq, Structural, Debug)]
pub enum ResyncError {
    /// Fewer write nodes than the write quorum: offload not attempted.
    NoQuorum,
    /// A peer's reply never arrived or arrived as an error.
    PeerRpc,
    /// A peer answered the need-block query with some other message.
    UnexpectedReply,
    /// Pushing the block to the peers that need it missed its quorum.
    PutBlockFailed,
    /// A local store operation failed.
    LocalIo,
    /// Fetching the absent but needed block from peers failed.
    FetchFailed,
}

/// A peer's answer to a need-block query, as the host hands it over.
#[derive(Clone, Copy, PartialEq, Eq, Structural, Debug)]
pub enum PeerReply {
    /// The peer answered the query: it needs the block, or not.
    NeedBlock(bool),
    /// The peer's reply was an error.
    Failed,
    /// The peer sent a message of some other kind.
    Unexpected,
}

/// The block exists locally and may go: offload it, then delete.
pub open spec fn wants_offload(st: BlockStatus) -> bool {
    st.exists && st.is_deletable
}

/// The block is needed (nonzero refcount) but absent: fetch it.
pub open spec fn wants_fetch(st: BlockStatus) -> bool {
    st.is_nonzero && !st.exists
}

/// The write nodes without this node, in their given order.
pub open spec fn targets_without(nodes: Seq<u64>, self_id: u64) -> Seq<u64>
    decreases nodes.len(),
{
    if nodes.len() == 0 {
        Seq::empty()
    } else if nodes.last() == self_id {
        targets_without(nodes.drop_last(), self_id)
    } else {
        targets_without(nodes.drop_last(), self_id).push(nodes.last())
    }
}

/// Every reply parses as an answer to the need-block query.
pub open spec fn all_replies_parse(rs: Seq<(u64, PeerReply)>) -> bool {
    forall|i: int| 0 <= i < rs.len() ==> (#[trigger] rs[i].1) is NeedBlock
}

/// The peers that answered that they need the block, in reply order.
pub open spec fn nodes_needing(rs: Seq<(u64, PeerReply)>) -> Seq<u64>
    decreases rs.len(),
{
    if rs.len() == 0 {
        Seq::empty()
    } else if rs.last().1 == PeerReply::NeedBlock(true) {
        nodes_needing(rs.drop_last()).push(rs.last().0)
    } else {
        nodes_needing(rs.drop_last())
    }
}

/// The error charged to the first reply that does not parse.
pub open spec fn first_bad_error(rs: Seq<(u64, PeerReply)>) -> ResyncError
    decreases rs.len(),
{
    if rs.len() == 0 {
        ResyncError::PeerRpc
    } else if rs[0].1 == PeerReply::Failed {
        ResyncError::PeerRpc
    } else if rs[0].1 == PeerReply::Unexpected {
        ResyncError::UnexpectedReply
    } else {
        first_bad_error(rs.skip(1))
    }
}

/// Where the procedure stands: which outcome it waits for, with what it
/// has decided so far.
pub enum SmState {
    /// Waiting for the block status read.
    AwaitStatus,
    /// Offload path entered; waiting for the write nodes and quorum.
    AwaitTopology { status: BlockStatus },
    /// Waiting for the peers' answers to the need-block query.
    AwaitNeedReplies { status: BlockStatus, targets: Vec<u64> },
    /// Some peers need the block; waiting for the local read.
    AwaitRead { status: BlockStatus, need_nodes: Vec<u64> },
    /// Waiting for the block push to the needing peers.
    AwaitPut { status: BlockStatus },
    /// Waiting for the local delete-if-unneeded.
    AwaitDelete { status: BlockStatus },
    /// Waiting for the refcount tombstone cleanup.
    AwaitClearRc { status: BlockStatus },
    /// Fetch path; waiting for the block body from peers.
    AwaitFetch,
    /// Waiting for the local write of the fetched body.
    AwaitWrite,
    /// The iteration ended, well or badly.
    Complete { result: Result<(), ResyncError> },
}

/// What the host must do next.
pub enum SmAction {
    /// Ask the replication policy for the block's write nodes, the
    /// write quorum, and this node's id.
    QueryTopology,
    /// Send the need-block query to these peers, background priority,
    /// and collect every reply.
    SendNeedQueries { targets: Vec<u64> },
    /// Read the block body locally.
    ReadBlock,
    /// Push the block to these peers with the given quorum (all of
    /// them), background priority.
    SendBlock { to: Vec<u64>, quorum: usize },
    /// Delete the local copy if the store still finds it unneeded.
    DeleteIfUnneeded,
    /// Clear the block's refcount tombstone.
    ClearRc,
    /// Fetch the block body from peers.
    FetchBlock,
    /// Write the fetched body locally.
    WriteBlock,
    /// Nothing more to do; the iteration ended with this result.
    Finished { result: Result<(), ResyncError> },
}

/// One run of the per-block decision procedure. The host creates it,
/// reads the block status, and then performs each returned action and
/// reports its outcome until the action is `Finished`.
pub struct ResyncBlockSm {
    pub state: SmState,
}

impl ResyncBlockSm {
    /// A fresh run: the host reads the block status first.
    pub fn new() -> (r: ResyncBlockSm)
        ensures
            r.state is AwaitStatus,
    {
        ResyncBlockSm { state: SmState::AwaitStatus }
    }

    /// The result, once the run is complete.
    pub fn result(&self) -> (r: Option<Result<(), ResyncError>>)
        ensures
            r is Some <==> self.state is Complete,
            self.state matches SmState::Complete { result } ==> r == Some(result),
    {
        match &self.state {
            SmState::Complete { result } => Some(*result),
            _ => None,
        }
    }

    /// Takes the status read (`None` when the read itself failed).
    /// A deletable local copy starts the offload path; otherwise a
    /// needed absent block starts the fetch path; otherwise there is
    /// nothing to do.
    pub fn on_status(&mut self, status: Option<BlockStatus>) -> (a: SmAction)
        requires
            old(self).state is AwaitStatus,
        ensures
            status is None ==> final(self).state == (SmState::Complete {
                result: Err(ResyncError::LocalIo),
            }) && a == (SmAction::Finished { result: Err(ResyncError::LocalIo) }),
            status matches Some(st) ==> ({
                &&& wants_offload(st) ==> final(self).state == (SmState::AwaitTopology {
                    status: st,
                }) && a is QueryTopology
                &&& !wants_offload(st) && wants_fetch(st) ==> final(self).state
                    == SmState::AwaitFetch && a is FetchBlock
                &&& !wants_offload(st) && !wants_fetch(st) ==> final(self).state == (
                SmState::Complete { result: Ok(()) }) && a == (SmAction::Finished {
                    result: Ok(()),
                })
            }),
    {
        match status {
            None => {
                self.state = SmState::Complete { result: Err(ResyncError::LocalIo) };
                SmAction::Finished { result: Err(ResyncError::LocalIo) }
            },
            Some(st) => {
                if st.exists && st.is_deletable {
                    self.state = SmState::AwaitTopology { status: st };
                    SmAction::QueryTopology
                } else if st.is_nonzero && !st.exists {
                    self.state = SmState::AwaitFetch;
                    SmAction::FetchBlock
                } else {
                    self.state = SmState::Complete { result: Ok(()) };
                    SmAction::Finished { result: Ok(()) }
                }
            },
        }
    }

    /// Takes the replication policy's answer. With fewer write nodes
    /// than the quorum the offload is not attempted and the iteration
    /// fails; otherwise this node is dropped from the list and the
    /// remaining peers are asked who needs the block (asking an empty
    /// set yields no replies and is harmless).
    pub fn on_topology(&mut self, write_nodes: Vec<u64>, write_quorum: usize, self_id: u64) -> (a:
        SmAction)
        requires
            old(self).state is AwaitTopology,
        ensures
            write_nodes@.len() < write_quorum ==> final(self).state == (SmState::Complete {
                result: Err(ResyncError::NoQuorum),
            }) && a == (SmAction::Finished { result: Err(ResyncError::NoQuorum) }),
            write_nodes@.len() >= write_quorum ==> ({
                &&& (final(self).state matches SmState::AwaitNeedReplies { status, targets }
                    && status == old(self).state->AwaitTopology_status && targets@
                    == targets_without(write_nodes@, self_id))
                &&& (a matches SmAction::SendNeedQueries { targets: t2 } && t2@
                    == targets_without(write_nodes@, self_id))
            }),
    {
        if write_nodes.len() < write_quorum {
            self.state = SmState::Complete { result: Err(ResyncError::NoQuorum) };
            return SmAction::Finished { result: Err(ResyncError::NoQuorum) };
        }
        let st = match &self.state {
            SmState::AwaitTopology { status } => *status,
            _ => unreached(),
        };
        let n = write_nodes.len();
        let mut targets: Vec<u64> = Vec::new();
        let mut second: Vec<u64> = Vec::new();
        let mut i: usize = 0;
        proof {
            assert(write_nodes@.subrange(0, 0) =~= Seq::<u64>::empty());
        }
        while i < n
            invariant
                0 <= i <= n == write_nodes@.len(),
                targets@ == targets_without(write_nodes@.subrange(0, i as int), self_id),
                second@ == targets@,
            decreases n - i,
        {
            let node = write_nodes[i];
            if node != self_id {
                targets.push(node);
                second.push(node);
            }
            proof {
                assert(write_nodes@.subrange(0, i as int + 1).drop_last() =~= write_nodes@.subrange(
                    0,
                    i as int,
                ));
                assert(write_nodes@.subrange(0, i as int + 1).last() == write_nodes@[i as int]);
            }
            i = i + 1;
        }
        proof {
            assert(write_nodes@.subrange(0, n as int) =~= write_nodes@);
        }
        self.state = SmState::AwaitNeedReplies { status: st, targets };
        SmAction::SendNeedQueries { targets: second }
    }

    /// Takes the peers' replies (`None` when the broadcast itself
    /// failed). A reply that does not parse fails the iteration with
    /// the error of the first such reply. Otherwise the peers that need
    /// the block are kept, in order: when none does, the block is
    /// deleted right away; else its body is read for sending.
    pub fn on_need_replies(&mut self, replies: Option<Vec<(u64, PeerReply)>>) -> (a: SmAction)
        requires
            old(self).state is AwaitNeedReplies,
        ensures
            replies is None ==> final(self).state == (SmState::Complete {
                result: Err(ResyncError::PeerRpc),
            }) && a == (SmAction::Finished { result: Err(ResyncError::PeerRpc) }),
            replies matches Some(rs) ==> ({
                &&& !all_replies_parse(rs@) ==> final(self).state == (SmState::Complete {
                    result: Err(first_bad_error(rs@)),
                }) && a == (SmAction::Finished { result: Err(first_bad_error(rs@)) })
                &&& all_replies_parse(rs@) && nodes_needing(rs@).len() == 0 ==> final(self).state
                    == (SmState::AwaitDelete {
                    status: old(self).state->AwaitNeedReplies_status,
                }) && a is DeleteIfUnneeded
                &&& all_replies_parse(rs@) && nodes_needing(rs@).len() > 0 ==> (final(self).state
                    matches SmState::AwaitRead { status, need_nodes } && status == old(
                    self,
                ).state->AwaitNeedReplies_status && need_nodes@ == nodes_needing(rs@) && a
                    is ReadBlock)
            }),
    {
        let st = match &self.state {
            SmState::AwaitNeedReplies { status, .. } => *status,
            _ => unreached(),
        };
        match &replies {
            None => {
                self.state = SmState::Complete { result: Err(ResyncError::PeerRpc) };
                SmAction::Finished { result: Err(ResyncError::PeerRpc) }
            },
            Some(rs) => {
                let n = rs.len();
                let mut need: Vec<u64> = Vec::new();
                let mut i: usize = 0;
                while i < n
                    invariant
                        0 <= i <= n == rs@.len(),
                        replies == Some(*rs),
                        self.state == old(self).state,
                        old(self).state is AwaitNeedReplies,
                        st == old(self).state->AwaitNeedReplies_status,
                        all_replies_parse(rs@.subrange(0, i as int)),
                        need@ == nodes_needing(rs@.subrange(0, i as int)),
                    decreases n - i,
                {
                    let (node, reply) = rs[i];
                    let ghost pre = rs@.subrange(0, i as int);
                    let ghost cur = rs@.subrange(0, i as int + 1);
                    proof {
                        assert(cur.drop_last() =~= pre);
                        assert(cur.last() == rs@[i as int]);
                    }
                    match reply {
                        PeerReply::NeedBlock(needed) => {
                            if needed {
                                need.push(node);
                            }
                            proof {
                                assert forall|j: int|
                                    0 <= j < cur.len() implies (#[trigger] cur[j].1)
                                    is NeedBlock by {
                                    if j < i {
                                        assert(pre[j].1 is NeedBlock);
                                    }
                                }
                            }
                        },
                        PeerReply::Failed => {
                            proof {
                                assert forall|j: int| 0 <= j < i implies (#[trigger] rs@[j].1)
                                    is NeedBlock by {
                                    assert(rs@.subrange(0, i as int)[j] == rs@[j]);
                                    assert(rs@.subrange(0, i as int)[j].1 is NeedBlock);
                                }
                                lemma_first_bad_at(rs@, i as int);
                            }
                            self.state = SmState::Complete { result: Err(ResyncError::PeerRpc) };
                            return SmAction::Finished { result: Err(ResyncError::PeerRpc) };
                        },
                        PeerReply::Unexpected => {
                            proof {
                                assert forall|j: int| 0 <= j < i implies (#[trigger] rs@[j].1)
                                    is NeedBlock by {
                                    assert(rs@.subrange(0, i as int)[j] == rs@[j]);
                                    assert(rs@.subrange(0, i as int)[j].1 is NeedBlock);
                                }
                                lemma_first_bad_at(rs@, i as int);
                            }
                            self.state = SmState::Complete {
                                result: Err(ResyncError::UnexpectedReply),
                            };
                            return SmAction::Finished {
                                result: Err(ResyncError::UnexpectedReply),
                            };
                        },
                    }
                    i = i + 1;
                }
                proof {
                    assert(rs@.subrange(0, n as int) =~= rs@);
                }
                if need.len() == 0 {
                    self.state = SmState::AwaitDelete { status: st };
                    SmAction::DeleteIfUnneeded
                } else {
                    self.state = SmState::AwaitRead { status: st, need_nodes: need };
                    SmAction::ReadBlock
                }
            },
        }
    }

    /// Takes the outcome of the local read. On success the body goes to
    /// every peer that needs the block, with full quorum over them.
    pub fn on_read(&mut self, ok: bool) -> (a: SmAction)
        requires
            old(self).state is AwaitRead,
        ensures
            !ok ==> final(self).state == (SmState::Complete { result: Err(ResyncError::LocalIo) })
                && a == (SmAction::Finished { result: Err(ResyncError::LocalIo) }),
            ok ==> ({
                &&& final(self).state == (SmState::AwaitPut {
                    status: old(self).state->AwaitRead_status,
                })
                &&& (a matches SmAction::SendBlock { to, quorum } && to@ == old(
                    self,
                ).state->AwaitRead_need_nodes@ && quorum == old(
                    self,
                ).state->AwaitRead_need_nodes@.len())
            }),
    {
        if !ok {
            self.state = SmState::Complete { result: Err(ResyncError::LocalIo) };
            return SmAction::Finished { result: Err(ResyncError::LocalIo) };
        }
        let mut taken = SmState::AwaitStatus;
        core::mem::swap(&mut taken, &mut self.state);
        match taken {
            SmState::AwaitRead { status, need_nodes } => {
                let quorum = need_nodes.len();
                self.state = SmState::AwaitPut { status };
                SmAction::SendBlock { to: need_nodes, quorum }
            },
            _ => unreached(),
        }
    }

    /// Takes the outcome of the block push. Failing the push (its
    /// quorum is all needing peers) fails the iteration: the block is
    /// not deleted.
    pub fn on_put(&mut self, ok: bool) -> (a: SmAction)
        requires
            old(self).state is AwaitPut,
        ensures
            !ok ==> final(self).state == (SmState::Complete {
                result: Err(ResyncError::PutBlockFailed),
            }) && a == (SmAction::Finished { result: Err(ResyncError::PutBlockFailed) }),
            ok ==> final(self).state == (SmState::AwaitDelete {
                status: old(self).state->AwaitPut_status,
            }) && a is DeleteIfUnneeded,
    {
        let st = match &self.state {
            SmState::AwaitPut { status } => *status,
            _ => unreached(),
        };
        if ok {
            self.state = SmState::AwaitDelete { status: st };
            SmAction::DeleteIfUnneeded
        } else {
            self.state = SmState::Complete { result: Err(ResyncError::PutBlockFailed) };
            SmAction::Finished { result: Err(ResyncError::PutBlockFailed) }
        }
    }

    /// Takes the outcome of the local delete-if-unneeded.
    pub fn on_delete(&mut self, ok: bool) -> (a: SmAction)
        requires
            old(self).state is AwaitDelete,
        ensures
            !ok ==> final(self).state == (SmState::Complete { result: Err(ResyncError::LocalIo) })
                && a == (SmAction::Finished { result: Err(ResyncError::LocalIo) }),
            ok ==> final(self).state == (SmState::AwaitClearRc {
                status: old(self).state->AwaitDelete_status,
            }) && a is ClearRc,
    {
        let st = match &self.state {
            SmState::AwaitDelete { status } => *status,
            _ => unreached(),
        };
        if ok {
            self.state = SmState::AwaitClearRc { status: st };
            SmAction::ClearRc
        } else {
            self.state = SmState::Complete { result: Err(ResyncError::LocalIo) };
            SmAction::Finished { result: Err(ResyncError::LocalIo) }
        }
    }

    /// Takes the outcome of the refcount cleanup. The fetch guard is
    /// then evaluated on the same status read; with a local copy it
    /// cannot hold, so the offload path ends the iteration.
    pub fn on_clear_rc(&mut self, ok: bool) -> (a: SmAction)
        requires
            old(self).state is AwaitClearRc,
        ensures
            !ok ==> final(self).state == (SmState::Complete { result: Err(ResyncError::LocalIo) })
                && a == (SmAction::Finished { result: Err(ResyncError::LocalIo) }),
            ok && wants_fetch(old(self).state->AwaitClearRc_status) ==> final(self).state
                == SmState::AwaitFetch && a is FetchBlock,
            ok && !wants_fetch(old(self).state->AwaitClearRc_status) ==> final(self).state == (
            SmState::Complete { result: Ok(()) }) && a == (SmAction::Finished { result: Ok(()) }),
    {
        let st = match &self.state {
            SmState::AwaitClearRc { status } => *status,
            _ => unreached(),
        };
        if !ok {
            self.state = SmState::Complete { result: Err(ResyncError::LocalIo) };
            return SmAction::Finished { result: Err(ResyncError::LocalIo) };
        }
        if st.is_nonzero && !st.exists {
            self.state = SmState::AwaitFetch;
            SmAction::FetchBlock
        } else {
            self.state = SmState::Complete { result: Ok(()) };
            SmAction::Finished { result: Ok(()) }
        }
    }

    /// Takes the outcome of the fetch. On success the host counts the
    /// received block and writes the body locally.
    pub fn on_fetch(&mut self, ok: bool) -> (a: SmAction)
        requires
            old(self).state is AwaitFetch,
        ensures
            !ok ==> final(self).state == (SmState::Complete {
                result: Err(ResyncError::FetchFailed),
            }) && a == (SmAction::Finished { result: Err(ResyncError::FetchFailed) }),
            ok ==> final(self).state == SmState::AwaitWrite && a is WriteBlock,
    {
        if ok {
            self.state = SmState::AwaitWrite;
            SmAction::WriteBlock
        } else {
            self.state = SmState::Complete { result: Err(ResyncError::FetchFailed) };
            SmAction::Finished { result: Err(ResyncError::FetchFailed) }
        }
    }

    /// Takes the outcome of the local write of the fetched body.
    pub fn on_write(&mut self, ok: bool) -> (a: SmAction)
        requires
            old(self).state is AwaitWrite,
        ensures
            !ok ==> final(self).state == (SmState::Complete { result: Err(ResyncError::LocalIo) })
                && a == (SmAction::Finished { result: Err(ResyncError::LocalIo) }),
            ok ==> final(self).state == (SmState::Complete { result: Ok(()) }) && a == (
            SmAction::Finished { result: Ok(()) }),
    {
        if ok {
            self.state = SmState::Complete { result: Ok(()) };
            SmAction::Finished { result: Ok(()) }
        } else {
            self.state = SmState::Complete { result: Err(ResyncError::LocalIo) };
            SmAction::Finished { result: Err(ResyncError::LocalIo) }
        }
    }
}

/// When every earlier reply parses and reply `i` does not, the error of
/// the whole collection is the error of reply `i`.
proof fn lemma_first_bad_at(rs: Seq<(u64, PeerReply)>, i: int)
    requires
        0 <= i < rs.len(),
        forall|j: int| 0 <= j < i ==> (#[trigger] rs[j].1) is NeedBlock,
        !(rs[i].1 is NeedBlock),
    ensures
        first_bad_error(rs) == (if rs[i].1 == PeerReply::Failed {
            ResyncError::PeerRpc
        } else {
            ResyncError::UnexpectedReply
        }),
        !all_replies_parse(rs),
    decreases i,
{
    if i == 0 {
    } else {
        assert(rs[0].1 is NeedBlock);
        assert forall|j: int| 0 <= j < i - 1 implies (#[trigger] rs.skip(1)[j].1) is NeedBlock by {
            assert(rs.skip(1)[j] == rs[j + 1]);
        }
        assert(rs.skip(1)[i - 1] == rs[i]);
        lemma_first_bad_at(rs.skip(1), i - 1);
    }
}

} // verus!
