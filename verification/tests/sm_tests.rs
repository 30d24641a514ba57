use block_resync::sm::{
    ResyncBlockSm, SmAction, BlockStatus, PeerReply, ResyncError,
};

fn status(exists: bool, is_needed: bool, is_nonzero: bool, is_deletable: bool) -> BlockStatus {
    BlockStatus { exists, is_needed, is_nonzero, is_deletable }
}

#[test]
fn noop_status_finishes_at_once() {
    let mut sm = ResyncBlockSm::new();
    let a = sm.on_status(Some(status(true, true, true, false)));
    match a {
        SmAction::Finished { result } => assert_eq!(result, Ok(())),
        _ => panic!("a present needed block takes no action"),
    }
    assert_eq!(sm.result(), Some(Ok(())));
}

#[test]
fn failed_status_read_fails_the_iteration() {
    let mut sm = ResyncBlockSm::new();
    let a = sm.on_status(None);
    match a {
        SmAction::Finished { result } => assert_eq!(result, Err(ResyncError::LocalIo)),
        _ => panic!("a failed status read finishes the run"),
    }
}

#[test]
fn fetch_path_fetches_then_writes() {
    // An absent block with a nonzero refcount: fetch it and write the
    // body locally; the host counts the received block in between.
    let mut sm = ResyncBlockSm::new();
    let a = sm.on_status(Some(status(false, true, true, false)));
    assert!(matches!(a, SmAction::FetchBlock));
    let a = sm.on_fetch(true);
    assert!(matches!(a, SmAction::WriteBlock));
    let a = sm.on_write(true);
    match a {
        SmAction::Finished { result } => assert_eq!(result, Ok(())),
        _ => panic!("the fetch path ends after the write"),
    }
    assert_eq!(sm.result(), Some(Ok(())));
}

#[test]
fn fetch_failure_is_reported() {
    let mut sm = ResyncBlockSm::new();
    sm.on_status(Some(status(false, true, true, false)));
    let a = sm.on_fetch(false);
    match a {
        SmAction::Finished { result } => assert_eq!(result, Err(ResyncError::FetchFailed)),
        _ => panic!("a failed fetch finishes the run"),
    }
}

#[test]
fn offload_sends_to_needing_peers_then_deletes() {
    // Write nodes are A=1, B=2, C=3 and this node 99; quorum 2.
    // A and C need the block, B does not.
    let mut sm = ResyncBlockSm::new();
    let a = sm.on_status(Some(status(true, false, false, true)));
    assert!(matches!(a, SmAction::QueryTopology));
    let a = sm.on_topology(vec![1, 2, 3, 99], 2, 99);
    match a {
        SmAction::SendNeedQueries { targets } => assert_eq!(targets, vec![1, 2, 3]),
        _ => panic!("the peers are asked who needs the block"),
    }
    let replies = vec![
        (1u64, PeerReply::NeedBlock(true)),
        (2u64, PeerReply::NeedBlock(false)),
        (3u64, PeerReply::NeedBlock(true)),
    ];
    let a = sm.on_need_replies(Some(replies));
    assert!(matches!(a, SmAction::ReadBlock));
    let a = sm.on_read(true);
    match a {
        SmAction::SendBlock { to, quorum } => {
            assert_eq!(to, vec![1, 3]);
            assert_eq!(quorum, 2);
        },
        _ => panic!("the body goes to the peers that need it"),
    }
    let a = sm.on_put(true);
    assert!(matches!(a, SmAction::DeleteIfUnneeded));
    let a = sm.on_delete(true);
    assert!(matches!(a, SmAction::ClearRc));
    let a = sm.on_clear_rc(true);
    match a {
        SmAction::Finished { result } => assert_eq!(result, Ok(())),
        _ => panic!("the offload path ends after the cleanup"),
    }
    assert_eq!(sm.result(), Some(Ok(())));
}

#[test]
fn offload_without_quorum_fails_without_rpc() {
    let mut sm = ResyncBlockSm::new();
    sm.on_status(Some(status(true, false, false, true)));
    let a = sm.on_topology(vec![1], 2, 99);
    match a {
        SmAction::Finished { result } => assert_eq!(result, Err(ResyncError::NoQuorum)),
        _ => panic!("one write node under a quorum of two must fail"),
    }
    assert_eq!(sm.result(), Some(Err(ResyncError::NoQuorum)));
}

#[test]
fn offload_with_no_needing_peer_skips_the_send() {
    let mut sm = ResyncBlockSm::new();
    sm.on_status(Some(status(true, false, false, true)));
    sm.on_topology(vec![1, 2, 99], 2, 99);
    let replies = vec![
        (1u64, PeerReply::NeedBlock(false)),
        (2u64, PeerReply::NeedBlock(false)),
    ];
    let a = sm.on_need_replies(Some(replies));
    assert!(matches!(a, SmAction::DeleteIfUnneeded));
}

#[test]
fn malformed_reply_fails_the_iteration() {
    let mut sm = ResyncBlockSm::new();
    sm.on_status(Some(status(true, false, false, true)));
    sm.on_topology(vec![1, 2, 99], 2, 99);
    let replies = vec![
        (1u64, PeerReply::NeedBlock(true)),
        (2u64, PeerReply::Unexpected),
    ];
    let a = sm.on_need_replies(Some(replies));
    match a {
        SmAction::Finished { result } => assert_eq!(result, Err(ResyncError::UnexpectedReply)),
        _ => panic!("a reply of the wrong kind is fatal"),
    }
}

#[test]
fn peer_error_reply_fails_the_iteration() {
    let mut sm = ResyncBlockSm::new();
    sm.on_status(Some(status(true, false, false, true)));
    sm.on_topology(vec![1, 2, 99], 2, 99);
    let replies = vec![
        (1u64, PeerReply::Failed),
        (2u64, PeerReply::Unexpected),
    ];
    // The first bad reply decides the error.
    let a = sm.on_need_replies(Some(replies));
    match a {
        SmAction::Finished { result } => assert_eq!(result, Err(ResyncError::PeerRpc)),
        _ => panic!("a failed reply is fatal"),
    }
}

#[test]
fn broadcast_failure_fails_the_iteration() {
    let mut sm = ResyncBlockSm::new();
    sm.on_status(Some(status(true, false, false, true)));
    sm.on_topology(vec![1, 2, 99], 2, 99);
    let a = sm.on_need_replies(None);
    match a {
        SmAction::Finished { result } => assert_eq!(result, Err(ResyncError::PeerRpc)),
        _ => panic!("a failed broadcast is fatal"),
    }
}

#[test]
fn put_below_quorum_keeps_the_block() {
    let mut sm = ResyncBlockSm::new();
    sm.on_status(Some(status(true, false, false, true)));
    sm.on_topology(vec![1, 2, 99], 2, 99);
    sm.on_need_replies(Some(vec![(1u64, PeerReply::NeedBlock(true)), (2u64, PeerReply::NeedBlock(false))]));
    sm.on_read(true);
    let a = sm.on_put(false);
    match a {
        SmAction::Finished { result } => assert_eq!(result, Err(ResyncError::PutBlockFailed)),
        _ => panic!("a failed push means no delete"),
    }
}

#[test]
fn read_failure_keeps_the_block() {
    let mut sm = ResyncBlockSm::new();
    sm.on_status(Some(status(true, false, false, true)));
    sm.on_topology(vec![1, 99], 1, 99);
    sm.on_need_replies(Some(vec![(1u64, PeerReply::NeedBlock(true))]));
    let a = sm.on_read(false);
    match a {
        SmAction::Finished { result } => assert_eq!(result, Err(ResyncError::LocalIo)),
        _ => panic!("a failed read means no send and no delete"),
    }
}

#[test]
fn both_guards_can_run_in_one_iteration() {
    // A status that asks for the offload and the fetch at once: the
    // offload runs first, the fetch follows the cleanup.
    let mut sm = ResyncBlockSm::new();
    let a = sm.on_status(Some(status(true, false, true, true)));
    assert!(matches!(a, SmAction::QueryTopology));
    sm.on_topology(vec![1, 99], 1, 99);
    sm.on_need_replies(Some(vec![(1u64, PeerReply::NeedBlock(false))]));
    sm.on_delete(true);
    let a = sm.on_clear_rc(true);
    // With a local copy present the fetch guard cannot hold.
    match a {
        SmAction::Finished { result } => assert_eq!(result, Ok(())),
        _ => panic!("a present block is not fetched"),
    }
}
