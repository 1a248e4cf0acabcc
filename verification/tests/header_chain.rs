use xirtam::dirclient::header_sync::{HeaderChain, HeaderSyncError};
use xirtam::structs::directory::DirectoryHeader;

fn header(prev: xirtam::crypt::hash::Hash, t: u64) -> DirectoryHeader {
    DirectoryHeader {
        prev,
        smt_root: xirtam::crypt::hash::Hash::from_bytes([t as u8; 32]),
        time_unix: t,
    }
}

#[test]
fn header_chain_grows_only_by_linked_batches() {
    let mut chain = HeaderChain::new();
    assert_eq!(chain.next_height(), 0);
    assert_eq!(chain.tip_hash(), xirtam::crypt::hash::Hash::zero());
    let h0 = header(xirtam::crypt::hash::Hash::zero(), 1);
    let h1 = header(h0.hash(), 2);
    assert_eq!(chain.extend(&vec![h0, h1], 1), Ok(()));
    assert_eq!(chain.next_height(), 2);
    assert_eq!(chain.tip_hash(), h1.hash());
    let bad = header(h0.hash(), 3);
    assert_eq!(
        chain.extend(&vec![bad], 2),
        Err(HeaderSyncError::ChainMismatch(2))
    );
    assert_eq!(chain.next_height(), 2);
    let h2 = header(h1.hash(), 3);
    assert_eq!(
        chain.extend(&vec![h2], 3),
        Err(HeaderSyncError::IncompleteRange)
    );
    assert_eq!(chain.extend(&vec![h2], 2), Ok(()));
    assert_eq!(chain.tip_hash(), h2.hash());
}
