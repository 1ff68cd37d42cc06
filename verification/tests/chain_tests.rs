use bk_rs::block::{Block, Candidate};
use bk_rs::chain::{Chain, ChainError, ValidateChainRes};
use bk_rs::hexstr::to_hex_lower;

const V1: &str = "67e55044-10b1-426f-9247-bb680e5fe0c8";
const V2: &str = "0f8fad5b-d9cb-469f-a165-70867728950e";

fn fixed(name: &str) -> Block {
    let (idx, c, prev, voter, ts, nonce, hash): (usize, Candidate, &str, &str, u128, u128, &str) = match name {
        "b0" => (0, Candidate::A, "", "67e55044-10b1-426f-9247-bb680e5fe0c8", 10, 2228858, "00000cceee2cdb70837073b357da33c1d0e31dd90a017e054f479f00c83bd891"),
        "b1" => (1, Candidate::B, "00000cceee2cdb70837073b357da33c1d0e31dd90a017e054f479f00c83bd891", "0f8fad5b-d9cb-469f-a165-70867728950e", 20, 2333728, "00000dbe720ab2f76a9b542d98e7c9a5a003a234e46f7f2bf1ff39efa8d97a70"),
        "b2" => (2, Candidate::A, "00000dbe720ab2f76a9b542d98e7c9a5a003a234e46f7f2bf1ff39efa8d97a70", "7c9e6679-7425-40de-944b-e07fc1f90ae7", 30, 764249, "000003a88ae184440475d58140e0c961780dc4069efc2a0cdf43e9a41b6056b4"),
        "b2n" => (2, Candidate::C, "00000dbe720ab2f76a9b542d98e7c9a5a003a234e46f7f2bf1ff39efa8d97a70", "7c9e6679-7425-40de-944b-e07fc1f90ae7", 99, 124157, "0000094eb2416d9ffdbddb1411f108516f4cb3fe306efafc1e2ceef73494167c"),
        "d2" => (2, Candidate::B, "00000dbe720ab2f76a9b542d98e7c9a5a003a234e46f7f2bf1ff39efa8d97a70", "0f8fad5b-d9cb-469f-a165-70867728950e", 40, 2084863, "000007cc4079e0ef51a8d530e0754fb946d6265f07cb27cc4e33efda3a63bb8d"),
        "d1" => (1, Candidate::B, "00000cceee2cdb70837073b357da33c1d0e31dd90a017e054f479f00c83bd891", "67e55044-10b1-426f-9247-bb680e5fe0c8", 50, 350073, "000002caab764ce06370f866b2c257ea50e53c05fe934765e631d7b7d69f5865"),
        "other" => (1, Candidate::C, "0505050505050505050505050505050505050505050505050505050505050505", "7c9e6679-7425-40de-944b-e07fc1f90ae7", 60, 279338, "00000b579ca5697ae23abd4a4417f8953a0410ca632b5fde570ae289d892e14d"),
        "s0" => (0, Candidate::A, "", "67e55044-10b1-426f-9247-bb680e5fe0c8", 1, 48146, "00000d9757186a3c6977780f06516710fb082c0366775a87a848b6852fc5ef22"),
        "s1" => (1, Candidate::C, "00000d9757186a3c6977780f06516710fb082c0366775a87a848b6852fc5ef22", "0f8fad5b-d9cb-469f-a165-70867728950e", 2, 1240194, "0000065458e1e5648aca67f522d82d01aad6d4787fdeb7039fc60725aebb4ba6"),
        "t0" => (0, Candidate::E, "", "0f8fad5b-d9cb-469f-a165-70867728950e", 5, 1009202, "000001c8b2e4c80f48a34cf56c7bfbf9ab58566f821f7b26cf07170355b84438"),
        "nu" => (0, Candidate::B, "", "not-a-uuid", 7, 1554258, "000002cf5ce555b5d0d581c677bf063cdb9e8f2430a0899e50b337e7ac4ca6c4"),
        _ => unreachable!(),
    };
    Block {
        idx,
        data: c,
        prev_hash: hex::decode(prev).unwrap(),
        nonce: Some(nonce),
        hash: hex::decode(hash).unwrap(),
        voter_id: voter.to_string(),
        timestamp: ts,
    }
}

fn three_blocks() -> Vec<Block> {
    vec![fixed("b0"), fixed("b1"), fixed("b2")]
}

#[test]
fn fixture_blocks_are_valid() {
    for n in ["b0", "b1", "b2", "b2n", "d2", "d1", "other", "s0", "s1", "t0"] {
        assert!(Block::validate(&fixed(n)), "{}", n);
    }
    assert!(!Block::validate(&fixed("nu")));
    assert_eq!(fixed("b0").voter_id, V1);
}

#[test]
fn chain_basic_operations() {
    let blocks = three_blocks();
    let mut c = Chain::new();
    assert_eq!(c.len(), 0);
    assert!(c.last().is_none());
    c.push(blocks[0].clone());
    assert_eq!(c.len(), 1);
    c.extend(vec![blocks[1].clone(), blocks[2].clone()]);
    assert_eq!(c.len(), 3);
    assert_eq!(c.last().unwrap().idx, 2);
    assert_eq!(c.blocks()[1].voter_id, V2);
    c.clear();
    assert_eq!(c.len(), 0);
}

#[test]
fn validate_accepts_longer_linked_chain() {
    let blocks = three_blocks();
    assert_eq!(Chain::validate(&blocks, &[]), Ok(()));
    assert_eq!(Chain::validate(&blocks, &blocks[..2]), Ok(()));
}

#[test]
fn validate_errors() {
    let blocks = three_blocks();
    assert_eq!(
        Chain::validate(&blocks[..1], &blocks),
        Err(ChainError::Shorter { new_len: 1, current_len: 3 })
    );
    assert_eq!(
        Chain::validate(&blocks, &blocks),
        Err(ChainError::NotNewer {
            len: 3,
            new_last_timestamp: Some(30),
            current_last_timestamp: Some(30)
        })
    );
    assert_eq!(
        Chain::validate(&[], &[]),
        Err(ChainError::NotNewer { len: 0, new_last_timestamp: None, current_last_timestamp: None })
    );
    // same height but newer last block passes the height check
    let mut newer = blocks.clone();
    newer[2] = fixed("b2n");
    assert_eq!(Chain::validate(&newer, &blocks), Ok(()));

    let mut broken_link = blocks.clone();
    broken_link[2].prev_hash = vec![0; 32];
    assert_eq!(Chain::validate(&broken_link, &[]), Err(ChainError::PrevHashMismatch { index: 2 }));

    let mut invalid = blocks.clone();
    invalid[1].data = Candidate::F;
    assert_eq!(Chain::validate(&invalid, &[]), Err(ChainError::InvalidBlock { index: 1 }));

    let d2 = fixed("d2");
    let dup = vec![blocks[0].clone(), blocks[1].clone(), d2];
    assert_eq!(Chain::validate(&dup, &[]), Err(ChainError::DuplicateVoter { index: 2 }));

    // block 0 is validated and its voter counted like any other
    let d1 = fixed("d1");
    let repeat_first = vec![blocks[0].clone(), d1];
    assert_eq!(Chain::validate(&repeat_first, &[]), Err(ChainError::DuplicateVoter { index: 1 }));
    let mut invalid_first = blocks.clone();
    invalid_first[0].data = Candidate::F;
    assert_eq!(Chain::validate(&invalid_first, &[]), Err(ChainError::InvalidBlock { index: 0 }));
    let mut unmined_first = blocks.clone();
    unmined_first[0].nonce = None;
    assert_eq!(Chain::validate(&unmined_first, &[]), Err(ChainError::InvalidBlock { index: 0 }));
}

#[test]
fn chain_error_messages() {
    assert_eq!(
        ChainError::Shorter { new_len: 1, current_len: 2 }.message(),
        "new chain (1 blocks) is shorter than current chain (2 blocks)"
    );
    assert_eq!(
        ChainError::NotNewer { len: 3, new_last_timestamp: Some(30), current_last_timestamp: Some(31) }
            .message(),
        "new chain has equal height (3 blocks) but is not newer (new timestamp: Some(30), current timestamp: Some(31))"
    );
    assert_eq!(
        ChainError::NotNewer { len: 0, new_last_timestamp: None, current_last_timestamp: None }.message(),
        "new chain has equal height (0 blocks) but is not newer (new timestamp: None, current timestamp: None)"
    );
    assert_eq!(
        ChainError::PrevHashMismatch { index: 12 }.message(),
        "block 12 prev_hash does not match hash of block 11"
    );
    assert_eq!(ChainError::InvalidBlock { index: 0 }.message(), "block 0 failed validation");
    assert_eq!(
        ChainError::DuplicateVoter { index: 7 }.message(),
        "block 7 has a duplicate voter_id within the new chain"
    );
}

#[test]
fn chain_hash_is_thirty_two_hex_digits() {
    let blocks = three_blocks();
    let mut c = Chain::new();
    assert_eq!(c.hash().len(), 32);
    c.extend(blocks);
    let h = c.hash();
    assert_eq!(h.len(), 32);
    assert!(h.chars().all(|ch| ch.is_ascii_hexdigit() && !ch.is_ascii_uppercase()));
}

#[test]
fn validate_addition_outcomes() {
    let blocks = three_blocks();
    let seen: Vec<String> = vec![V1.to_string()];
    // voter already counted
    assert_eq!(Chain::validate_addition(&seen, &blocks[..1], &blocks[0]), ValidateChainRes::IgnoreBlock);
    // empty chain: only a valid block 0 is added
    assert_eq!(Chain::validate_addition(&[], &[], &blocks[0]), ValidateChainRes::AddBlock);
    assert_eq!(Chain::validate_addition(&[], &[], &blocks[1]), ValidateChainRes::IgnoreBlock);
    let mut bad0 = blocks[0].clone();
    bad0.data = Candidate::E;
    assert_eq!(Chain::validate_addition(&[], &[], &bad0), ValidateChainRes::IgnoreBlock);
    // next block
    assert_eq!(Chain::validate_addition(&seen, &blocks[..1], &blocks[1]), ValidateChainRes::AddBlock);
    // index not above the tip
    assert_eq!(Chain::validate_addition(&seen, &blocks[..2], &blocks[1]), ValidateChainRes::AttemptedLateAdd);
    // next index but mined on another tip
    let other = fixed("other");
    assert_eq!(Chain::validate_addition(&seen, &blocks[..1], &other), ValidateChainRes::AttemptedLateAdd);
    // index gap
    assert_eq!(Chain::validate_addition(&seen, &blocks[..1], &blocks[2]), ValidateChainRes::IgnoreBlock);
    // next index, right parent, invalid block
    let mut bad1 = blocks[1].clone();
    bad1.data = Candidate::D;
    assert_eq!(Chain::validate_addition(&seen, &blocks[..1], &bad1), ValidateChainRes::IgnoreBlock);
}

#[test]
fn chain_hash_is_md5_of_encoding() {
    let blocks = three_blocks();
    let mut c = Chain::new();
    c.extend(blocks.clone());
    assert!(Chain::fits(c.blocks()));
    let bytes = Chain::encode_blocks(c.blocks());
    let mut expected = wincode::serialize(&(blocks.len() as u64)).unwrap();
    for b in &blocks {
        expected.extend(b.encode().unwrap());
    }
    assert_eq!(bytes, expected);
    let h = c.hash();
    assert_eq!(h, format!("{:x}", md5::compute(&bytes)));
    assert_eq!(h.len(), 32);
    assert_eq!(h, to_hex_lower(&md5::compute(&bytes).0));
    let empty = Chain::new();
    assert_eq!(empty.hash(), format!("{:x}", md5::compute([0u8; 8])));
}
