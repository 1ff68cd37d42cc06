use bk_rs::block::{bytes_equal, Block, Candidate};
use sha2::Digest;
use bk_rs::encoding::PREALLOCATION_LIMIT;
use bk_rs::hexstr::to_hex_lower;
use bk_rs::miner::{mine_block, mine_random_block, MiningTask};
use bk_rs::pow::{check_leading_zeroes, DIFFICULTY};

const VOTER: &str = "67e55044-10b1-426f-9247-bb680e5fe0c8";

fn fixed(name: &str) -> Block {
    let (idx, c, prev, voter, ts, nonce, hash): (usize, Candidate, &str, &str, u128, u128, &str) = match name {
        "b0" => (0, Candidate::A, "", "67e55044-10b1-426f-9247-bb680e5fe0c8", 10, 2228858, "00000cceee2cdb70837073b357da33c1d0e31dd90a017e054f479f00c83bd891"),
        "b1" => (1, Candidate::B, "00000cceee2cdb70837073b357da33c1d0e31dd90a017e054f479f00c83bd891", "0f8fad5b-d9cb-469f-a165-70867728950e", 20, 2333728, "00000dbe720ab2f76a9b542d98e7c9a5a003a234e46f7f2bf1ff39efa8d97a70"),
        "b2" => (2, Candidate::A, "00000dbe720ab2f76a9b542d98e7c9a5a003a234e46f7f2bf1ff39efa8d97a70", "7c9e6679-7425-40de-944b-e07fc1f90ae7", 30, 764249, "000003a88ae184440475d58140e0c961780dc4069efc2a0cdf43e9a41b6056b4"),
        "b2n" => (2, Candidate::C, "00000dbe720ab2f76a9b542d98e7c9a5a003a234e46f7f2bf1ff39efa8d97a70", "7c9e6679-7425-40de-944b-e07fc1f90ae7", 99, 124157, "0000094eb2416d9ffdbddb1411f108516f4cb3fe306efafc1e2ceef73494167c"),
        "d2" => (2, Candidate::B, "00000dbe720ab2f76a9b542d98e7c9a5a003a234e46f7f2bf1ff39efa8d97a70", "0f8fad5b-d9cb-469f-a165-70867728950e", 40, 2084863, "000007cc4079e0ef51a8d530e0754fb946d6265f07cb27cc4e33efda3a63bb8d"),
        "d1" => (1, Candidate::B, "00000cceee2cdb70837073b357da33c1d0e31dd90a017e054f479f00c83bd891", "67e55044-10b1-426f-9247-bb680e5fe0c8", 50, 350073, "000002caab764ce06370f866b2c257ea50e53c05fe934765e631d7b7d69f5865"),
        "other" => (1, Candidate::C, "0505050505050505050505050505050505050505050505050505050505050505", "7c9e6679-7425-40de-944b-e07fc1f90ae7", 60, 279338, "00000b579ca5697ae23abd4a4417f8953a0410ca632b5fde570ae289d892e14d"),
        "s0" => (0, Candidate::A, "", "67e55044-10b1-426f-9247-bb680e5fe0c8", 1, 48146, "00000d9757186a3c6977780f06516710fb082c0366775a87a848b6852fc5ef22"),
        "s1" => (1, Candidate::C, "00000d9757186a3c6977780f06516710fb082c0366775a87a848b6852fc5ef22", "0f8fad5b-d9cb-469f-a165-70867728950e", 2, 1240194, "0000065458e1e5648aca67f522d82d01aad6d4787fdeb7039fc60725aebb4ba6"),
        "t0" => (0, Candidate::E, "", "0f8fad5b-d9cb-469f-a165-70867728950e", 5, 1009202, "000001c8b2e4c80f48a34cf56c7bfbf9ab58566f821f7b26cf07170355b84438"),
        "nu" => (0, Candidate::B, "", "not-a-uuid", 7, 1554258, "000002cf5ce555b5d0d581c677bf063cdb9e8f2430a0899e50b337e7ac4ca6c4"),
        _ => unreachable!(),
    };
    Block {
        idx,
        data: c,
        prev_hash: hex::decode(prev).unwrap(),
        nonce: Some(nonce),
        hash: hex::decode(hash).unwrap(),
        voter_id: voter.to_string(),
        timestamp: ts,
    }
}

fn sample_block() -> Block {
    Block {
        idx: 3,
        data: Candidate::C,
        prev_hash: vec![1, 2, 3],
        nonce: Some(0x0102),
        hash: vec![9, 8],
        voter_id: VOTER.to_string(),
        timestamp: 1_700_000_000_123,
    }
}

fn wincode_fields(b: &Block, sealed: bool) -> Vec<u8> {
    let mut out = Vec::new();
    out.extend(wincode::serialize(&b.idx).unwrap());
    let tag: u32 = match b.data {
        Candidate::A => 0,
        Candidate::B => 1,
        Candidate::C => 2,
        Candidate::D => 3,
        Candidate::E => 4,
        Candidate::F => 5,
    };
    out.extend(wincode::serialize(&tag).unwrap());
    out.extend(wincode::serialize(&b.prev_hash).unwrap());
    if sealed {
        out.extend(wincode::serialize(&b.nonce).unwrap());
        out.extend(wincode::serialize(&b.hash).unwrap());
    } else {
        out.extend(wincode::serialize(&None::<u128>).unwrap());
        out.extend(wincode::serialize(&Vec::<u8>::new()).unwrap());
    }
    out.extend(wincode::serialize(&b.voter_id).unwrap());
    out.extend(wincode::serialize(&b.timestamp).unwrap());
    out
}

#[test]
fn test_mine_random_block_with_no_last_block() {
    let block = mine_random_block(None, 0);
    let _ = block;
}

#[test]
fn mine_random_block_fields() {
    let block = mine_random_block(None, 0).unwrap();
    assert_eq!(block.idx, 0);
    assert!(block.prev_hash.is_empty());
    assert!(block.data == Candidate::A || block.data == Candidate::B);
    assert_eq!(block.voter_id, "");
    assert_eq!(block.hash.len(), 32);
    assert!(check_leading_zeroes(&block.hash, DIFFICULTY));
}

#[test]
fn leading_zeroes_examples() {
    assert!(check_leading_zeroes(&[0, 0, 0x0f, 0xff], 20));
    assert!(!check_leading_zeroes(&[0, 0, 0x10, 0x00], 20));
    assert!(!check_leading_zeroes(&[0, 1, 0x00, 0x00], 20));
    assert!(check_leading_zeroes(&[0, 0, 0, 0], 32));
    assert!(check_leading_zeroes(&[0xff], 0));
    // a hash shorter than the difficulty never passes
    assert!(!check_leading_zeroes(&[], 8));
    assert!(!check_leading_zeroes(&[0], 9));
    assert!(check_leading_zeroes(&[0], 8));
    assert!(check_leading_zeroes(&[], 0));
    // a partial byte must exist
    assert!(!check_leading_zeroes(&[0], 12));
    assert!(!check_leading_zeroes(&[], 4));
}

#[test]
fn leading_zeroes_monotone_example() {
    let h = [0u8, 0, 0x03, 0xaa];
    assert!(check_leading_zeroes(&h, 22));
    for d in 0..=22 {
        assert!(check_leading_zeroes(&h, d));
    }
    assert!(!check_leading_zeroes(&h, 23));
}

#[test]
fn candidate_names_roundtrip() {
    let all = [Candidate::A, Candidate::B, Candidate::C, Candidate::D, Candidate::E, Candidate::F];
    let names = ["A", "B", "C", "D", "E", "F"];
    for (c, n) in all.iter().zip(names.iter()) {
        assert_eq!(c.name(), *n);
        assert_eq!(Candidate::from_name(n), Some(*c));
        assert_eq!(Candidate::from_name(&c.name()), Some(*c));
    }
    assert_eq!(Candidate::from_name("G"), None);
    assert_eq!(Candidate::from_name("AB"), None);
    assert_eq!(Candidate::from_name(""), None);
    assert_eq!(Candidate::from_name("a"), None);
    assert_eq!(Candidate::from_index(2), Some(Candidate::C));
    assert_eq!(Candidate::from_index(6), None);
    assert_eq!(Candidate::F.tag(), 5);
}

#[test]
fn block_encoding_matches_wincode() {
    let b = sample_block();
    assert_eq!(b.encode().unwrap(), wincode_fields(&b, true));
    assert_eq!(b.preimage(), wincode_fields(&b, false));
    let mut unsealed = sample_block();
    unsealed.nonce = None;
    unsealed.hash = vec![];
    assert_eq!(unsealed.encode().unwrap(), b.preimage());
}

#[test]
fn block_encoding_exact_bytes() {
    let b = Block {
        idx: 1,
        data: Candidate::B,
        prev_hash: vec![0xaa],
        nonce: None,
        hash: vec![],
        voter_id: "x".to_string(),
        timestamp: 2,
    };
    let mut expected = vec![1, 0, 0, 0, 0, 0, 0, 0, 1, 0, 0, 0];
    expected.extend([1, 0, 0, 0, 0, 0, 0, 0, 0xaa]);
    expected.push(0);
    expected.extend([0, 0, 0, 0, 0, 0, 0, 0]);
    expected.extend([1, 0, 0, 0, 0, 0, 0, 0, b'x']);
    expected.extend([2, 0, 0, 0, 0, 0, 0, 0, 0, 0, 0, 0, 0, 0, 0, 0]);
    assert_eq!(b.encode().unwrap(), expected);
}

#[test]
fn block_encoding_refuses_oversized() {
    let mut b = sample_block();
    b.prev_hash = vec![0u8; PREALLOCATION_LIMIT + 1];
    assert!(b.encode().is_none());
    assert!(!b.fits());
    assert!(!b.preimage_fits());
    let mut c = sample_block();
    c.hash = vec![0u8; PREALLOCATION_LIMIT];
    assert!(c.encode().is_some());
    c.hash.push(0);
    assert!(c.encode().is_none());
    assert!(c.preimage_fits());
}

#[test]
fn mined_block_validates() {
    let task = MiningTask { voter_id: VOTER.to_string(), candidate: Candidate::D };
    let b = mine_block(&task, None, 0).unwrap();
    assert_eq!(b.idx, 0);
    assert_eq!(b.data, Candidate::D);
    assert!(b.prev_hash.is_empty());
    assert_eq!(b.voter_id, VOTER);
    assert!(b.nonce.is_some());
    assert_eq!(b.hash.len(), 32);
    assert!(Block::validate(&b));
    // the hash is the SHA-256 of the preimage followed by the big-endian nonce
    let mut input = b.preimage();
    input.extend(b.nonce.unwrap().to_be_bytes());
    assert_eq!(sha2::Sha256::digest(&input).to_vec(), b.hash);
}

#[test]
fn mined_block_on_top_of_last() {
    let first = fixed("b0");
    let task2 = MiningTask { voter_id: "0f8fad5b-d9cb-469f-a165-70867728950e".to_string(), candidate: Candidate::E };
    let second = mine_block(&task2, Some(&first), 0).unwrap();
    assert_eq!(second.idx, 1);
    assert_eq!(second.prev_hash, first.hash);
    assert!(Block::validate(&second));
    // a freshly mined block on top of the tip is added
    let seen = vec![first.voter_id.clone()];
    assert_eq!(
        bk_rs::chain::Chain::validate_addition(&seen, &[first.clone()], &second),
        bk_rs::chain::ValidateChainRes::AddBlock
    );
}

#[test]
fn validation_rejects_tampering() {
    let b = fixed("b1");
    assert!(Block::validate(&b));
    let mut changed_vote = b.clone();
    changed_vote.data = Candidate::C;
    assert!(!Block::validate(&changed_vote));
    let mut no_nonce = b.clone();
    no_nonce.nonce = None;
    assert!(!Block::validate(&no_nonce));
    let mut no_hash = b.clone();
    no_hash.hash = vec![];
    assert!(!Block::validate(&no_hash));
    let mut other_nonce = b.clone();
    other_nonce.nonce = Some(b.nonce.unwrap().wrapping_add(1));
    assert!(!Block::validate(&other_nonce));
    // a block whose voter id is not a UUID never validates, even when mined
    let m = fixed("nu");
    assert!(check_leading_zeroes(&m.hash, DIFFICULTY));
    assert!(!Block::validate(&m));
}

#[test]
fn block_hash_resets_and_mines() {
    let mut b = sample_block();
    assert!(b.hash());
    assert_eq!(b.idx, 3);
    assert_eq!(b.prev_hash, vec![1, 2, 3]);
    assert_eq!(b.timestamp, 1_700_000_000_123);
    assert!(Block::validate(&b));
}

#[test]
fn block_new_stamps_time() {
    let b = Block::new(5, Candidate::F, vec![7; 32], VOTER).unwrap();
    assert_eq!(b.idx, 5);
    assert!(b.timestamp > 1_600_000_000_000);
    assert!(Block::validate(&b));
}

#[test]
fn hex_lower_rendering() {
    assert_eq!(to_hex_lower(&[0x00, 0x0f, 0xa0, 0xff]), "000fa0ff");
    assert_eq!(to_hex_lower(&[]), "");
    let d = md5::compute(b"abc");
    assert_eq!(to_hex_lower(&d.0), format!("{:x}", d));
}

#[test]
fn bytes_equal_examples() {
    assert!(bytes_equal(&[1, 2], &[1, 2]));
    assert!(!bytes_equal(&[1, 2], &[1, 3]));
    assert!(!bytes_equal(&[1], &[1, 2]));
}

fn mined_for(voter: &str) -> Block {
    let task = MiningTask { voter_id: voter.to_string(), candidate: Candidate::B };
    mine_block(&task, None, 0).unwrap()
}

#[test]
fn voter_id_simple_shape_is_valid() {
    assert!(Block::validate(&mined_for("67E5504410B1426F9247BB680E5FE0C8")));
}

#[test]
fn voter_id_braced_shape_is_valid() {
    assert!(Block::validate(&mined_for("{67e55044-10b1-426f-9247-bb680e5fe0c8}")));
}

#[test]
fn voter_id_urn_shape_is_valid() {
    assert!(Block::validate(&mined_for("URN:uuid:67e55044-10b1-426f-9247-bb680e5fe0c8")));
}

#[test]
fn voter_id_misplaced_hyphen_is_invalid() {
    assert!(!Block::validate(&mined_for("67e55044+10b1-426f-9247-bb680e5fe0c8")));
}
