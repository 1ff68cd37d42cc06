pub mod block;
pub mod chain;
pub mod encoding;
pub mod external;
pub mod gossip;
pub mod hexstr;
pub mod known_peers;
pub mod miner;
pub mod mining_pool;
pub mod net;
pub mod node;
pub mod peer;
pub mod pow;
pub mod report;
pub mod vote_cache;
