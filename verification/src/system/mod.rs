pub mod p2p;
