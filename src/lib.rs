//! Claim commitments for an airdrop-style distribution: a fixed-depth Merkle
//! tree over (recipient, amount, secret) entries, inclusion proofs and
//! nullifiers, all generic over a pluggable hash primitive; a demonstration
//! primitive and a Poseidon2 one over BN254; and the hex boundary of the
//! Poseidon2 sponge.

pub mod field;
pub mod hashing;
pub mod merkle;

pub use field::{
    field_to_hex, hash_poseidon, hex_to_field, HashError, HashRequest, HashResponse, Poseidon2Hash,
};
pub use hashing::{hash_pair, poseidon_hash_2, poseidon_hash_3, DemoHash, Digest, HashPrimitive};
pub use merkle::{
    compute_leaf_hash, compute_nullifier, generate_secret, leaf_hash_with, nullifier_with,
    secret_from_nanos, MerkleError, MerkleProof, MerkleTree, MAX_LEAVES, TREE_DEPTH,
};
