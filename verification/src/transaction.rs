//! Signed transactions.

use crate::primitives::{copy_vec, Address, B256, BlockHash, BlockNumber, TxHash, U256};
use vstd::prelude::*;

verus! {

/// The signer of a transaction could not be recovered from its signature.
#[derive(Debug, Clone, Copy, PartialEq, Eq, Structural)]
pub struct SignerError;

/// A transaction that carries a hash and a signature.
pub trait SignedTransaction: View + Sized {
    /// The hash of a transaction.
    spec fn hash_of(tx: Self::V) -> TxHash;

    /// The signer of a transaction, where its signature determines one.
    spec fn signer_of(tx: Self::V) -> Option<Address>;

    /// Returns the transaction's hash.
    fn tx_hash(&self) -> (hash: &TxHash)
        ensures
            *hash == Self::hash_of(self@),
    ;

    /// Recovers the signer from the signature.
    fn recover_signer(&self) -> (signer: Result<Address, SignerError>)
        ensures
            signer == (match Self::signer_of(self@) {
                Some(address) => Ok::<Address, SignerError>(address),
                None => Err(SignerError),
            }),
    ;

    /// Makes a copy of the transaction.
    fn duplicate(&self) -> (copy: Self)
        ensures
            copy@ == self@,
    ;
}

/// A recoverable ECDSA signature over secp256k1.
#[derive(Debug, Clone, Copy, PartialEq, Eq)]
pub struct Signature {
    pub r: U256,
    pub s: U256,
    pub odd_y_parity: bool,
}

/// What a [`Signature`] holds.
pub struct SignatureView {
    pub r: nat,
    pub s: nat,
    pub odd_y_parity: bool,
}

impl View for Signature {
    type V = SignatureView;

    open spec fn view(&self) -> SignatureView {
        SignatureView { r: self.r@, s: self.s@, odd_y_parity: self.odd_y_parity }
    }
}

/// A signed Ethereum transaction: its hash, what was signed, the signature and the encoding.
#[derive(Debug)]
pub struct TransactionSigned {
    pub hash: TxHash,
    pub signature_hash: B256,
    pub signature: Signature,
    pub encoded: Vec<u8>,
}

/// What a [`TransactionSigned`] holds.
#[verifier::ext_equal]
pub struct TransactionSignedView {
    pub hash: TxHash,
    pub signature_hash: B256,
    pub signature: SignatureView,
    pub encoded: Seq<u8>,
}

impl View for TransactionSigned {
    type V = TransactionSignedView;

    open spec fn view(&self) -> TransactionSignedView {
        TransactionSignedView {
            hash: self.hash,
            signature_hash: self.signature_hash,
            signature: self.signature@,
            encoded: self.encoded@,
        }
    }
}

/// Half the order of the secp256k1 curve; the signer of a signature with a larger `s` is not
/// recovered.
pub open spec fn secp256k1n_half() -> nat {
    0x7FFFFFFFFFFFFFFF_FFFFFFFFFFFFFFFF_5D576E7357A4501D_DFE92F46681B20A0nat
}

/// The error of `alloy_consensus::crypto::secp256k1::recover_signer`.
#[verifier::external_type_specification]
#[verifier::external_body]
pub struct ExRecoveryError(alloy_consensus::crypto::RecoveryError);

/// The address that `alloy_consensus::crypto::secp256k1::recover_signer` recovers from the parts
/// of a signature and the hash that was signed, where it recovers one.
pub uninterp spec fn secp256k1_signer(
    r: nat,
    s: nat,
    odd_y_parity: bool,
    hash: Seq<u8>,
) -> Option<Address>;

/// Calls `alloy_consensus::crypto::secp256k1::recover_signer`. Whether it succeeds, and with which
/// address, depends on the signature and the hash alone; it fails where `s` exceeds half the order
/// of the curve.
#[verifier::external_body]
fn secp256k1_recover(signature: Signature, hash: B256) -> (signer: Result<
    Address,
    alloy_consensus::crypto::RecoveryError,
>)
    ensures
        signer.is_ok() == (secp256k1_signer(
            signature.r@,
            signature.s@,
            signature.odd_y_parity,
            hash@,
        ) is Some),
        signer.is_ok() ==> Some(signer->Ok_0) == secp256k1_signer(
            signature.r@,
            signature.s@,
            signature.odd_y_parity,
            hash@,
        ),
        signature.s@ > secp256k1n_half() ==> signer.is_err(),
{
    let r = alloy_primitives::U256::from_limbs(signature.r.limbs);
    let s = alloy_primitives::U256::from_limbs(signature.s.limbs);
    let signature = alloy_primitives::Signature::new(r, s, signature.odd_y_parity);
    alloy_consensus::crypto::secp256k1::recover_signer(&signature, hash.into()).map(|a| a.into())
}

impl SignedTransaction for TransactionSigned {
    open spec fn hash_of(tx: TransactionSignedView) -> TxHash {
        tx.hash
    }

    open spec fn signer_of(tx: TransactionSignedView) -> Option<Address> {
        secp256k1_signer(
            tx.signature.r,
            tx.signature.s,
            tx.signature.odd_y_parity,
            tx.signature_hash@,
        )
    }

    fn tx_hash(&self) -> &TxHash {
        &self.hash
    }

    fn recover_signer(&self) -> (signer: Result<Address, SignerError>)
        ensures
            self@.signature.s > secp256k1n_half() ==> signer == Err::<Address, SignerError>(
                SignerError,
            ),
    {
        match secp256k1_recover(self.signature, self.signature_hash) {
            Ok(address) => Ok(address),
            Err(_) => Err(SignerError),
        }
    }

    fn duplicate(&self) -> TransactionSigned {
        TransactionSigned {
            hash: self.hash,
            signature_hash: self.signature_hash,
            signature: self.signature,
            encoded: copy_vec(&self.encoded),
        }
    }
}

/// Where a transaction stands: its block and its index in it.
#[derive(Debug, Clone, Copy, PartialEq, Eq)]
pub struct TransactionMeta {
    pub tx_hash: TxHash,
    pub index: u64,
    pub block_hash: BlockHash,
    pub block_number: BlockNumber,
    pub base_fee: Option<u64>,
    pub excess_blob_gas: Option<u64>,
    pub timestamp: u64,
}

} // verus!
