//! Laws on the data: what ranges hold, what views show, what is sealed, decoded and proved.

use crate::account::{
    decoded_bytecode, is_decoded, is_valid_bytecode, Account, Bytecode, BytecodeView,
    ExtendedAccountView,
};
use crate::block::{Block, Withdrawals};
use crate::blocks::{from_to, within};
use crate::error::{found_view, ProviderError};
use crate::header::{header_hash, sealed, Header, HeaderView, SealedHeader};
use crate::primitives::{
    is_zero_hash, keccak256_of, opt_view, seq_view, u256_modulus, Address, B256, U256,
};
use crate::range::{inclusive_holds, Bound, NumberRange};
use crate::transaction::SignedTransaction;
use crate::transaction::{secp256k1_signer, secp256k1n_half, TransactionSigned};
use crate::trie::{
    digits_of, empty_root, AccountProof, HashedPostState, HashedStorage, MultiProof, Nibbles,
    StorageMultiProof, StorageProof, StorageTrieUpdates, TrieUpdates,
};
use std::ops::RangeInclusive;
use vstd::prelude::*;

verus! {

/// A range holds the numbers between its ends: a lower end that is included, excluded or absent
/// bounds it from below, an upper end from above.
pub proof fn law_range_holds_between_its_ends(start: u64, end: u64, number: u64)
    ensures
        (NumberRange { start: Bound::Included(start), end: Bound::Included(end) }).holds(number)
            <==> start <= number <= end,
        (NumberRange { start: Bound::Included(start), end: Bound::Excluded(end) }).holds(number)
            <==> start <= number < end,
        (NumberRange { start: Bound::Included(start), end: Bound::Unbounded }).holds(number)
            <==> start <= number,
        (NumberRange { start: Bound::Excluded(start), end: Bound::Included(end) }).holds(number)
            <==> start < number <= end,
        (NumberRange { start: Bound::Excluded(start), end: Bound::Excluded(end) }).holds(number)
            <==> start < number < end,
        (NumberRange { start: Bound::Excluded(start), end: Bound::Unbounded }).holds(number)
            <==> start < number,
        (NumberRange { start: Bound::Unbounded, end: Bound::Included(end) }).holds(number)
            <==> number <= end,
        (NumberRange { start: Bound::Unbounded, end: Bound::Excluded(end) }).holds(number)
            <==> number < end,
        (NumberRange { start: Bound::Unbounded, end: Bound::Unbounded }).holds(number),
{
}

/// An inclusive range holds the numbers from its first to its last, and loses the last when an
/// iteration has used it up.
pub proof fn law_inclusive_range_holds_between_its_ends(range: RangeInclusive<u64>, number: u64)
    ensures
        !range@.exhausted ==> (inclusive_holds(range, number) <==> range@.start <= number
            <= range@.end),
        range@.exhausted ==> (inclusive_holds(range, number) <==> range@.start <= number
            < range@.end),
        !range@.exhausted ==> (within(range)(number) <==> range@.start <= number <= range@.end),
        range@.exhausted ==> (within(range)(number) <==> range@.start <= number < range@.end),
{
}

/// The numbers from a start up to an end leave the end out.
pub proof fn law_from_to_leaves_out_the_end(start: u64, end: u64, number: u64)
    ensures
        from_to(start, end)(number) <==> start <= number < end,
{
}

/// A 256-bit integer has the value of its limbs, and two with one value have the same limbs.
pub proof fn law_u256_has_the_value_of_its_limbs(value: U256, other: U256)
    ensures
        value@ == value.limbs[0] + 0x1_0000000000000000int * value.limbs[1]
            + 0x1_0000000000000000_0000000000000000int * value.limbs[2]
            + 0x1_0000000000000000_0000000000000000_0000000000000000int * value.limbs[3],
        u256_modulus() == 0x1_0000000000000000_0000000000000000_0000000000000000int
            * 0x1_0000000000000000int,
        value@ == other@ ==> value == other,
{
    if value@ == other@ {
        assert(value.limbs[0] == other.limbs[0]);
        assert(value.limbs[1] == other.limbs[1]);
        assert(value.limbs[2] == other.limbs[2]);
        assert(value.limbs[3] == other.limbs[3]);
        assert(value.limbs =~= other.limbs);
    }
}

/// There is one zero hash, and all its bytes are zero.
pub proof fn law_zero_hash(hash: B256)
    ensures
        is_zero_hash(hash) <==> hash@ == Seq::new(32, |i: int| 0u8),
{
    if is_zero_hash(hash) {
        assert(hash@ =~= Seq::new(32, |i: int| 0u8));
    }
    if hash@ == Seq::new(32, |i: int| 0u8) {
        assert forall|i: int| 0 <= i < 32 implies hash[i] == 0 by {
            assert(hash@[i] == 0);
        }
    }
}

/// Looking at values through their views neither finds nor loses any.
pub proof fn law_views_of_collections<V: View>(value: V, items: Seq<V>, error: ProviderError)
    ensures
        opt_view(Some(value)) == Some(value@),
        opt_view(None::<V>) == None::<V::V>,
        found_view(Ok::<_, ProviderError>(Some(value))) == Ok::<_, ProviderError>(Some(value@)),
        found_view(Ok::<Option<V>, ProviderError>(None)) == Ok::<Option<V::V>, ProviderError>(None),
        found_view(Err::<Option<V>, ProviderError>(error)) == Err::<Option<V::V>, ProviderError>(
            error,
        ),
        seq_view(items).len() == items.len(),
        forall|i: int| 0 <= i < items.len() ==> #[trigger] seq_view(items)[i] == items[i]@,
{
}

/// The view of a header shows each of its fields.
pub proof fn law_header_view(header: Header)
    ensures
        header@.parent_hash == header.parent_hash,
        header@.ommers_hash == header.ommers_hash,
        header@.beneficiary == header.beneficiary,
        header@.state_root == header.state_root,
        header@.transactions_root == header.transactions_root,
        header@.receipts_root == header.receipts_root,
        header@.logs_bloom == header.logs_bloom,
        header@.difficulty == header.difficulty@,
        header@.number == header.number,
        header@.gas_limit == header.gas_limit,
        header@.gas_used == header.gas_used,
        header@.timestamp == header.timestamp,
        header@.extra_data == header.extra_data@,
        header@.mix_hash == header.mix_hash,
        header@.nonce == header.nonce,
        header@.base_fee_per_gas == header.base_fee_per_gas,
        header@.withdrawals_root == header.withdrawals_root,
        header@.blob_gas_used == header.blob_gas_used,
        header@.excess_blob_gas == header.excess_blob_gas,
        header@.parent_beacon_block_root == header.parent_beacon_block_root,
        header@.requests_hash == header.requests_hash,
{
}

/// The view of a block shows its header, and its transactions, ommers and withdrawals in order.
pub proof fn law_block_view<T: View>(block: Block<T>, withdrawals: Withdrawals)
    ensures
        block@.header == block.header@,
        block@.transactions.len() == block.body.transactions@.len(),
        forall|i: int|
            0 <= i < block.body.transactions@.len() ==> #[trigger] block@.transactions[i]
                == block.body.transactions@[i]@,
        block@.ommers.len() == block.body.ommers@.len(),
        forall|i: int|
            0 <= i < block.body.ommers@.len() ==> #[trigger] block@.ommers[i]
                == block.body.ommers@[i]@,
        block.body.withdrawals is None <==> block@.withdrawals is None,
        block.body.withdrawals == Some(withdrawals) ==> block@.withdrawals == Some(withdrawals.0@),
        withdrawals@ == withdrawals.0@,
{
}

/// The view of a transaction shows its fields; its hash is the one it carries, and its signer the
/// one that its signature over its signature hash determines.
pub proof fn law_transaction_view(tx: TransactionSigned)
    ensures
        tx@.hash == tx.hash,
        tx@.signature_hash == tx.signature_hash,
        tx@.encoded == tx.encoded@,
        tx@.signature.r == tx.signature.r@,
        tx@.signature.s == tx.signature.s@,
        tx@.signature.odd_y_parity == tx.signature.odd_y_parity,
        TransactionSigned::hash_of(tx@) == tx.hash,
        TransactionSigned::signer_of(tx@) == secp256k1_signer(
            tx.signature.r@,
            tx.signature.s@,
            tx.signature.odd_y_parity,
            tx.signature_hash@,
        ),
{
}

/// Signers are not recovered above half the order of the curve, and that order is an odd number:
/// twice the half, and one, is the order of secp256k1.
pub proof fn law_half_of_the_order()
    ensures
        2 * secp256k1n_half() + 1
            == 0xFFFFFFFFFFFFFFFF_FFFFFFFFFFFFFFFE_BAAEDCE6AF48A03B_BFD25E8CD0364141nat,
{
}

/// The view of an account shows its fields.
pub proof fn law_account_view(account: Account)
    ensures
        account@.nonce == account.nonce,
        account@.balance == account.balance@,
        account@.bytecode_hash == account.bytecode_hash,
{
}

/// The view of code shows its fields, and its original bytes are the raw bytes without padding.
pub proof fn law_bytecode_view(
    bytecode: Vec<u8>,
    original_len: usize,
    jump_table: Vec<u8>,
    delegated_address: Address,
    version: u8,
    raw: Vec<u8>,
)
    ensures
        (Bytecode::LegacyAnalyzed { bytecode, original_len, jump_table })@ == (
        BytecodeView::LegacyAnalyzed {
            bytecode: bytecode@,
            original_len: original_len as int,
            jump_table: jump_table@,
        }),
        (Bytecode::LegacyAnalyzed { bytecode, original_len, jump_table })@.original_bytes()
            == bytecode@.take(original_len as int),
        (Bytecode::Eof { raw })@ == (BytecodeView::Eof { raw: raw@ }),
        (Bytecode::Eof { raw })@.original_bytes() == raw@,
        (Bytecode::Eip7702 { delegated_address, version, raw })@ == (BytecodeView::Eip7702 {
            delegated_address: delegated_address@,
            version,
            raw: raw@,
        }),
        (Bytecode::Eip7702 { delegated_address, version, raw })@.original_bytes() == raw@,
{
}

/// Which raw bytes are valid code: those that start with `ef 00` where they decode, those that
/// start with `ef 01` where they are 23 bytes of version zero, and all others.
pub proof fn law_valid_code(raw: Seq<u8>)
    ensures
        raw.len() < 2 ==> is_valid_bytecode(raw),
        raw.len() >= 2 && raw[0] != 0xef ==> is_valid_bytecode(raw),
        raw.len() >= 2 && raw[0] == 0xef && raw[1] == 0x00 ==> (is_valid_bytecode(raw)
            <==> decoded_bytecode(raw) is Some),
        raw.len() >= 2 && raw[0] == 0xef && raw[1] == 0x01 ==> (is_valid_bytecode(raw)
            <==> raw.len() == 23 && raw[2] == 0),
        raw.len() >= 2 && raw[0] == 0xef && raw[1] > 0x01 ==> is_valid_bytecode(raw),
{
}

/// What raw bytes decode to: a container keeps its bytes, a delegation names the address in its
/// last twenty bytes, and other code is followed by 33 zeros; the original bytes are always the raw
/// bytes.
pub proof fn law_decoded_code(code: BytecodeView, raw: Seq<u8>)
    requires
        is_decoded(code, raw),
    ensures
        decoded_bytecode(raw) == Some(code),
        code.original_bytes() == raw,
        raw.len() >= 2 && raw[0] == 0xef && raw[1] == 0x00 ==> code == (BytecodeView::Eof { raw }),
        raw.len() >= 2 && raw[0] == 0xef && raw[1] == 0x01 ==> code == (BytecodeView::Eip7702 {
            delegated_address: raw.subrange(3, raw.len() as int),
            version: 0,
            raw,
        }),
        raw.len() < 2 || raw[0] != 0xef || raw[1] > 0x01 ==> {
            &&& code matches BytecodeView::LegacyAnalyzed { bytecode, original_len, .. }
            &&& original_len == raw.len()
            &&& bytecode.len() == raw.len() + 33
            &&& forall|i: int| 0 <= i < raw.len() ==> #[trigger] bytecode[i] == raw[i]
            &&& forall|i: int|
                raw.len() <= i < raw.len() + 33 ==> #[trigger] bytecode[i] == 0
        },
{
}

/// An account that hashes its code has a code hash just where it has code, and the hash is the
/// digest of the code's original bytes.
pub proof fn law_account_hashes_its_code(account: ExtendedAccountView)
    requires
        account.hashes_its_code(),
    ensures
        account.account.bytecode_hash is Some <==> account.bytecode is Some,
        account.bytecode matches Some(code) ==> account.account.bytecode_hash == Some(
            keccak256_of(code.original_bytes()),
        ),
{
}

/// A sealed header carries the header that was sealed and the hash of that very header.
pub proof fn law_sealed_header_carries_its_own_hash(header: HeaderView, sealed_header: SealedHeader)
    requires
        sealed_header@ == sealed(header),
    ensures
        sealed_header.header@ == header,
        sealed_header.hash == header_hash(sealed_header.header@),
        sealed_header@.header == header,
        sealed_header@.hash == header_hash(sealed_header@.header),
{
}

/// The digits of bytes are two for each byte, each below sixteen, and put together they give the
/// bytes again.
pub proof fn law_digits_give_the_bytes(bytes: Seq<u8>, path: Nibbles)
    ensures
        digits_of(bytes).len() == 2 * bytes.len(),
        forall|i: int| 0 <= i < 2 * bytes.len() ==> #[trigger] digits_of(bytes)[i] < 16,
        forall|i: int|
            0 <= i < bytes.len() ==> (#[trigger] bytes[i]) == 16 * digits_of(bytes)[2 * i]
                + digits_of(bytes)[2 * i + 1],
        path@ == path.0@,
{
    assert forall|i: int| 0 <= i < bytes.len() implies (#[trigger] bytes[i]) == 16 * digits_of(
        bytes,
    )[2 * i] + digits_of(bytes)[2 * i + 1] by {
        assert((2 * i) % 2 == 0 && (2 * i) / 2 == i);
        assert((2 * i + 1) % 2 == 1 && (2 * i + 1) / 2 == i);
    }
}

/// What a proof of a slot starts with: the slot, the path of its digest, the value zero and no
/// nodes.
pub proof fn law_started_storage_proof(started: StorageProof, key: B256)
    requires
        started.is_start_for(key),
    ensures
        started.key == key,
        started.nibbles.0@ == digits_of(keccak256_of(key@)@),
        started.value@ == 0,
        started.proof_nodes@ == Seq::<Vec<u8>>::empty(),
{
    assert(started.proof_nodes@ =~= Seq::<Vec<u8>>::empty());
}

/// What a proof of an account starts with: the address, no account, no nodes and no storage.
pub proof fn law_started_account_proof(started: AccountProof, address: Address)
    requires
        started.is_start_for(address),
    ensures
        started.address == address,
        started.info is None,
        started.proof_nodes@ == Seq::<Vec<u8>>::empty(),
        started.storage_root@ == empty_root(),
        started.storage_proofs@ == Seq::<StorageProof>::empty(),
{
    assert(started.proof_nodes@ =~= Seq::<Vec<u8>>::empty());
    assert(started.storage_proofs@ =~= Seq::<StorageProof>::empty());
}

/// What proofs and updates of nothing hold: an empty trie is proved by its root and the node of the
/// empty string at the empty path, and all else is empty.
pub proof fn law_nothing_is_proved_or_updated(
    storage: StorageMultiProof,
    several: MultiProof,
    updates: TrieUpdates,
    state: HashedPostState,
)
    requires
        storage.is_of_empty_trie(),
        several.is_of_nothing(),
        updates.is_unchanged(),
        state.is_empty_state(),
    ensures
        storage.root@ == empty_root(),
        storage.subtree@.len() == 1,
        storage.subtree@[0].0.0@ == Seq::<u8>::empty(),
        storage.subtree@[0].1@ == seq![0x80u8],
        several.account_subtree@ == Seq::<(Nibbles, Vec<u8>)>::empty(),
        several.storages@ == Map::<B256, StorageMultiProof>::empty(),
        updates.account_nodes@.len() == 0,
        updates.removed_nodes@.len() == 0,
        updates.storage_tries@ == Map::<B256, StorageTrieUpdates>::empty(),
        state.accounts@ == Map::<B256, Option<Account>>::empty(),
        state.storages@ == Map::<B256, HashedStorage>::empty(),
{
    assert(several.account_subtree@ =~= Seq::<(Nibbles, Vec<u8>)>::empty());
}

/// The root of an empty trie, byte for byte.
pub proof fn law_empty_root()
    ensures
        empty_root() == seq![0x56u8, 0xe8u8, 0x1fu8, 0x17u8, 0x1bu8, 0xccu8, 0x55u8, 0xa6u8]
            + seq![0xffu8, 0x83u8, 0x45u8, 0xe6u8, 0x92u8, 0xc0u8, 0xf8u8, 0x6eu8]
            + seq![0x5bu8, 0x48u8, 0xe0u8, 0x1bu8, 0x99u8, 0x6cu8, 0xadu8, 0xc0u8]
            + seq![0x01u8, 0x62u8, 0x2fu8, 0xb5u8, 0xe3u8, 0x63u8, 0xb4u8, 0x21u8],
{
    assert(empty_root() =~= seq![0x56u8, 0xe8u8, 0x1fu8, 0x17u8, 0x1bu8, 0xccu8, 0x55u8, 0xa6u8]
        + seq![0xffu8, 0x83u8, 0x45u8, 0xe6u8, 0x92u8, 0xc0u8, 0xf8u8, 0x6eu8]
        + seq![0x5bu8, 0x48u8, 0xe0u8, 0x1bu8, 0x99u8, 0x6cu8, 0xadu8, 0xc0u8]
        + seq![0x01u8, 0x62u8, 0x2fu8, 0xb5u8, 0xe3u8, 0x63u8, 0xb4u8, 0x21u8]);
}

} // verus!
